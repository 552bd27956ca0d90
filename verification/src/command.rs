//! Typed drawing commands and the line parser that produces them.
//!
//! A command line is a sequence of whitespace-separated tokens: a keyword
//! followed by its operands. Numeric operands for `move`, `scale` and
//! `rotate` are decimal numerals with an optional sign and an optional
//! fractional part, read into fixed point (millionths); fractional digits
//! past the sixth are checked for being digits but their value is
//! truncated. `color` takes three distinct integer operands 0-255 (the
//! third operand alone gives the blue channel), `power` one integer
//! operand 0-255, and `toggle` the word `true` or `false`. Tokens after
//! the required operands are ignored. A line that cannot be parsed is
//! reported as a typed [`ParseError`], never as a panic.

use vstd::prelude::*;

verus! {

/// A parsed drawing command. Scalar payloads are fixed point: `1_000_000`
/// is one unit, and the `Rotate` payload counts micro-degrees.
#[derive(Clone, Copy, PartialEq, Eq, Structural, Debug)]
pub enum DrawCall {
    /// Reset the whole pen state.
    Home,
    /// Move the pen by the given offsets in the current basis.
    Move(i64, i64),
    /// Scale the basis vectors.
    Scale(i64, i64),
    /// Rotate the basis vectors, in micro-degrees.
    Rotate(i64),
    /// Set the pen's color.
    Color(u8, u8, u8),
    /// Set the pen's opacity.
    Power(u8),
    /// Turn the pen on or off.
    Toggle(bool),
}

/// Why a command line was rejected. Operand indices count from one.
#[derive(PartialEq, Eq, Debug)]
pub enum ParseError {
    /// The first token is not a known keyword; holds that token.
    UnknownCommand(String),
    /// Too few tokens; holds the keyword and the first absent operand's index.
    MissingOperand(String, usize),
    /// A token does not read as the expected type; holds the keyword, the
    /// operand's index, and the offending token.
    InvalidOperand(String, usize, String),
}

/// The mathematical shape of a [`ParseError`]: the same variants over
/// character sequences.
pub enum ParseErrorModel {
    UnknownCommand(Seq<char>),
    MissingOperand(Seq<char>, int),
    InvalidOperand(Seq<char>, int, Seq<char>),
}

impl View for ParseError {
    type V = ParseErrorModel;

    open spec fn view(&self) -> ParseErrorModel {
        match self {
            ParseError::UnknownCommand(k) => ParseErrorModel::UnknownCommand(k@),
            ParseError::MissingOperand(k, i) => ParseErrorModel::MissingOperand(k@, *i as int),
            ParseError::InvalidOperand(k, i, raw) => ParseErrorModel::InvalidOperand(
                k@,
                *i as int,
                raw@,
            ),
        }
    }
}

/// Whether `c` is a decimal digit.
pub open spec fn is_digit(c: char) -> bool {
    ('0' as u32) <= (c as u32) && (c as u32) <= ('9' as u32)
}

/// The value of the digit `c`.
pub open spec fn digit_val(c: char) -> int
    recommends
        is_digit(c),
{
    (c as u32) - ('0' as u32)
}

/// Whether every character of `s` is a decimal digit.
pub open spec fn all_digits(s: Seq<char>) -> bool {
    forall|j: int| 0 <= j < s.len() ==> is_digit(#[trigger] s[j])
}

/// The number written by the digit string `s`, most significant first.
pub open spec fn digits_val(s: Seq<char>) -> int
    decreases s.len(),
{
    if s.len() == 0 {
        0
    } else {
        digits_val(s.drop_last()) * 10 + digit_val(s.last())
    }
}

/// A digit string's value is non-negative.
proof fn lemma_digits_val_nonneg(s: Seq<char>)
    requires
        all_digits(s),
    ensures
        digits_val(s) >= 0,
    decreases s.len(),
{
    if s.len() > 0 {
        assert(all_digits(s.drop_last()));
        lemma_digits_val_nonneg(s.drop_last());
    }
}

/// A string of `n` digits writes a value below `10^n`; in particular at
/// most six digits stay below one million.
proof fn lemma_digits_val_small(s: Seq<char>, bound: int)
    requires
        all_digits(s),
        s.len() <= 6,
        bound == pow10_small(s.len() as int),
    ensures
        0 <= digits_val(s) < bound,
    decreases s.len(),
{
    if s.len() == 0 {
    } else {
        assert(all_digits(s.drop_last()));
        lemma_digits_val_small(s.drop_last(), pow10_small(s.drop_last().len() as int));
    }
}

/// `10^n` for `0 <= n <= 6`, written out so that concrete values are
/// immediate.
pub open spec fn pow10_small(n: int) -> int {
    if n <= 0 {
        1
    } else if n == 1 {
        10
    } else if n == 2 {
        100
    } else if n == 3 {
        1_000
    } else if n == 4 {
        10_000
    } else if n == 5 {
        100_000
    } else {
        1_000_000
    }
}

/// The value of an integer token 0-255, if `t` is one.
pub open spec fn u8_of_token(t: Seq<char>) -> Option<u8> {
    if t.len() > 0 && all_digits(t) && digits_val(t) <= 255 {
        Some(digits_val(t) as u8)
    } else {
        None
    }
}

/// Read an integer token 0-255.
pub fn parse_u8(t: &str) -> (r: Option<u8>)
    ensures
        r == u8_of_token(t@),
{
    let n: usize = t.unicode_len();
    if n == 0 {
        return None;
    }
    let mut acc: u32 = 0;
    let mut big: bool = false;
    let mut i: usize = 0;
    while i < n
        invariant
            0 < n == t@.len(),
            i <= n,
            all_digits(t@.take(i as int)),
            big ==> digits_val(t@.take(i as int)) > 255,
            !big ==> acc == digits_val(t@.take(i as int)) && acc <= 255,
        decreases n - i,
    {
        let c: char = t.get_char(i);
        let cu: u32 = c as u32;
        if cu < 48 || cu > 57 {
            assert(!is_digit(t@[i as int]));
            return None;
        }
        let d: u32 = cu - 48;
        proof {
            assert(t@.take(i as int + 1).drop_last() =~= t@.take(i as int));
            assert(t@.take(i as int + 1).last() == t@[i as int]);
            if big {
                lemma_digits_val_nonneg(t@.take(i as int));
            }
        }
        if big || acc * 10 + d > 255 {
            big = true;
            acc = 0;
        } else {
            acc = acc * 10 + d;
        }
        i = i + 1;
    }
    proof {
        assert(t@.take(n as int) =~= t@);
    }
    if big {
        None
    } else {
        Some(acc as u8)
    }
}

/// The sign of a numeric token and the rest of it.
pub open spec fn sign_split(t: Seq<char>) -> (bool, Seq<char>) {
    if t.len() > 0 && t[0] == '-' {
        (true, t.drop_first())
    } else if t.len() > 0 && t[0] == '+' {
        (false, t.drop_first())
    } else {
        (false, t)
    }
}

/// The characters before the first dot of `u`.
pub open spec fn int_part(u: Seq<char>) -> Seq<char>
    decreases u.len(),
{
    if u.len() == 0 {
        Seq::empty()
    } else if u[0] == '.' {
        Seq::empty()
    } else {
        seq![u[0]] + int_part(u.drop_first())
    }
}

/// The characters after the first dot of `u`, if there is a dot.
pub open spec fn frac_part(u: Seq<char>) -> Option<Seq<char>>
    decreases u.len(),
{
    if u.len() == 0 {
        None
    } else if u[0] == '.' {
        Some(u.drop_first())
    } else {
        frac_part(u.drop_first())
    }
}

/// If `u` has no dot before position `k`, and either ends or has a dot
/// there, its integer part is exactly `u.take(k)` and its fractional part
/// is what follows the dot.
proof fn lemma_parts(u: Seq<char>, k: int)
    requires
        0 <= k <= u.len(),
        forall|j: int| 0 <= j < k ==> #[trigger] u[j] != '.',
        k == u.len() || u[k] == '.',
    ensures
        int_part(u) == u.take(k),
        frac_part(u) == if k == u.len() {
            None::<Seq<char>>
        } else {
            Some(u.skip(k + 1))
        },
    decreases u.len(),
{
    if k == 0 {
        if u.len() == 0 {
            assert(u.take(0) =~= Seq::<char>::empty());
        } else {
            assert(u[0] == '.');
            assert(u.take(0) =~= Seq::<char>::empty());
            assert(u.drop_first() =~= u.skip(1));
        }
    } else {
        let v = u.drop_first();
        assert(u[0] != '.');
        assert(forall|j: int| 0 <= j < k - 1 ==> #[trigger] v[j] != '.');
        lemma_parts(v, k - 1);
        assert(seq![u[0]] + v.take(k - 1) =~= u.take(k));
        if k < u.len() {
            assert(v.skip(k) =~= u.skip(k + 1));
        }
    }
}

/// The fixed-point units written by a fractional digit string: the value
/// of its first six digits, scaled to millionths.
pub open spec fn frac_units(f: Seq<char>) -> int {
    if f.len() >= 6 {
        digits_val(f.take(6))
    } else {
        digits_val(f) * pow10_small(6 - f.len())
    }
}

/// Whether the unsigned body `u` is a well-formed decimal numeral: digits
/// around at most one dot, with at least one digit.
pub open spec fn fx_body_valid(u: Seq<char>) -> bool {
    match frac_part(u) {
        None => int_part(u).len() > 0 && all_digits(int_part(u)),
        Some(f) => int_part(u).len() + f.len() > 0 && all_digits(int_part(u)) && all_digits(f),
    }
}

/// The magnitude in fixed-point units written by the unsigned body `u`.
pub open spec fn fx_units_mag(u: Seq<char>) -> int {
    digits_val(int_part(u)) * 1_000_000 + (match frac_part(u) {
        None => 0,
        Some(f) => frac_units(f),
    })
}

/// The fixed-point value of a numeric token, if it is well formed and its
/// magnitude fits an `i64`.
pub open spec fn fx_of_token(t: Seq<char>) -> Option<i64> {
    let (neg, u) = sign_split(t);
    if !fx_body_valid(u) {
        None
    } else if fx_units_mag(u) > i64::MAX {
        None
    } else if neg {
        Some((-fx_units_mag(u)) as i64)
    } else {
        Some(fx_units_mag(u) as i64)
    }
}

/// A dot-free prefix of `u` lies inside its integer part.
proof fn lemma_int_part_covers(u: Seq<char>, p: int)
    requires
        0 <= p < u.len(),
        forall|j: int| 0 <= j <= p ==> #[trigger] u[j] != '.',
    ensures
        int_part(u).len() > p,
        int_part(u)[p] == u[p],
    decreases p,
{
    if p == 0 {
        assert(u[0] != '.');
    } else {
        let v = u.drop_first();
        assert(forall|j: int| 0 <= j <= p - 1 ==> #[trigger] v[j] != '.');
        lemma_int_part_covers(v, p - 1);
    }
}

/// Read a numeric token into fixed point.
pub fn parse_fx(t: &str) -> (r: Option<i64>)
    ensures
        r == fx_of_token(t@),
{
    let n: usize = t.unicode_len();
    let mut i: usize = 0;
    let mut neg: bool = false;
    if n > 0 {
        let c0: char = t.get_char(0);
        if c0 == '-' {
            neg = true;
            i = 1;
        } else if c0 == '+' {
            i = 1;
        }
    }
    let ghost u: Seq<char> = t@.skip(i as int);
    proof {
        assert(t@.drop_first() =~= t@.skip(1));
        assert(t@.skip(0) =~= t@);
        assert(sign_split(t@) == (neg, u));
    }
    let start: usize = i;
    // Integer part: digits until a dot or the end.
    let mut acc: u64 = 0;
    let mut big: bool = false;
    let mut saw_dot: bool = false;
    while i < n && !saw_dot
        invariant
            n == t@.len(),
            start <= i <= n,
            u == t@.skip(start as int),
            sign_split(t@) == (neg, u),
            !saw_dot ==> forall|j: int|
                0 <= j < i - start ==> is_digit(#[trigger] u[j]) && u[j] != '.',
            !saw_dot ==> big == (digits_val(u.take(i - start)) > 9_223_372_036_854),
            !saw_dot && !big ==> acc == digits_val(u.take(i - start)),
            saw_dot ==> i > start && u[i - 1 - start] == '.',
            saw_dot ==> forall|j: int|
                0 <= j < i - 1 - start ==> is_digit(#[trigger] u[j]) && u[j] != '.',
            saw_dot ==> big == (digits_val(u.take(i - 1 - start)) > 9_223_372_036_854),
            saw_dot && !big ==> acc == digits_val(u.take(i - 1 - start)),
            acc <= 9_223_372_036_854u64,
        decreases n - i,
    {
        let c: char = t.get_char(i);
        if c == '.' {
            saw_dot = true;
            i = i + 1;
        } else {
            let cu: u32 = c as u32;
            if cu < 48 || cu > 57 {
                proof {
                    assert(u[i - start] == t@[i as int]);
                    assert(!is_digit(u[i - start]));
                    lemma_int_part_covers(u, i - start);
                }
                return None;
            }
            let d: u64 = (cu - 48) as u64;
            proof {
                assert(u.take(i - start + 1).drop_last() =~= u.take(i - start));
                assert(u.take(i - start + 1).last() == u[i - start]);
                if big {
                    assert(forall|j: int| 0 <= j < i - start ==> is_digit(#[trigger] u.take(
                        i - start,
                    )[j]));
                    lemma_digits_val_nonneg(u.take(i - start));
                }
            }
            if big || acc * 10 + d > 9_223_372_036_854u64 {
                big = true;
                acc = 0;
            } else {
                acc = acc * 10 + d;
            }
            i = i + 1;
        }
    }
    let ghost ip_len: int = if saw_dot {
        i - 1 - start
    } else {
        i - start
    };
    proof {
        lemma_parts(u, ip_len);
        if !saw_dot {
            assert(u.take(ip_len) =~= u);
        }
    }
    // Fractional part: digits until the end; the first six carry value.
    let mut facc: u64 = 0;
    let mut fcount: usize = 0;
    let ghost f: Seq<char> = u.skip(ip_len + 1);
    let fstart: usize = i;
    while i < n
        invariant
            n == t@.len(),
            i < n ==> saw_dot,
            fstart <= i <= n,
            u == t@.skip(start as int),
            sign_split(t@) == (neg, u),
            f == u.skip(ip_len + 1),
            saw_dot ==> start < fstart && ip_len == fstart - 1 - start,
            saw_dot ==> frac_part(u) == Some(f),
            fcount == i - fstart,
            forall|j: int| 0 <= j < i - fstart ==> is_digit(#[trigger] f[j]),
            fcount <= 6 ==> facc == digits_val(f.take(fcount as int)),
            fcount > 6 ==> facc == digits_val(f.take(6)),
            facc <= 999_999,
        decreases n - i,
    {
        let c: char = t.get_char(i);
        let cu: u32 = c as u32;
        if cu < 48 || cu > 57 {
            proof {
                assert(f[i - fstart] == u[i - start]);
                assert(!is_digit(f[i - fstart]));
            }
            return None;
        }
        let d: u64 = (cu - 48) as u64;
        proof {
            assert(f[i - fstart] == u[i - start]);
            if fcount < 6 {
                assert(f.take(fcount as int + 1).drop_last() =~= f.take(fcount as int));
                assert(f.take(fcount as int + 1).last() == f[fcount as int]);
                assert(forall|j: int| 0 <= j < fcount ==> is_digit(#[trigger] f.take(
                    fcount as int,
                )[j]));
                lemma_digits_val_small(f.take(fcount as int), pow10_small(fcount as int));
            }
        }
        if fcount < 6 {
            facc = facc * 10 + d;
        }
        fcount = fcount + 1;
        i = i + 1;
    }
    // Assemble the value.
    proof {
        if saw_dot {
            assert(f.take(f.len() as int) =~= f);
            assert(frac_part(u) == Some(f));
        } else {
            assert(frac_part(u) == None::<Seq<char>>);
        }
        assert(int_part(u) == u.take(ip_len));
    }
    if !saw_dot && i == start {
        // No digits at all.
        return None;
    }
    if saw_dot && fstart == start + 1 && fcount == 0 {
        // A lone dot with no digits on either side.
        return None;
    }
    let frac: u64 = if fcount >= 6 {
        facc
    } else if fcount == 0 {
        0
    } else if fcount == 1 {
        facc * 100_000
    } else if fcount == 2 {
        facc * 10_000
    } else if fcount == 3 {
        facc * 1_000
    } else if fcount == 4 {
        facc * 100
    } else if fcount == 5 {
        facc * 10
    } else {
        facc
    };
    proof {
        if saw_dot {
            if fcount < 6 {
                assert(f.take(fcount as int) =~= f);
                lemma_digits_val_small(f, pow10_small(f.len() as int));
            }
            assert(frac == frac_units(f));
        }
        if big {
            lemma_digits_val_nonneg(u.take(ip_len));
        }
    }
    if big {
        return None;
    }
    let mag: u64 = acc * 1_000_000 + frac;
    proof {
        assert(mag == fx_units_mag(u));
    }
    if mag > 9_223_372_036_854_775_807u64 {
        return None;
    }
    if neg {
        Some(-(mag as i64))
    } else {
        Some(mag as i64)
    }
}

/// The value of a boolean token, if `t` is one.
pub open spec fn bool_of_token(t: Seq<char>) -> Option<bool> {
    if t == "true"@ {
        Some(true)
    } else if t == "false"@ {
        Some(false)
    } else {
        None
    }
}

/// Whether two string slices hold the same characters.
fn str_eq_str(a: &str, b: &str) -> (r: bool)
    ensures
        r == (a@ == b@),
{
    let na: usize = a.unicode_len();
    let nb: usize = b.unicode_len();
    if na != nb {
        return false;
    }
    let mut i: usize = 0;
    while i < na
        invariant
            na == a@.len(),
            na == nb == b@.len(),
            i <= na,
            forall|j: int| 0 <= j < i ==> a@[j] == b@[j],
        decreases na - i,
    {
        if a.get_char(i) != b.get_char(i) {
            return false;
        }
        i = i + 1;
    }
    proof {
        assert(a@ =~= b@);
    }
    true
}

/// Read a boolean token.
pub fn parse_bool(t: &str) -> (r: Option<bool>)
    ensures
        r == bool_of_token(t@),
{
    if str_eq_str(t, "true") {
        Some(true)
    } else if str_eq_str(t, "false") {
        Some(false)
    } else {
        None
    }
}

/// The token separators: ASCII whitespace.
pub open spec fn is_space(c: char) -> bool {
    c == ' ' || c == '\t' || c == '\r' || c == '\n'
}

/// One step of tokenization: `cur` is the token being read and `acc` the
/// tokens already read.
pub open spec fn toks_rec(s: Seq<char>, cur: Seq<char>, acc: Seq<Seq<char>>) -> Seq<Seq<char>>
    decreases s.len(),
{
    if s.len() == 0 {
        if cur.len() > 0 {
            acc.push(cur)
        } else {
            acc
        }
    } else if is_space(s[0]) {
        toks_rec(
            s.drop_first(),
            Seq::empty(),
            if cur.len() > 0 {
                acc.push(cur)
            } else {
                acc
            },
        )
    } else {
        toks_rec(s.drop_first(), cur.push(s[0]), acc)
    }
}

/// The whitespace-separated tokens of `s`, in order.
pub open spec fn tokens(s: Seq<char>) -> Seq<Seq<char>> {
    toks_rec(s, Seq::empty(), Seq::empty())
}

/// Split a line into its whitespace-separated tokens.
pub fn tokenize(s: &str) -> (toks: Vec<String>)
    ensures
        toks.deep_view() == tokens(s@),
{
    let n: usize = s.unicode_len();
    let mut acc: Vec<String> = Vec::new();
    let mut start: usize = 0;
    let mut in_tok: bool = false;
    let mut i: usize = 0;
    proof {
        assert(s@.skip(0) =~= s@);
        assert(acc.deep_view() =~= Seq::<Seq<char>>::empty());
    }
    while i < n
        invariant
            n == s@.len(),
            i <= n,
            in_tok ==> start < i,
            !in_tok ==> toks_rec(s@.skip(i as int), Seq::empty(), acc.deep_view()) == tokens(s@),
            in_tok ==> toks_rec(
                s@.skip(i as int),
                s@.subrange(start as int, i as int),
                acc.deep_view(),
            ) == tokens(s@),
        decreases n - i,
    {
        let c: char = s.get_char(i);
        let cu: u32 = c as u32;
        let ws: bool = cu == 32 || cu == 9 || cu == 13 || cu == 10;
        proof {
            assert(is_space(s@[i as int]) == ws);
            assert(s@.skip(i as int)[0] == s@[i as int]);
            assert(s@.skip(i as int).drop_first() =~= s@.skip(i as int + 1));
        }
        if ws {
            if in_tok {
                let tok: String = s.substring_char(start, i).to_owned();
                let ghost prev = acc.deep_view();
                acc.push(tok);
                proof {
                    assert(acc.deep_view() =~= prev.push(s@.subrange(start as int, i as int)));
                }
                in_tok = false;
            }
        } else {
            if !in_tok {
                start = i;
                in_tok = true;
                proof {
                    assert(s@.subrange(start as int, i as int + 1) =~= Seq::empty().push(
                        s@[i as int],
                    ));
                }
            } else {
                proof {
                    assert(s@.subrange(start as int, i as int + 1) =~= s@.subrange(
                        start as int,
                        i as int,
                    ).push(s@[i as int]));
                }
            }
        }
        i = i + 1;
    }
    proof {
        assert(s@.skip(n as int) =~= Seq::<char>::empty());
    }
    if in_tok {
        let tok: String = s.substring_char(start, n).to_owned();
        let ghost prev = acc.deep_view();
        proof {
            assert(toks_rec(Seq::empty(), s@.subrange(start as int, n as int), prev) == prev.push(
                s@.subrange(start as int, n as int),
            ));
        }
        acc.push(tok);
        proof {
            assert(acc.deep_view() =~= prev.push(s@.subrange(start as int, n as int)));
        }
    }
    acc
}

/// What a token list parses to: the first token picks the command, the
/// following tokens are its operands, and extra tokens are ignored.
pub open spec fn parse_tokens_spec(t: Seq<Seq<char>>) -> Result<DrawCall, ParseErrorModel> {
    if t.len() == 0 {
        Err(ParseErrorModel::UnknownCommand(Seq::empty()))
    } else if t[0] == "home"@ {
        Ok(DrawCall::Home)
    } else if t[0] == "move"@ || t[0] == "scale"@ {
        if t.len() < 3 {
            Err(ParseErrorModel::MissingOperand(t[0], t.len() as int))
        } else {
            match fx_of_token(t[1]) {
                None => Err(ParseErrorModel::InvalidOperand(t[0], 1, t[1])),
                Some(x) => match fx_of_token(t[2]) {
                    None => Err(ParseErrorModel::InvalidOperand(t[0], 2, t[2])),
                    Some(y) => Ok(
                        if t[0] == "move"@ {
                            DrawCall::Move(x, y)
                        } else {
                            DrawCall::Scale(x, y)
                        },
                    ),
                },
            }
        }
    } else if t[0] == "rotate"@ {
        if t.len() < 2 {
            Err(ParseErrorModel::MissingOperand(t[0], 1))
        } else {
            match fx_of_token(t[1]) {
                None => Err(ParseErrorModel::InvalidOperand(t[0], 1, t[1])),
                Some(x) => Ok(DrawCall::Rotate(x)),
            }
        }
    } else if t[0] == "color"@ {
        if t.len() < 4 {
            Err(ParseErrorModel::MissingOperand(t[0], t.len() as int))
        } else {
            match u8_of_token(t[1]) {
                None => Err(ParseErrorModel::InvalidOperand(t[0], 1, t[1])),
                Some(r) => match u8_of_token(t[2]) {
                    None => Err(ParseErrorModel::InvalidOperand(t[0], 2, t[2])),
                    Some(g) => match u8_of_token(t[3]) {
                        None => Err(ParseErrorModel::InvalidOperand(t[0], 3, t[3])),
                        Some(b) => Ok(DrawCall::Color(r, g, b)),
                    },
                },
            }
        }
    } else if t[0] == "power"@ {
        if t.len() < 2 {
            Err(ParseErrorModel::MissingOperand(t[0], 1))
        } else {
            match u8_of_token(t[1]) {
                None => Err(ParseErrorModel::InvalidOperand(t[0], 1, t[1])),
                Some(p) => Ok(DrawCall::Power(p)),
            }
        }
    } else if t[0] == "toggle"@ {
        if t.len() < 2 {
            Err(ParseErrorModel::MissingOperand(t[0], 1))
        } else {
            match bool_of_token(t[1]) {
                None => Err(ParseErrorModel::InvalidOperand(t[0], 1, t[1])),
                Some(on) => Ok(DrawCall::Toggle(on)),
            }
        }
    } else {
        Err(ParseErrorModel::UnknownCommand(t[0]))
    }
}

/// What one line parses to.
pub open spec fn parse_line_spec(s: Seq<char>) -> Result<DrawCall, ParseErrorModel> {
    parse_tokens_spec(tokens(s))
}

/// Parse a token list into a command.
pub fn parse_tokens(toks: &Vec<String>) -> (r: Result<DrawCall, ParseError>)
    ensures
        match parse_tokens_spec(toks.deep_view()) {
            Ok(c) => r matches Ok(rc) && rc == c,
            Err(e) => r matches Err(re) && re@ == e,
        },
{
    proof {
        assert(forall|k: int|
            0 <= k < toks@.len() ==> toks.deep_view()[k] == #[trigger] toks@[k]@);
    }
    if toks.len() == 0 {
        return Err(ParseError::UnknownCommand(String::new()));
    }
    let kw: &String = &toks[0];
    if str_eq_str(kw.as_str(), "home") {
        Ok(DrawCall::Home)
    } else if str_eq_str(kw.as_str(), "move") || str_eq_str(kw.as_str(), "scale") {
        if toks.len() < 3 {
            return Err(ParseError::MissingOperand(kw.clone(), toks.len()));
        }
        match parse_fx(toks[1].as_str()) {
            None => Err(ParseError::InvalidOperand(kw.clone(), 1, toks[1].clone())),
            Some(x) => match parse_fx(toks[2].as_str()) {
                None => Err(ParseError::InvalidOperand(kw.clone(), 2, toks[2].clone())),
                Some(y) => {
                    if str_eq_str(kw.as_str(), "move") {
                        Ok(DrawCall::Move(x, y))
                    } else {
                        Ok(DrawCall::Scale(x, y))
                    }
                },
            },
        }
    } else if str_eq_str(kw.as_str(), "rotate") {
        if toks.len() < 2 {
            return Err(ParseError::MissingOperand(kw.clone(), 1));
        }
        match parse_fx(toks[1].as_str()) {
            None => Err(ParseError::InvalidOperand(kw.clone(), 1, toks[1].clone())),
            Some(x) => Ok(DrawCall::Rotate(x)),
        }
    } else if str_eq_str(kw.as_str(), "color") {
        if toks.len() < 4 {
            return Err(ParseError::MissingOperand(kw.clone(), toks.len()));
        }
        match parse_u8(toks[1].as_str()) {
            None => Err(ParseError::InvalidOperand(kw.clone(), 1, toks[1].clone())),
            Some(r) => match parse_u8(toks[2].as_str()) {
                None => Err(ParseError::InvalidOperand(kw.clone(), 2, toks[2].clone())),
                Some(g) => match parse_u8(toks[3].as_str()) {
                    None => Err(ParseError::InvalidOperand(kw.clone(), 3, toks[3].clone())),
                    Some(b) => Ok(DrawCall::Color(r, g, b)),
                },
            },
        }
    } else if str_eq_str(kw.as_str(), "power") {
        if toks.len() < 2 {
            return Err(ParseError::MissingOperand(kw.clone(), 1));
        }
        match parse_u8(toks[1].as_str()) {
            None => Err(ParseError::InvalidOperand(kw.clone(), 1, toks[1].clone())),
            Some(p) => Ok(DrawCall::Power(p)),
        }
    } else if str_eq_str(kw.as_str(), "toggle") {
        if toks.len() < 2 {
            return Err(ParseError::MissingOperand(kw.clone(), 1));
        }
        match parse_bool(toks[1].as_str()) {
            None => Err(ParseError::InvalidOperand(kw.clone(), 1, toks[1].clone())),
            Some(on) => Ok(DrawCall::Toggle(on)),
        }
    } else {
        Err(ParseError::UnknownCommand(kw.clone()))
    }
}

impl DrawCall {
    /// Parse one command line: whitespace-separated tokens, the first of
    /// which is the keyword. Never panics; a bad line comes back as a
    /// typed [`ParseError`].
    pub fn try_from(s: &str) -> (r: Result<DrawCall, ParseError>)
        ensures
            match parse_line_spec(s@) {
                Ok(c) => r matches Ok(rc) && rc == c,
                Err(e) => r matches Err(re) && re@ == e,
            },
    {
        let toks = tokenize(s);
        parse_tokens(&toks)
    }
}

} // verus!
