//! Deterministic combination of several named command sources.
//!
//! Each source contributes the raw lines of one frame under a name. The
//! cross-source order is not left to chance: sources are ordered
//! lexicographically by name before their plans are concatenated, so
//! the frame plan is a function of the sources alone.

use vstd::prelude::*;

use crate::command::DrawCall;
use crate::plan::flatten_plans;
use crate::plan::plan_of_lines;
use crate::plan::plans_view;
use crate::plan::DrawPlan;

verus! {

/// Lexicographic order on character sequences, by character code; the
/// empty sequence comes first.
pub open spec fn lex_le(a: Seq<char>, b: Seq<char>) -> bool
    decreases a.len(),
{
    if a.len() == 0 {
        true
    } else if b.len() == 0 {
        false
    } else if (a[0] as u32) < (b[0] as u32) {
        true
    } else if (a[0] as u32) > (b[0] as u32) {
        false
    } else {
        lex_le(a.drop_first(), b.drop_first())
    }
}

/// Whether `a` comes no later than `b` lexicographically.
pub fn str_lex_le(a: &str, b: &str) -> (r: bool)
    ensures
        r == lex_le(a@, b@),
{
    let na: usize = a.unicode_len();
    let nb: usize = b.unicode_len();
    let mut i: usize = 0;
    proof {
        assert(a@.skip(0) =~= a@);
        assert(b@.skip(0) =~= b@);
    }
    while i < na && i < nb
        invariant
            na == a@.len(),
            nb == b@.len(),
            i <= na,
            i <= nb,
            lex_le(a@, b@) == lex_le(a@.skip(i as int), b@.skip(i as int)),
        decreases na - i,
    {
        let ca: u32 = a.get_char(i) as u32;
        let cb: u32 = b.get_char(i) as u32;
        proof {
            assert(a@.skip(i as int)[0] == a@[i as int]);
            assert(b@.skip(i as int)[0] == b@[i as int]);
            assert(a@.skip(i as int).drop_first() =~= a@.skip(i as int + 1));
            assert(b@.skip(i as int).drop_first() =~= b@.skip(i as int + 1));
        }
        if ca < cb {
            return true;
        }
        if ca > cb {
            return false;
        }
        i = i + 1;
    }
    i >= na
}

/// Insert one named source into a list already ordered by name: it goes
/// before the first entry whose name is no earlier than its own.
pub open spec fn insert_src(
    x: (String, Vec<String>),
    s: Seq<(String, Vec<String>)>,
) -> Seq<(String, Vec<String>)>
    decreases s.len(),
{
    if s.len() == 0 {
        seq![x]
    } else if lex_le(x.0@, s[0].0@) {
        seq![x] + s
    } else {
        seq![s[0]] + insert_src(x, s.drop_first())
    }
}

/// Order a list of named sources by name: insertion sort, which keeps
/// the earlier of two entries with equal names first.
pub open spec fn sort_srcs(s: Seq<(String, Vec<String>)>) -> Seq<(String, Vec<String>)>
    decreases s.len(),
{
    if s.len() == 0 {
        Seq::empty()
    } else {
        insert_src(s[0], sort_srcs(s.drop_first()))
    }
}

/// Inserting lands exactly at the first position whose entry's name is
/// no earlier than the inserted one's.
proof fn lemma_insert_at(x: (String, Vec<String>), s: Seq<(String, Vec<String>)>, p: int)
    requires
        0 <= p <= s.len(),
        forall|j: int| 0 <= j < p ==> !lex_le(x.0@, (#[trigger] s[j]).0@),
        p == s.len() || lex_le(x.0@, s[p].0@),
    ensures
        insert_src(x, s) == s.take(p) + seq![x] + s.skip(p),
    decreases p,
{
    if p == 0 {
        if s.len() == 0 {
            assert(s.take(0) + seq![x] + s.skip(0) =~= seq![x]);
        } else {
            assert(s.take(0) + seq![x] + s.skip(0) =~= seq![x] + s);
        }
    } else {
        let t = s.drop_first();
        assert(!lex_le(x.0@, s[0].0@));
        assert(forall|j: int| 0 <= j < p - 1 ==> t[j] == s[j + 1] && !lex_le(
            x.0@,
            (#[trigger] t[j]).0@,
        ));
        lemma_insert_at(x, t, p - 1);
        assert(seq![s[0]] + (t.take(p - 1) + seq![x] + t.skip(p - 1)) =~= s.take(p) + seq![x]
            + s.skip(p));
    }
}

/// Insert one source into a vector already ordered by name.
fn insert_sorted(
    x: (String, Vec<String>),
    v: Vec<(String, Vec<String>)>,
) -> (r: Vec<(String, Vec<String>)>)
    ensures
        r@ == insert_src(x, v@),
{
    let mut v = v;
    let n: usize = v.len();
    let mut p: usize = 0;
    let mut found: bool = false;
    while p < n && !found
        invariant
            n == v@.len(),
            p <= n,
            forall|j: int| 0 <= j < p ==> !lex_le(x.0@, (#[trigger] v@[j]).0@),
            found ==> p < n && lex_le(x.0@, v@[p as int].0@),
        decreases n - p + (if found { 0int } else { 1int }),
    {
        if str_lex_le(x.0.as_str(), v[p].0.as_str()) {
            found = true;
        } else {
            p = p + 1;
        }
    }
    proof {
        lemma_insert_at(x, v@, p as int);
    }
    let ghost before = v@;
    v.insert(p, x);
    proof {
        assert(before.insert(p as int, x) =~= before.take(p as int) + seq![x] + before.skip(
            p as int,
        ));
    }
    v
}

/// Order the sources of one frame by name.
pub fn sort_sources(v: Vec<(String, Vec<String>)>) -> (r: Vec<(String, Vec<String>)>)
    ensures
        r@ == sort_srcs(v@),
{
    let ghost orig = v@;
    let mut rest = v;
    let mut out: Vec<(String, Vec<String>)> = Vec::new();
    proof {
        assert(rest@ =~= orig.take(rest@.len() as int));
        assert(orig.skip(rest@.len() as int) =~= Seq::<(String, Vec<String>)>::empty());
    }
    while rest.len() > 0
        invariant
            rest@.len() <= orig.len(),
            rest@ == orig.take(rest@.len() as int),
            out@ == sort_srcs(orig.skip(rest@.len() as int)),
        decreases rest.len(),
    {
        let ghost k = rest@.len() - 1;
        let x = rest.pop().unwrap();
        proof {
            assert(x == orig[k]);
            assert(rest@ =~= orig.take(k));
            assert(orig.skip(k)[0] == orig[k]);
            assert(orig.skip(k).drop_first() =~= orig.skip(k + 1));
        }
        out = insert_sorted(x, out);
    }
    proof {
        assert(orig.skip(0) =~= orig);
    }
    out
}

/// The per-source plans of a list of sources, in list order.
pub open spec fn source_plans(s: Seq<(String, Vec<String>)>) -> Seq<Seq<DrawCall>> {
    s.map_values(|p: (String, Vec<String>)| plan_of_lines(p.1.deep_view()))
}

impl DrawPlan {
    /// Build one frame's plan from its named sources: order the sources
    /// by name, parse each source's lines, and concatenate the
    /// surviving commands. For distinctly named sources the result does
    /// not depend on the order they are handed over in; sources that
    /// share a name keep their relative order.
    pub fn frame_plan(sources: Vec<(String, Vec<String>)>) -> (r: DrawPlan)
        ensures
            r@ == flatten_plans(source_plans(sort_srcs(sources@))),
    {
        let sorted = sort_sources(sources);
        let ghost all = sorted@;
        let mut rest = sorted;
        let mut plans: Vec<DrawPlan> = Vec::new();
        proof {
            assert(plans_view(plans@) =~= Seq::<Seq<DrawCall>>::empty());
            assert(Seq::<Seq<DrawCall>>::empty() + source_plans(rest@) =~= source_plans(rest@));
        }
        while rest.len() > 0
            invariant
                source_plans(all) == plans_view(plans@) + source_plans(rest@),
            decreases rest.len(),
        {
            let ghost before = rest@;
            let pair = rest.remove(0);
            proof {
                assert(source_plans(before)[0] == plan_of_lines(pair.1.deep_view()));
                assert(source_plans(before).drop_first() =~= source_plans(rest@));
            }
            let p = DrawPlan::from(pair.1);
            let ghost pv = plans_view(plans@);
            plans.push(p);
            proof {
                assert(plans_view(plans@) =~= pv.push(p@));
                assert((pv.push(p@)) + source_plans(rest@) =~= pv + (seq![p@] + source_plans(
                    rest@,
                )));
                assert(seq![p@] + source_plans(rest@) =~= source_plans(before));
            }
        }
        proof {
            assert(source_plans(rest@) =~= Seq::<Seq<DrawCall>>::empty());
            assert(plans_view(plans@) + Seq::<Seq<DrawCall>>::empty() =~= plans_view(plans@));
        }
        DrawPlan::concat_all(plans)
    }
}

} // verus!
