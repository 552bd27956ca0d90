//! Saturating fixed-point scalars: an `i64` counts millionths of a unit.

use vstd::prelude::*;

verus! {

/// Number of fixed-point units in `1.0`.
pub const SCALE: i64 = 1_000_000;

/// A 2D vector in fixed-point coordinates.
#[derive(Clone, Copy, PartialEq, Eq, Structural, Debug)]
pub struct Vec2 {
    pub x: i64,
    pub y: i64,
}

/// Clamp a mathematical integer into the `i64` range.
pub open spec fn sat64(v: int) -> int {
    if v > i64::MAX {
        i64::MAX as int
    } else if v < i64::MIN {
        i64::MIN as int
    } else {
        v
    }
}

/// Quotient by a positive divisor, rounded toward zero.
pub open spec fn div_tz(n: int, d: int) -> int
    recommends
        d > 0,
{
    if n >= 0 {
        n / d
    } else {
        -((-n) / d)
    }
}

/// Fixed-point product of `a` and `b`, rounded toward zero and
/// saturating at the `i64` range.
pub open spec fn fx_mul(a: int, b: int) -> int {
    sat64(div_tz(a * b, SCALE as int))
}

/// Fixed-point sum of `a` and `b`, saturating at the `i64` range.
pub open spec fn fx_add(a: int, b: int) -> int {
    sat64(a + b)
}

/// Fixed-point difference of `a` and `b`, saturating at the `i64` range.
pub open spec fn fx_sub(a: int, b: int) -> int {
    sat64(a - b)
}

/// Magnitude of `a` as a `u128`.
fn abs_u128(a: i64) -> (r: u128)
    ensures
        r == if a >= 0 { a as int } else { -(a as int) },
{
    if a >= 0 {
        a as u128
    } else {
        let w: i128 = a as i128;
        (-w) as u128
    }
}

/// Reattach a sign to a magnitude and clamp into the `i64` range.
fn clamp_signed(q: u128, neg: bool) -> (r: i64)
    ensures
        r as int == sat64(if neg { -(q as int) } else { q as int }),
{
    if neg {
        if q >= 9_223_372_036_854_775_808u128 {
            i64::MIN
        } else {
            -(q as i64)
        }
    } else {
        if q > 9_223_372_036_854_775_807u128 {
            i64::MAX
        } else {
            q as i64
        }
    }
}

/// Saturating fixed-point multiplication.
pub fn mul_fx(a: i64, b: i64) -> (r: i64)
    ensures
        r as int == fx_mul(a as int, b as int),
{
    let neg: bool = (a < 0) != (b < 0);
    let aa: u128 = abs_u128(a);
    let ab: u128 = abs_u128(b);
    proof {
        lemma_abs_mul(a as int, b as int);
        assert(aa * ab <= 0x8000_0000_0000_0000u128 * 0x8000_0000_0000_0000u128) by (nonlinear_arith)
            requires
                aa <= 0x8000_0000_0000_0000u128,
                ab <= 0x8000_0000_0000_0000u128,
        ;
    }
    let p: u128 = aa * ab;
    let q: u128 = p / 1_000_000u128;
    proof {
        if neg {
            assert(a as int * b as int == -(p as int));
            assert(div_tz(a as int * b as int, SCALE as int) == -(q as int));
        } else {
            assert(a as int * b as int == p as int);
            assert(div_tz(a as int * b as int, SCALE as int) == q as int);
        }
    }
    clamp_signed(q, neg)
}

/// The magnitude of a product is the product of the magnitudes, and the
/// product is negative exactly when the signs differ.
proof fn lemma_abs_mul(a: int, b: int)
    ensures
        (if (a < 0) != (b < 0) {
            a * b == -((if a >= 0 { a } else { -a }) * (if b >= 0 { b } else { -b }))
        } else {
            a * b == (if a >= 0 { a } else { -a }) * (if b >= 0 { b } else { -b })
        }),
{
    assert((if (a < 0) != (b < 0) {
        a * b == -((if a >= 0 { a } else { -a }) * (if b >= 0 { b } else { -b }))
    } else {
        a * b == (if a >= 0 { a } else { -a }) * (if b >= 0 { b } else { -b })
    })) by (nonlinear_arith);
}

/// Saturating fixed-point addition.
pub fn add_fx(a: i64, b: i64) -> (r: i64)
    ensures
        r as int == fx_add(a as int, b as int),
{
    let s: i128 = a as i128 + b as i128;
    if s > 9_223_372_036_854_775_807i128 {
        i64::MAX
    } else if s < -9_223_372_036_854_775_808i128 {
        i64::MIN
    } else {
        s as i64
    }
}

/// Saturating fixed-point subtraction.
pub fn sub_fx(a: i64, b: i64) -> (r: i64)
    ensures
        r as int == fx_sub(a as int, b as int),
{
    let s: i128 = a as i128 - b as i128;
    if s > 9_223_372_036_854_775_807i128 {
        i64::MAX
    } else if s < -9_223_372_036_854_775_808i128 {
        i64::MIN
    } else {
        s as i64
    }
}

/// Multiplying by a whole number of units is exact: the fixed-point
/// product of `a` and `k` units is `k * a`, saturated.
pub proof fn lemma_fx_mul_units(a: i64, k: i64)
    requires
        -1_000 <= k <= 1_000,
    ensures
        fx_mul(a as int, k as int * SCALE as int) == sat64(k as int * a as int),
{
    let s = SCALE as int;
    let ka = k as int * a as int;
    assert(a as int * (k as int * s) == (k as int * a as int) * s) by (nonlinear_arith);
    if ka >= 0 {
        vstd::arithmetic::div_mod::lemma_div_by_multiple(ka, s);
    } else {
        vstd::arithmetic::div_mod::lemma_div_by_multiple(-ka, s);
        assert(-((k as int * a as int) * s) == (-(k as int * a as int)) * s) by (nonlinear_arith);
    }
}

} // verus!
