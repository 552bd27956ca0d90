//! Fixed-point sine and cosine over angles counted in micro-degrees.
//!
//! An angle is reduced into `[0, 360)` degrees, split into a quadrant and
//! a remainder below ninety degrees, and the remainder's sine and cosine
//! are taken from a truncated Taylor series in fixed-point radians. At
//! exact multiples of ninety degrees the results are exact, so a quarter
//! turn maps the basis vectors precisely onto one another.

use vstd::arithmetic::div_mod::lemma_div_is_ordered;
use vstd::arithmetic::div_mod::lemma_fundamental_div_mod;
use vstd::arithmetic::div_mod::lemma_fundamental_div_mod_converse;
use vstd::arithmetic::div_mod::lemma_mod_multiples_basic;
use vstd::arithmetic::mul::lemma_mul_upper_bound;
use vstd::prelude::*;

use crate::fixed::SCALE;

verus! {

/// Micro-degrees in a full turn.
pub const DEG_FULL: i64 = 360_000_000;

/// Micro-degrees in a quarter turn.
pub const DEG_QUARTER: i64 = 90_000_000;

/// Micro-degrees in a half turn; also the divisor that turns
/// `micro-degrees * PI_FX` into fixed-point radians.
pub const DEG_HALF: i64 = 180_000_000;

/// Pi in fixed point, rounded to the nearest millionth.
pub const PI_FX: i64 = 3_141_593;

/// An angle reduced into `[0, DEG_FULL)` micro-degrees.
pub open spec fn norm_deg(d: int) -> int {
    d % (DEG_FULL as int)
}

/// Fixed-point radians of a remainder angle in `[0, DEG_QUARTER]`.
pub open spec fn rad_of(r: int) -> int {
    (r * PI_FX) / (DEG_HALF as int)
}

/// Truncated Taylor series for sine at a fixed-point radian `x` in
/// `[0, pi/2]`; every division rounds toward zero.
pub open spec fn taylor_sin(x: int) -> int {
    let s = SCALE as int;
    let x2 = (x * x) / s;
    let x3 = (x2 * x) / s;
    let x5 = (x3 * x2) / s;
    let x7 = (x5 * x2) / s;
    x - x3 / 6 + x5 / 120 - x7 / 5040
}

/// Truncated Taylor series for cosine at a fixed-point radian `x` in
/// `[0, pi/2]`.
pub open spec fn taylor_cos(x: int) -> int {
    let s = SCALE as int;
    let x2 = (x * x) / s;
    let x4 = (x2 * x2) / s;
    let x6 = (x4 * x2) / s;
    s - x2 / 2 + x4 / 24 - x6 / 720
}

/// Fixed-point sine of an angle in micro-degrees.
pub open spec fn sin_ud(d: int) -> int {
    let r = norm_deg(d);
    let q = r / (DEG_QUARTER as int);
    let s = taylor_sin(rad_of(r % (DEG_QUARTER as int)));
    let c = taylor_cos(rad_of(r % (DEG_QUARTER as int)));
    if q == 0 {
        s
    } else if q == 1 {
        c
    } else if q == 2 {
        -s
    } else {
        -c
    }
}

/// Fixed-point cosine of an angle in micro-degrees.
pub open spec fn cos_ud(d: int) -> int {
    let r = norm_deg(d);
    let q = r / (DEG_QUARTER as int);
    let s = taylor_sin(rad_of(r % (DEG_QUARTER as int)));
    let c = taylor_cos(rad_of(r % (DEG_QUARTER as int)));
    if q == 0 {
        c
    } else if q == 1 {
        -s
    } else if q == 2 {
        -c
    } else {
        s
    }
}

/// Reduce an angle in micro-degrees into `[0, DEG_FULL)`.
fn norm_deg_exec(d: i64) -> (r: i64)
    ensures
        r as int == norm_deg(d as int),
        0 <= r < DEG_FULL,
{
    if d >= 0 {
        let m: u64 = (d as u64) % 360_000_000u64;
        m as i64
    } else {
        let w: i128 = d as i128;
        let n: u64 = ((-w) as u128) as u64;
        let m: u64 = n % 360_000_000u64;
        proof {
            let md = DEG_FULL as int;
            lemma_fundamental_div_mod(n as int, md);
            if m == 0 {
                assert(d as int == (-((n as int) / md)) * md) by (nonlinear_arith)
                    requires
                        d as int == -(n as int),
                        n as int == md * ((n as int) / md) + 0,
                ;
                lemma_mod_multiples_basic(-((n as int) / md), md);
            } else {
                assert(d as int == (-((n as int) / md) - 1) * md + (md - m as int))
                    by (nonlinear_arith)
                    requires
                        d as int == -(n as int),
                        n as int == md * ((n as int) / md) + m as int,
                ;
                lemma_fundamental_div_mod_converse(
                    d as int,
                    md,
                    -((n as int) / md) - 1,
                    md - m as int,
                );
            }
        }
        if m == 0 {
            0
        } else {
            360_000_000i64 - m as i64
        }
    }
}

/// Fixed-point sine and cosine of an angle in micro-degrees.
pub fn sincos_ud(d: i64) -> (r: (i64, i64))
    ensures
        r.0 as int == sin_ud(d as int),
        r.1 as int == cos_ud(d as int),
{
    let n = norm_deg_exec(d);
    let nu: u64 = n as u64;
    let q: u64 = nu / 90_000_000u64;
    let rem: u64 = nu % 90_000_000u64;
    proof {
        lemma_mul_upper_bound(rem as int, 89_999_999, PI_FX as int, 3_141_593);
        lemma_div_is_ordered(
            rem as int * PI_FX as int,
            89_999_999int * 3_141_593,
            DEG_HALF as int,
        );
    }
    let x: u64 = (rem * 3_141_593u64) / 180_000_000u64;
    proof {
        lemma_mul_upper_bound(x as int, 1_570_796, x as int, 1_570_796);
        lemma_div_is_ordered(x as int * x as int, 1_570_796int * 1_570_796, SCALE as int);
    }
    let x2: u64 = (x * x) / 1_000_000u64;
    proof {
        lemma_mul_upper_bound(x2 as int, 2_467_400, x as int, 1_570_796);
        lemma_div_is_ordered(x2 as int * x as int, 2_467_400int * 1_570_796, SCALE as int);
    }
    let x3: u64 = (x2 * x) / 1_000_000u64;
    proof {
        lemma_mul_upper_bound(x3 as int, 3_875_792, x2 as int, 2_467_400);
        lemma_div_is_ordered(x3 as int * x2 as int, 3_875_792int * 2_467_400, SCALE as int);
    }
    let x5: u64 = (x3 * x2) / 1_000_000u64;
    proof {
        lemma_mul_upper_bound(x5 as int, 9_563_129, x2 as int, 2_467_400);
        lemma_div_is_ordered(x5 as int * x2 as int, 9_563_129int * 2_467_400, SCALE as int);
    }
    let x7: u64 = (x5 * x2) / 1_000_000u64;
    proof {
        lemma_mul_upper_bound(x2 as int, 2_467_400, x2 as int, 2_467_400);
        lemma_div_is_ordered(x2 as int * x2 as int, 2_467_400int * 2_467_400, SCALE as int);
    }
    let x4: u64 = (x2 * x2) / 1_000_000u64;
    proof {
        lemma_mul_upper_bound(x4 as int, 6_088_063, x2 as int, 2_467_400);
        lemma_div_is_ordered(x4 as int * x2 as int, 6_088_063int * 2_467_400, SCALE as int);
    }
    let x6: u64 = (x4 * x2) / 1_000_000u64;
    proof {
        lemma_div_is_ordered(x3 as int, 3_875_792, 6);
        lemma_div_is_ordered(x5 as int, 9_563_129, 120);
        lemma_div_is_ordered(x7 as int, 23_596_229, 5040);
        lemma_div_is_ordered(x2 as int, 2_467_400, 2);
        lemma_div_is_ordered(x4 as int, 6_088_063, 24);
        lemma_div_is_ordered(x6 as int, 15_021_702, 720);
    }
    let s_base: i64 = x as i64 - (x3 / 6u64) as i64 + (x5 / 120u64) as i64 - (x7 / 5040u64) as i64;
    let c_base: i64 = 1_000_000i64 - (x2 / 2u64) as i64 + (x4 / 24u64) as i64 - (x6 / 720u64) as i64;
    if q == 0 {
        (s_base, c_base)
    } else if q == 1 {
        (c_base, -s_base)
    } else if q == 2 {
        (-s_base, -c_base)
    } else {
        (-c_base, s_base)
    }
}

} // verus!
