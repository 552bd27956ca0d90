//! The pen state machine and its executor.
//!
//! Executing a command advances the pen state by exactly one transition
//! and may issue line-draw side effects; executing a plan folds its
//! commands over the state in order. Side effects are returned as
//! [`Line`] records, in draw order, for the caller to hand to a
//! rendering backend.

use vstd::prelude::*;

use crate::command::DrawCall;
use crate::fixed::add_fx;
use crate::fixed::fx_add;
use crate::fixed::fx_mul;
use crate::fixed::fx_sub;
use crate::fixed::mul_fx;
use crate::fixed::sub_fx;
use crate::fixed::Vec2;
use crate::fixed::SCALE;
use crate::trig::cos_ud;
use crate::trig::sin_ud;
use crate::trig::sincos_ud;

verus! {

/// A color: three channels, 0-255 each.
#[derive(Clone, Copy, PartialEq, Eq, Structural, Debug)]
pub struct Rgb {
    pub r: u8,
    pub g: u8,
    pub b: u8,
}

/// One line-draw side effect for the rendering backend: endpoints in
/// fixed-point world coordinates, stroked one unit wide in `color` with
/// opacity `power`.
#[derive(Clone, Copy, PartialEq, Eq, Structural, Debug)]
pub struct Line {
    pub x0: i64,
    pub y0: i64,
    pub x1: i64,
    pub y1: i64,
    pub color: Rgb,
    pub power: u8,
}

/// The turtle: its position, the active coordinate basis accumulated
/// from scales and rotations, and the pen settings.
#[derive(Clone, Copy, PartialEq, Eq, Structural, Debug)]
pub struct PenState {
    pub position: Vec2,
    pub frame_x: Vec2,
    pub frame_y: Vec2,
    pub color: Rgb,
    pub power: u8,
    pub pen_on: bool,
}

/// The state that `home` resets to: identity basis, origin, white at
/// full power, pen down.
pub open spec fn reset_state() -> PenState {
    PenState {
        position: Vec2 { x: 0, y: 0 },
        frame_x: Vec2 { x: SCALE, y: 0 },
        frame_y: Vec2 { x: 0, y: SCALE },
        color: Rgb { r: 255, g: 255, b: 255 },
        power: 255,
        pen_on: true,
    }
}

impl PenState {
    /// The reset state: where the pen starts and what `home` restores.
    pub fn reset() -> (st: PenState)
        ensures
            st == reset_state(),
    {
        PenState {
            position: Vec2 { x: 0, y: 0 },
            frame_x: Vec2 { x: 1_000_000, y: 0 },
            frame_y: Vec2 { x: 0, y: 1_000_000 },
            color: Rgb { r: 255, g: 255, b: 255 },
            power: 255,
            pen_on: true,
        }
    }
}

/// Fixed-point product as an `i64`.
pub open spec fn mul_s(a: i64, b: i64) -> i64 {
    fx_mul(a as int, b as int) as i64
}

/// Saturating sum as an `i64`.
pub open spec fn add_s(a: i64, b: i64) -> i64 {
    fx_add(a as int, b as int) as i64
}

/// Saturating difference as an `i64`.
pub open spec fn sub_s(a: i64, b: i64) -> i64 {
    fx_sub(a as int, b as int) as i64
}

/// The world-space delta of `Move(dx, dy)`: the linear combination of
/// the current basis vectors.
pub open spec fn move_delta(st: PenState, dx: i64, dy: i64) -> Vec2 {
    Vec2 {
        x: add_s(mul_s(st.frame_x.x, dx), mul_s(st.frame_y.x, dy)),
        y: add_s(mul_s(st.frame_x.y, dx), mul_s(st.frame_y.y, dy)),
    }
}

/// A basis vector rotated by an angle whose fixed-point sine and cosine
/// are `s` and `c`.
pub open spec fn rot_vec(v: Vec2, s: i64, c: i64) -> Vec2 {
    Vec2 {
        x: sub_s(mul_s(c, v.x), mul_s(s, v.y)),
        y: add_s(mul_s(s, v.x), mul_s(c, v.y)),
    }
}

/// The one transition a command makes on the pen state.
pub open spec fn step(st: PenState, c: DrawCall) -> PenState {
    match c {
        DrawCall::Home => reset_state(),
        DrawCall::Move(dx, dy) => PenState {
            position: Vec2 {
                x: add_s(st.position.x, move_delta(st, dx, dy).x),
                y: add_s(st.position.y, move_delta(st, dx, dy).y),
            },
            ..st
        },
        DrawCall::Scale(sx, sy) => PenState {
            frame_x: Vec2 { x: mul_s(st.frame_x.x, sx), y: mul_s(st.frame_x.y, sx) },
            frame_y: Vec2 { x: mul_s(st.frame_y.x, sy), y: mul_s(st.frame_y.y, sy) },
            ..st
        },
        DrawCall::Rotate(d) => PenState {
            frame_x: rot_vec(st.frame_x, sin_ud(d as int) as i64, cos_ud(d as int) as i64),
            frame_y: rot_vec(st.frame_y, sin_ud(d as int) as i64, cos_ud(d as int) as i64),
            ..st
        },
        DrawCall::Color(r, g, b) => PenState { color: Rgb { r, g, b }, ..st },
        DrawCall::Power(p) => PenState { power: p, ..st },
        DrawCall::Toggle(on) => PenState { pen_on: on, ..st },
    }
}

/// The line-draw side effects one command issues: a single stroke for a
/// move with the pen down, nothing otherwise.
pub open spec fn step_lines(st: PenState, c: DrawCall) -> Seq<Line> {
    match c {
        DrawCall::Move(dx, dy) => if st.pen_on {
            seq![
                Line {
                    x0: st.position.x,
                    y0: st.position.y,
                    x1: step(st, c).position.x,
                    y1: step(st, c).position.y,
                    color: st.color,
                    power: st.power,
                },
            ]
        } else {
            Seq::empty()
        },
        _ => Seq::empty(),
    }
}

/// The pen state after executing a whole command sequence in order.
pub open spec fn run(st: PenState, cs: Seq<DrawCall>) -> PenState
    decreases cs.len(),
{
    if cs.len() == 0 {
        st
    } else {
        run(step(st, cs[0]), cs.drop_first())
    }
}

/// Every line-draw side effect a command sequence issues, in draw order.
pub open spec fn run_lines(st: PenState, cs: Seq<DrawCall>) -> Seq<Line>
    decreases cs.len(),
{
    if cs.len() == 0 {
        Seq::empty()
    } else {
        step_lines(st, cs[0]) + run_lines(step(st, cs[0]), cs.drop_first())
    }
}

/// Executing a concatenation is executing the parts in order: the second
/// part starts in the state the first part ends in, and the strokes are
/// the two parts' strokes in order.
pub proof fn lemma_run_concat(st: PenState, a: Seq<DrawCall>, b: Seq<DrawCall>)
    ensures
        run(st, a + b) == run(run(st, a), b),
        run_lines(st, a + b) == run_lines(st, a) + run_lines(run(st, a), b),
    decreases a.len(),
{
    if a.len() == 0 {
        assert(a + b =~= b);
        assert(Seq::<Line>::empty() + run_lines(st, b) =~= run_lines(st, b));
    } else {
        assert((a + b)[0] == a[0]);
        assert((a + b).drop_first() =~= a.drop_first() + b);
        lemma_run_concat(step(st, a[0]), a.drop_first(), b);
        assert(step_lines(st, a[0]) + (run_lines(step(st, a[0]), a.drop_first()) + run_lines(
            run(st, a),
            b,
        )) =~= (step_lines(st, a[0]) + run_lines(step(st, a[0]), a.drop_first())) + run_lines(
            run(st, a),
            b,
        ));
    }
}

/// One more command extends a run by one step.
pub proof fn lemma_run_snoc(st: PenState, s: Seq<DrawCall>, i: int)
    requires
        0 <= i < s.len(),
    ensures
        run(st, s.take(i + 1)) == step(run(st, s.take(i)), s[i]),
        run_lines(st, s.take(i + 1)) == run_lines(st, s.take(i)) + step_lines(
            run(st, s.take(i)),
            s[i],
        ),
{
    let one = seq![s[i]];
    assert(s.take(i + 1) =~= s.take(i) + one);
    lemma_run_concat(st, s.take(i), one);
    let st1 = run(st, s.take(i));
    assert(one.drop_first() =~= Seq::<DrawCall>::empty());
    assert(one[0] == s[i]);
    assert(run(st1, one) == run(step(st1, s[i]), Seq::<DrawCall>::empty()));
    assert(run(step(st1, s[i]), Seq::<DrawCall>::empty()) == step(st1, s[i]));
    assert(run_lines(st1, one) == step_lines(st1, s[i]) + run_lines(
        step(st1, s[i]),
        Seq::<DrawCall>::empty(),
    ));
    assert(run_lines(step(st1, s[i]), Seq::<DrawCall>::empty()) =~= Seq::<Line>::empty());
    assert(step_lines(st1, s[i]) + Seq::<Line>::empty() =~= step_lines(st1, s[i]));
}

/// Something that can be executed against the pen state.
pub trait Draw {
    /// The pen state after drawing `self` from state `st`.
    spec fn next_state(&self, st: PenState) -> PenState;

    /// The line-draw side effects drawing `self` from `st` issues.
    spec fn lines_of(&self, st: PenState) -> Seq<Line>;

    /// Advance the pen state over `self`, appending each issued
    /// line-draw side effect to `out` in draw order.
    fn draw(&self, st: &mut PenState, out: &mut Vec<Line>)
        ensures
            *final(st) == self.next_state(*old(st)),
            final(out)@ == old(out)@ + self.lines_of(*old(st)),
    ;
}

impl Draw for DrawCall {
    open spec fn next_state(&self, st: PenState) -> PenState {
        step(st, *self)
    }

    open spec fn lines_of(&self, st: PenState) -> Seq<Line> {
        step_lines(st, *self)
    }

    fn draw(&self, st: &mut PenState, out: &mut Vec<Line>) {
        match *self {
            DrawCall::Home => {
                st.position = Vec2 { x: 0, y: 0 };
                st.frame_x = Vec2 { x: SCALE, y: 0 };
                st.frame_y = Vec2 { x: 0, y: SCALE };
                st.color = Rgb { r: 255, g: 255, b: 255 };
                st.power = 255;
                st.pen_on = true;
                proof {
                    assert(out@ =~= old(out)@ + Seq::<Line>::empty());
                }
            },
            DrawCall::Move(dx, dy) => {
                let wx: i64 = add_fx(mul_fx(st.frame_x.x, dx), mul_fx(st.frame_y.x, dy));
                let wy: i64 = add_fx(mul_fx(st.frame_x.y, dx), mul_fx(st.frame_y.y, dy));
                let nx: i64 = add_fx(st.position.x, wx);
                let ny: i64 = add_fx(st.position.y, wy);
                if st.pen_on {
                    let line = Line {
                        x0: st.position.x,
                        y0: st.position.y,
                        x1: nx,
                        y1: ny,
                        color: st.color,
                        power: st.power,
                    };
                    out.push(line);
                    proof {
                        assert(out@ =~= old(out)@ + seq![line]);
                    }
                } else {
                    proof {
                        assert(out@ =~= old(out)@ + Seq::<Line>::empty());
                    }
                }
                st.position = Vec2 { x: nx, y: ny };
            },
            DrawCall::Scale(sx, sy) => {
                let fx = st.frame_x;
                let fy = st.frame_y;
                st.frame_x = Vec2 { x: mul_fx(fx.x, sx), y: mul_fx(fx.y, sx) };
                st.frame_y = Vec2 { x: mul_fx(fy.x, sy), y: mul_fx(fy.y, sy) };
                proof {
                    assert(out@ =~= old(out)@ + Seq::<Line>::empty());
                }
            },
            DrawCall::Rotate(d) => {
                let sc = sincos_ud(d);
                let s: i64 = sc.0;
                let c: i64 = sc.1;
                let fx = st.frame_x;
                let fy = st.frame_y;
                st.frame_x = Vec2 {
                    x: sub_fx(mul_fx(c, fx.x), mul_fx(s, fx.y)),
                    y: add_fx(mul_fx(s, fx.x), mul_fx(c, fx.y)),
                };
                st.frame_y = Vec2 {
                    x: sub_fx(mul_fx(c, fy.x), mul_fx(s, fy.y)),
                    y: add_fx(mul_fx(s, fy.x), mul_fx(c, fy.y)),
                };
                proof {
                    assert(out@ =~= old(out)@ + Seq::<Line>::empty());
                }
            },
            DrawCall::Color(r, g, b) => {
                st.color = Rgb { r, g, b };
                proof {
                    assert(out@ =~= old(out)@ + Seq::<Line>::empty());
                }
            },
            DrawCall::Power(p) => {
                st.power = p;
                proof {
                    assert(out@ =~= old(out)@ + Seq::<Line>::empty());
                }
            },
            DrawCall::Toggle(on) => {
                st.pen_on = on;
                proof {
                    assert(out@ =~= old(out)@ + Seq::<Line>::empty());
                }
            },
        }
    }
}

/// `home` yields the fixed reset state, whatever the state before it.
pub proof fn lemma_home_resets(st: PenState)
    ensures
        step(st, DrawCall::Home) == reset_state(),
{
}

/// A move with the pen up still updates the position, exactly as a move
/// with the pen down would, but issues no line-draw side effect.
pub proof fn lemma_move_pen_off(st: PenState, dx: i64, dy: i64)
    requires
        !st.pen_on,
    ensures
        step_lines(st, DrawCall::Move(dx, dy)) == Seq::<Line>::empty(),
        step(st, DrawCall::Move(dx, dy)) == (PenState {
            position: Vec2 {
                x: add_s(st.position.x, move_delta(st, dx, dy).x),
                y: add_s(st.position.y, move_delta(st, dx, dy).y),
            },
            ..st
        }),
{
}

/// The two-command plan: scale the basis by two and three, then move
/// one step along the local x axis.
pub open spec fn scale2_move1() -> Seq<DrawCall> {
    seq![DrawCall::Scale(2_000_000, 3_000_000), DrawCall::Move(1_000_000, 0)]
}

/// After `Scale(2, 3)`, a `Move(1, 0)` shifts the pen by exactly twice
/// the `frame_x` basis vector from before the scale, and with the pen
/// down the one stroke drawn has exactly that delta. The bounds keep
/// the arithmetic away from saturation.
pub proof fn lemma_scale_then_move(st: PenState)
    requires
        st.pen_on,
        -4_611_686_018_427_387_903 <= st.frame_x.x <= 4_611_686_018_427_387_903,
        -4_611_686_018_427_387_903 <= st.frame_x.y <= 4_611_686_018_427_387_903,
        i64::MIN <= st.position.x + 2 * st.frame_x.x <= i64::MAX,
        i64::MIN <= st.position.y + 2 * st.frame_x.y <= i64::MAX,
    ensures
        run(st, scale2_move1()).position.x == st.position.x + 2 * st.frame_x.x,
        run(st, scale2_move1()).position.y == st.position.y + 2 * st.frame_x.y,
        run_lines(st, scale2_move1()).len() == 1,
        run_lines(st, scale2_move1())[0].x1 - run_lines(st, scale2_move1())[0].x0 == 2
            * st.frame_x.x,
        run_lines(st, scale2_move1())[0].y1 - run_lines(st, scale2_move1())[0].y0 == 2
            * st.frame_x.y,
{
    let c0 = DrawCall::Scale(2_000_000, 3_000_000);
    let c1 = DrawCall::Move(1_000_000, 0);
    let cs = scale2_move1();
    assert(cs[0] == c0);
    assert(cs.drop_first() =~= seq![c1]);
    assert(seq![c1].drop_first() =~= Seq::<DrawCall>::empty());
    crate::fixed::lemma_fx_mul_units(st.frame_x.x, 2);
    crate::fixed::lemma_fx_mul_units(st.frame_x.y, 2);
    assert(2_000_000int == 2 * (SCALE as int));
    let s1 = step(st, c0);
    assert(s1.frame_x.x == 2 * st.frame_x.x);
    assert(s1.frame_x.y == 2 * st.frame_x.y);
    crate::fixed::lemma_fx_mul_units(s1.frame_x.x, 1);
    crate::fixed::lemma_fx_mul_units(s1.frame_x.y, 1);
    assert(1_000_000int == 1 * (SCALE as int));
    assert(fx_mul(s1.frame_y.x as int, 0) == 0) by {
        vstd::arithmetic::div_mod::lemma_div_of0(SCALE as int);
    }
    assert(fx_mul(s1.frame_y.y as int, 0) == 0) by {
        vstd::arithmetic::div_mod::lemma_div_of0(SCALE as int);
    }
    assert(move_delta(s1, 1_000_000, 0).x == 2 * st.frame_x.x);
    assert(move_delta(s1, 1_000_000, 0).y == 2 * st.frame_x.y);
    let s2 = step(s1, c1);
    assert(s2.position.x == st.position.x + 2 * st.frame_x.x);
    assert(s2.position.y == st.position.y + 2 * st.frame_x.y);
    assert(run(st, cs) == run(s1, cs.drop_first()));
    assert(run(s1, seq![c1]) == run(s2, seq![c1].drop_first()));
    assert(run(s2, Seq::<DrawCall>::empty()) == s2);
    assert(run(st, cs) == s2);
    assert(run_lines(st, cs) == step_lines(st, c0) + run_lines(s1, cs.drop_first()));
    assert(step_lines(st, c0) =~= Seq::<Line>::empty());
    assert(run_lines(s1, seq![c1]) == step_lines(s1, c1) + run_lines(s2, Seq::<
        DrawCall,
    >::empty()));
    assert(s1.pen_on);
    assert(run_lines(st, cs) =~= step_lines(s1, c1));
    assert(run_lines(st, cs).len() == 1);
}

/// A quarter turn from the reset state maps `frame_x = (1, 0)` exactly
/// onto `(0, 1)` and `frame_y = (0, 1)` exactly onto `(-1, 0)`: at
/// whole multiples of ninety degrees the fixed-point rotation is exact.
pub proof fn lemma_rotate_quarter()
    ensures
        step(reset_state(), DrawCall::Rotate(crate::trig::DEG_QUARTER)) == (PenState {
            frame_x: Vec2 { x: 0, y: SCALE },
            frame_y: Vec2 { x: -1_000_000i64, y: 0 },
            ..reset_state()
        }),
{
    let d = crate::trig::DEG_QUARTER as int;
    vstd::arithmetic::div_mod::lemma_small_mod(90_000_000nat, 360_000_000nat);
    assert(crate::trig::norm_deg(d) == 90_000_000);
    vstd::arithmetic::div_mod::lemma_div_by_self(90_000_000);
    vstd::arithmetic::div_mod::lemma_mod_self_0(90_000_000);
    vstd::arithmetic::div_mod::lemma_div_of0(180_000_000);
    vstd::arithmetic::div_mod::lemma_div_of0(1_000_000);
    vstd::arithmetic::div_mod::lemma_div_of0(6);
    vstd::arithmetic::div_mod::lemma_div_of0(120);
    vstd::arithmetic::div_mod::lemma_div_of0(5040);
    vstd::arithmetic::div_mod::lemma_div_of0(2);
    vstd::arithmetic::div_mod::lemma_div_of0(24);
    vstd::arithmetic::div_mod::lemma_div_of0(720);
    assert(crate::trig::rad_of(0) == 0);
    assert(crate::trig::taylor_sin(0) == 0);
    assert(crate::trig::taylor_cos(0) == SCALE as int);
    assert(sin_ud(d) == SCALE as int);
    assert(cos_ud(d) == 0);
    vstd::arithmetic::div_mod::lemma_div_by_multiple(1_000_000, 1_000_000);
    assert(fx_mul(SCALE as int, SCALE as int) == SCALE as int);
    assert(fx_mul(0, SCALE as int) == 0);
    assert(fx_mul(SCALE as int, 0) == 0);
    assert(fx_mul(0, 0) == 0);
}

} // verus!
