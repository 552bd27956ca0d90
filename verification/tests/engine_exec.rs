use turtleplan::Draw;
use turtleplan::DrawCall;
use turtleplan::DrawPlan;
use turtleplan::Line;
use turtleplan::PenState;
use turtleplan::Rgb;
use turtleplan::Vec2;

fn reset() -> PenState {
    PenState::reset()
}

fn mangled() -> PenState {
    PenState {
        position: Vec2 { x: 7, y: -9 },
        frame_x: Vec2 { x: 3, y: 4 },
        frame_y: Vec2 { x: -5, y: 6 },
        color: Rgb { r: 1, g: 2, b: 3 },
        power: 9,
        pen_on: false,
    }
}

#[test]
fn home_always_resets() {
    let mut st = mangled();
    let mut out: Vec<Line> = Vec::new();
    DrawCall::Home.draw(&mut st, &mut out);
    assert_eq!(st, reset());
    assert!(out.is_empty());
}

#[test]
fn move_with_pen_off_draws_nothing() {
    let mut st = reset();
    st.pen_on = false;
    let mut out: Vec<Line> = Vec::new();
    DrawCall::Move(1_000_000, 2_000_000).draw(&mut st, &mut out);
    assert!(out.is_empty());
    assert_eq!(st.position, Vec2 { x: 1_000_000, y: 2_000_000 });
}

#[test]
fn scale_then_move_doubles_old_frame_x() {
    let mut st = reset();
    let before = st.frame_x;
    let mut out: Vec<Line> = Vec::new();
    DrawCall::Scale(2_000_000, 3_000_000).draw(&mut st, &mut out);
    DrawCall::Move(1_000_000, 0).draw(&mut st, &mut out);
    assert_eq!(out.len(), 1);
    let l = &out[0];
    assert_eq!(l.x1 - l.x0, 2 * before.x);
    assert_eq!(l.y1 - l.y0, 2 * before.y);
    assert_eq!(st.position, Vec2 { x: 2_000_000, y: 0 });
}

#[test]
fn rotate_quarter_is_exact() {
    let mut st = reset();
    let mut out: Vec<Line> = Vec::new();
    DrawCall::Rotate(90_000_000).draw(&mut st, &mut out);
    assert_eq!(st.frame_x, Vec2 { x: 0, y: 1_000_000 });
    assert_eq!(st.frame_y, Vec2 { x: -1_000_000, y: 0 });
    assert!(out.is_empty());
}

#[test]
fn rotate_half_is_exact() {
    let mut st = reset();
    let mut out: Vec<Line> = Vec::new();
    DrawCall::Rotate(180_000_000).draw(&mut st, &mut out);
    assert_eq!(st.frame_x, Vec2 { x: -1_000_000, y: 0 });
    assert_eq!(st.frame_y, Vec2 { x: 0, y: -1_000_000 });
}

#[test]
fn rotate_small_angle_is_close() {
    let mut st = reset();
    let mut out: Vec<Line> = Vec::new();
    DrawCall::Rotate(30_000_000).draw(&mut st, &mut out);
    // sin 30 = 0.5, cos 30 = 0.866025...; the series is within a few
    // hundred millionths.
    assert!((st.frame_x.x - 866_025).abs() < 500, "cos off: {}", st.frame_x.x);
    assert!((st.frame_x.y - 500_000).abs() < 500, "sin off: {}", st.frame_x.y);
}

#[test]
fn rotation_keeps_scale_magnitude() {
    let mut st = reset();
    let mut out: Vec<Line> = Vec::new();
    DrawCall::Scale(2_000_000, 2_000_000).draw(&mut st, &mut out);
    DrawCall::Rotate(90_000_000).draw(&mut st, &mut out);
    assert_eq!(st.frame_x, Vec2 { x: 0, y: 2_000_000 });
    assert_eq!(st.frame_y, Vec2 { x: -2_000_000, y: 0 });
}

#[test]
fn color_power_toggle_replace_fields() {
    let mut st = reset();
    let mut out: Vec<Line> = Vec::new();
    DrawCall::Color(1, 2, 3).draw(&mut st, &mut out);
    DrawCall::Power(7).draw(&mut st, &mut out);
    DrawCall::Toggle(false).draw(&mut st, &mut out);
    assert_eq!(st.color, Rgb { r: 1, g: 2, b: 3 });
    assert_eq!(st.power, 7);
    assert!(!st.pen_on);
    assert!(out.is_empty());
}

#[test]
fn scale_saturates_at_i64_range() {
    let mut st = reset();
    st.frame_x = Vec2 { x: i64::MAX, y: 0 };
    let mut out: Vec<Line> = Vec::new();
    DrawCall::Scale(2_000_000, 1_000_000).draw(&mut st, &mut out);
    assert_eq!(st.frame_x, Vec2 { x: i64::MAX, y: 0 });
}

#[test]
fn move_uses_current_basis() {
    let mut st = reset();
    st.frame_x = Vec2 { x: 2_000_000, y: 500_000 };
    st.frame_y = Vec2 { x: -1_000_000, y: 1_000_000 };
    let mut out: Vec<Line> = Vec::new();
    DrawCall::Move(1_000_000, 2_000_000).draw(&mut st, &mut out);
    // delta = frame_x * 1 + frame_y * 2 = (0, 2.5)
    assert_eq!(st.position, Vec2 { x: 0, y: 2_500_000 });
    assert_eq!(out.len(), 1);
}

#[test]
fn end_to_end_two_strokes() {
    let src: Vec<String> =
        ["home", "move 0 5", "color 1 2 3", "move 5 0"].iter().map(|s| s.to_string()).collect();
    let plan = DrawPlan::from(src);
    let mut st = mangled();
    let mut out: Vec<Line> = Vec::new();
    plan.draw(&mut st, &mut out);
    assert_eq!(out.len(), 2);
    assert_eq!(
        out[0],
        Line {
            x0: 0,
            y0: 0,
            x1: 0,
            y1: 5_000_000,
            color: Rgb { r: 255, g: 255, b: 255 },
            power: 255,
        }
    );
    assert_eq!(
        out[1],
        Line {
            x0: 0,
            y0: 5_000_000,
            x1: 5_000_000,
            y1: 5_000_000,
            color: Rgb { r: 1, g: 2, b: 3 },
            power: 255,
        }
    );
}

#[test]
fn plan_draw_equals_drawing_each_command() {
    let src: Vec<String> =
        ["home", "scale 2 2", "rotate 45", "move 1 1", "toggle false", "move 1 0"]
            .iter()
            .map(|s| s.to_string())
            .collect();
    let plan = DrawPlan::from(src);
    let mut st_plan = reset();
    let mut out_plan: Vec<Line> = Vec::new();
    plan.draw(&mut st_plan, &mut out_plan);
    let mut st_each = reset();
    let mut out_each: Vec<Line> = Vec::new();
    for c in &plan.0 {
        c.draw(&mut st_each, &mut out_each);
    }
    assert_eq!(st_plan, st_each);
    assert_eq!(out_plan, out_each);
}
