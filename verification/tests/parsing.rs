use turtleplan::DrawCall;
use turtleplan::DrawPlan;
use turtleplan::ParseError;

fn lines(strs: &[&str]) -> Vec<String> {
    strs.iter().map(|s| s.to_string()).collect()
}

#[test]
fn parse_move_line() {
    let r = DrawCall::try_from("move 1 2");
    assert_eq!(r, Ok(DrawCall::Move(1_000_000, 2_000_000)));
}

#[test]
fn parse_unknown_keyword() {
    let r = DrawCall::try_from("foo bar");
    assert_eq!(r, Err(ParseError::UnknownCommand("foo".to_string())));
}

#[test]
fn parse_color_three_distinct_operands() {
    // The third operand alone gives the blue channel.
    let r = DrawCall::try_from("color 10 20 30");
    assert_eq!(r, Ok(DrawCall::Color(10, 20, 30)));
}

#[test]
fn parse_home_ignores_extra_tokens() {
    assert_eq!(DrawCall::try_from("home now"), Ok(DrawCall::Home));
}

#[test]
fn parse_scale_line() {
    let r = DrawCall::try_from("scale 2 3");
    assert_eq!(r, Ok(DrawCall::Scale(2_000_000, 3_000_000)));
}

#[test]
fn parse_rotate_line() {
    assert_eq!(DrawCall::try_from("rotate 90"), Ok(DrawCall::Rotate(90_000_000)));
}

#[test]
fn parse_negative_rotate() {
    assert_eq!(DrawCall::try_from("rotate -45.5"), Ok(DrawCall::Rotate(-45_500_000)));
}

#[test]
fn parse_power_line() {
    assert_eq!(DrawCall::try_from("power 255"), Ok(DrawCall::Power(255)));
}

#[test]
fn parse_power_out_of_range() {
    let r = DrawCall::try_from("power 256");
    assert_eq!(
        r,
        Err(ParseError::InvalidOperand("power".to_string(), 1, "256".to_string()))
    );
}

#[test]
fn parse_toggle_lines() {
    assert_eq!(DrawCall::try_from("toggle true"), Ok(DrawCall::Toggle(true)));
    assert_eq!(DrawCall::try_from("toggle false"), Ok(DrawCall::Toggle(false)));
}

#[test]
fn parse_toggle_bad_operand() {
    let r = DrawCall::try_from("toggle yes");
    assert_eq!(
        r,
        Err(ParseError::InvalidOperand("toggle".to_string(), 1, "yes".to_string()))
    );
}

#[test]
fn parse_missing_operands() {
    assert_eq!(
        DrawCall::try_from("move 1"),
        Err(ParseError::MissingOperand("move".to_string(), 2))
    );
    assert_eq!(
        DrawCall::try_from("power"),
        Err(ParseError::MissingOperand("power".to_string(), 1))
    );
    assert_eq!(
        DrawCall::try_from("color 1 2"),
        Err(ParseError::MissingOperand("color".to_string(), 3))
    );
}

#[test]
fn parse_invalid_first_operand() {
    assert_eq!(
        DrawCall::try_from("move x 2"),
        Err(ParseError::InvalidOperand("move".to_string(), 1, "x".to_string()))
    );
}

#[test]
fn parse_invalid_second_operand() {
    assert_eq!(
        DrawCall::try_from("color 10 999 30"),
        Err(ParseError::InvalidOperand("color".to_string(), 2, "999".to_string()))
    );
}

#[test]
fn parse_fractions() {
    assert_eq!(
        DrawCall::try_from("move 1.5 -0.25"),
        Ok(DrawCall::Move(1_500_000, -250_000))
    );
    assert_eq!(DrawCall::try_from("move .5 5."), Ok(DrawCall::Move(500_000, 5_000_000)));
}

#[test]
fn parse_fraction_truncates_past_six_digits() {
    assert_eq!(DrawCall::try_from("rotate 0.0000009"), Ok(DrawCall::Rotate(0)));
    assert_eq!(DrawCall::try_from("rotate 1.2345678"), Ok(DrawCall::Rotate(1_234_567)));
}

#[test]
fn parse_magnitude_too_large() {
    assert_eq!(
        DrawCall::try_from("move 99999999999999 0"),
        Err(ParseError::InvalidOperand(
            "move".to_string(),
            1,
            "99999999999999".to_string()
        ))
    );
}

#[test]
fn parse_blank_lines_fail_without_panicking() {
    assert_eq!(DrawCall::try_from(""), Err(ParseError::UnknownCommand(String::new())));
    assert_eq!(DrawCall::try_from("   "), Err(ParseError::UnknownCommand(String::new())));
}

#[test]
fn parse_leading_whitespace() {
    assert_eq!(
        DrawCall::try_from("  move\t1  2 "),
        Ok(DrawCall::Move(1_000_000, 2_000_000))
    );
}

#[test]
fn parse_fx_edge_cases() {
    assert_eq!(turtleplan::parse_fx("+2"), Some(2_000_000));
    assert_eq!(turtleplan::parse_fx("-0.000001"), Some(-1));
    assert_eq!(turtleplan::parse_fx("007"), Some(7_000_000));
    assert_eq!(turtleplan::parse_fx("."), None);
    assert_eq!(turtleplan::parse_fx("1.2.3"), None);
    assert_eq!(turtleplan::parse_fx("--1"), None);
    assert_eq!(turtleplan::parse_fx(""), None);
}

#[test]
fn parse_u8_edge_cases() {
    assert_eq!(turtleplan::parse_u8("0"), Some(0));
    assert_eq!(turtleplan::parse_u8("255"), Some(255));
    assert_eq!(turtleplan::parse_u8("00000000255"), Some(255));
    assert_eq!(turtleplan::parse_u8("256"), None);
    assert_eq!(turtleplan::parse_u8("-1"), None);
    assert_eq!(turtleplan::parse_u8(""), None);
}

#[test]
fn plan_from_skips_blank_and_bad_lines() {
    let p = DrawPlan::from(lines(&["move 1 0", "", "bogus", "home"]));
    assert_eq!(p.0, vec![DrawCall::Move(1_000_000, 0), DrawCall::Home]);
}

#[test]
fn plan_from_lines_collects_diagnostics() {
    let src = lines(&["move 1 0", "", "bogus", "home", "power 999"]);
    let (p, errs) = DrawPlan::from_lines(&src);
    assert_eq!(p.0, vec![DrawCall::Move(1_000_000, 0), DrawCall::Home]);
    assert_eq!(
        errs,
        vec![
            ParseError::UnknownCommand("bogus".to_string()),
            ParseError::InvalidOperand("power".to_string(), 1, "999".to_string()),
        ]
    );
}

#[test]
fn plan_add_keeps_both_orders() {
    let a = DrawPlan::from(lines(&["home", "move 1 0"]));
    let b = DrawPlan::from(lines(&["rotate 90"]));
    let r = a.add(b);
    assert_eq!(
        r.0,
        vec![DrawCall::Home, DrawCall::Move(1_000_000, 0), DrawCall::Rotate(90_000_000)]
    );
}

#[test]
fn plan_add_is_associative() {
    let mk = |ls: &[&str]| DrawPlan::from(lines(ls));
    let left = mk(&["home"]).add(mk(&["move 1 0"])).add(mk(&["rotate 90"]));
    let right = mk(&["home"]).add(mk(&["move 1 0"]).add(mk(&["rotate 90"])));
    let flat = vec![DrawCall::Home, DrawCall::Move(1_000_000, 0), DrawCall::Rotate(90_000_000)];
    assert_eq!(left.0, flat);
    assert_eq!(right.0, flat);
}

#[test]
fn concat_all_flattens_in_order() {
    let a = DrawPlan::from(lines(&["home"]));
    let b = DrawPlan::from(lines(&["move 1 0"]));
    let c = DrawPlan::from(lines(&["rotate 90"]));
    let r = DrawPlan::concat_all(vec![a, b, c]);
    assert_eq!(
        r.0,
        vec![DrawCall::Home, DrawCall::Move(1_000_000, 0), DrawCall::Rotate(90_000_000)]
    );
    let empty = DrawPlan::concat_all(Vec::new());
    assert!(empty.0.is_empty());
}

#[test]
fn str_lex_le_orders_by_character_code() {
    assert!(turtleplan::str_lex_le("", "a"));
    assert!(turtleplan::str_lex_le("a", "a"));
    assert!(turtleplan::str_lex_le("a", "b"));
    assert!(!turtleplan::str_lex_le("b", "a"));
    assert!(turtleplan::str_lex_le("ab", "b"));
    assert!(turtleplan::str_lex_le("ab", "abc"));
    assert!(!turtleplan::str_lex_le("abc", "ab"));
}

#[test]
fn sort_sources_orders_by_name() {
    let v: Vec<(String, Vec<String>)> = vec![
        ("zeta".to_string(), lines(&["rotate 90"])),
        ("alpha".to_string(), lines(&["home"])),
        ("mid".to_string(), lines(&["move 1 0"])),
    ];
    let sorted = turtleplan::sort_sources(v);
    let names: Vec<&str> = sorted.iter().map(|p| p.0.as_str()).collect();
    assert_eq!(names, vec!["alpha", "mid", "zeta"]);
}

#[test]
fn frame_plan_is_deterministic_across_source_orders() {
    let fwd: Vec<(String, Vec<String>)> = vec![
        ("alpha".to_string(), lines(&["home"])),
        ("zeta".to_string(), lines(&["rotate 90"])),
        ("mid".to_string(), lines(&["move 1 0", "bogus"])),
    ];
    let rev: Vec<(String, Vec<String>)> = fwd.iter().rev().cloned().collect();
    let a = DrawPlan::frame_plan(fwd);
    let b = DrawPlan::frame_plan(rev);
    let flat = vec![DrawCall::Home, DrawCall::Move(1_000_000, 0), DrawCall::Rotate(90_000_000)];
    assert_eq!(a.0, flat);
    assert_eq!(b.0, flat);
}

#[test]
fn frame_plan_keeps_equally_named_sources_in_order() {
    let v: Vec<(String, Vec<String>)> = vec![
        ("a".to_string(), lines(&["home"])),
        ("a".to_string(), lines(&["move 1 0"])),
    ];
    let p = DrawPlan::frame_plan(v);
    assert_eq!(p.0, vec![DrawCall::Home, DrawCall::Move(1_000_000, 0)]);
}

#[test]
fn plan_add_call_and_pairing() {
    let p = DrawCall::Home.add(DrawCall::Power(3));
    assert_eq!(p.0, vec![DrawCall::Home, DrawCall::Power(3)]);
    let q = p.add_call(DrawCall::Toggle(false));
    assert_eq!(
        q.0,
        vec![DrawCall::Home, DrawCall::Power(3), DrawCall::Toggle(false)]
    );
}
