use asm_annotate::error::AnnotateError;
use asm_annotate::tui_state::{parse_context, parse_usize, ActivePane, KeyCode, KeyInput, KeyOutcome, ViewState};

#[test]
fn test_parse_context() {
    assert_eq!(parse_context("3").unwrap(), (3, 3));
    assert_eq!(parse_context("2:5").unwrap(), (2, 5));
    assert!(parse_context("2:").is_err());
    assert!(parse_context(":5").is_err());
    assert!(parse_context("a:5").is_err());
    assert!(parse_context("2:b").is_err());
    assert!(parse_context("2:5:1").is_err());
    assert!(parse_context("").is_err());
}

#[test]
fn parse_context_errors_name_the_part() {
    assert_eq!(parse_context("x"), Err(AnnotateError::InvalidContextFormat { text: "x".to_string() }));
    assert_eq!(parse_context("a:5"), Err(AnnotateError::InvalidContextNumber { text: "a".to_string() }));
    assert_eq!(parse_context("2:b"), Err(AnnotateError::InvalidContextNumber { text: "b".to_string() }));
    assert_eq!(parse_context("2:5:1"), Err(AnnotateError::InvalidContextNumber { text: "5:1".to_string() }));
    assert_eq!(parse_context("+4:+0").unwrap(), (4, 0));
}

#[test]
fn parse_usize_like_std() {
    let p = |s: &str| parse_usize(&s.chars().collect::<Vec<char>>());
    assert_eq!(p("0"), Some(0));
    assert_eq!(p("+7"), Some(7));
    assert_eq!(p("007"), Some(7));
    assert_eq!(p("+"), None);
    assert_eq!(p("-1"), None);
    assert_eq!(p(" 1"), None);
    assert_eq!(p("18446744073709551615"), Some(usize::MAX));
    assert_eq!(p("18446744073709551616"), None);
    assert_eq!(p("99999999999999999999x"), None);
}

fn key(code: KeyCode) -> KeyInput {
    KeyInput { code, shift: false, control: false, other_modifiers: false }
}

#[test]
fn keys_switch_panes_and_help() {
    let mut v = ViewState::initial();
    assert_eq!(v.handle_key(key(KeyCode::Tab), 0, 0), KeyOutcome::Continue);
    assert_eq!(v.active_pane, ActivePane::Assembly);
    v.handle_key(key(KeyCode::Char('h')), 0, 0);
    assert_eq!(v.active_pane, ActivePane::Source);
    v.handle_key(key(KeyCode::Char('?')), 0, 0);
    assert!(v.show_help);
    assert_eq!(v.handle_key(key(KeyCode::Char('q')), 0, 0), KeyOutcome::Continue);
    assert!(!v.show_help);
    assert_eq!(v.handle_key(key(KeyCode::Char('q')), 0, 0), KeyOutcome::Quit);
}

#[test]
fn keys_resize_within_limits() {
    let mut v = ViewState::initial();
    let shift_h = KeyInput { code: KeyCode::Char('H'), shift: true, control: false, other_modifiers: false };
    for _ in 0..20 {
        v.handle_key(shift_h, 0, 0);
    }
    assert_eq!(v.left_pane_width, 10);
    let shift_right = KeyInput { code: KeyCode::Right, shift: true, control: false, other_modifiers: false };
    for _ in 0..20 {
        v.handle_key(shift_right, 0, 0);
    }
    assert_eq!(v.left_pane_width, 90);
    // Control alone on `h` does nothing.
    let ctrl_h = KeyInput { code: KeyCode::Char('h'), shift: false, control: true, other_modifiers: false };
    v.active_pane = ActivePane::Assembly;
    v.handle_key(ctrl_h, 0, 0);
    assert_eq!(v.active_pane, ActivePane::Assembly);
}

#[test]
fn scrolling_stops_with_five_lines_visible() {
    let mut v = ViewState::initial();
    v.handle_key(key(KeyCode::PageDown), 12, 0);
    assert_eq!(v.source_scroll, 7);
    v.handle_key(key(KeyCode::Down), 12, 0);
    assert_eq!(v.source_scroll, 7);
    v.handle_key(key(KeyCode::Char('k')), 12, 0);
    assert_eq!(v.source_scroll, 6);
    v.handle_key(key(KeyCode::PageUp), 12, 0);
    assert_eq!(v.source_scroll, 0);
    v.handle_key(key(KeyCode::Down), 5, 0);
    assert_eq!(v.source_scroll, 0);
    let ctrl_d = KeyInput { code: KeyCode::Char('d'), shift: false, control: true, other_modifiers: false };
    v.handle_key(key(KeyCode::Tab), 0, 0);
    v.handle_key(ctrl_d, 0, 100);
    assert_eq!(v.asm_scroll, 15);
    assert_eq!(v.source_scroll, 0);
}

#[test]
fn logger_toggles() {
    let mut v = ViewState::initial();
    v.handle_key(key(KeyCode::Char('g')), 0, 0);
    assert!(v.show_logger);
    v.handle_key(key(KeyCode::Char('G')), 0, 0);
    assert!(!v.show_logger);
}

#[test]
fn context_numbers_round_trip() {
    for n in [0usize, 7, 10, 123456] {
        assert_eq!(parse_context(&n.to_string()).unwrap(), (n, n));
        assert_eq!(parse_context(&format!("{}:{}", n, n + 1)).unwrap(), (n, n + 1));
    }
}

#[test]
fn tab_twice_restores_pane() {
    let mut v = ViewState::initial();
    let before = v;
    v.handle_key(key(KeyCode::Tab), 0, 0);
    v.handle_key(key(KeyCode::Tab), 0, 0);
    assert_eq!(v, before);
}

#[test]
fn pane_width_stays_a_multiple_of_five() {
    let mut v = ViewState::initial();
    let shift_h = KeyInput { code: KeyCode::Char('H'), shift: true, control: false, other_modifiers: false };
    let shift_l = KeyInput { code: KeyCode::Char('L'), shift: true, control: false, other_modifiers: false };
    let presses = [shift_h, shift_h, key(KeyCode::Tab), shift_l, shift_h, shift_h, shift_h, shift_l, key(KeyCode::Down)];
    for k in presses.iter() {
        v.handle_key(*k, 10, 10);
        assert_eq!(v.left_pane_width % 5, 0);
        assert!((10..=90).contains(&v.left_pane_width));
    }
    assert_eq!(v.left_pane_width, 35);
}
