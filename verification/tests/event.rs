//! Key and mouse translation: bytes for the pty, command mode, and mouse
//! reports.

use clux::event::{
    encode_mouse_sgr, is_command_mode, process_event, process_key_event, process_mouse_event,
    ClickTracker, EventAction, InputState, PaneDirection, SelectMode,
};
use clux::input::{Event, KeyCode, KeyEvent, KeyModifiers, MouseButton, MouseEvent, MouseEventKind};

fn mods(bits: u8) -> KeyModifiers {
    KeyModifiers::from_bits(bits)
}

fn key(code: KeyCode, bits: u8) -> KeyEvent {
    KeyEvent::new(code, mods(bits))
}

fn fresh() -> InputState {
    InputState::new(false)
}

fn in_command_mode() -> InputState {
    let mut st = InputState::new(false);
    st.command_mode = true;
    st
}

#[test]
fn test_ctrl_c() {
    let mut st = fresh();
    let event = key(KeyCode::Char('c'), KeyModifiers::CONTROL);
    match process_key_event(event, &mut st) {
        EventAction::SendToPty(bytes) => assert_eq!(bytes, vec![0x03]),
        _ => panic!("Expected SendToPty"),
    }
}

#[test]
fn test_regular_char() {
    let mut st = fresh();
    let event = key(KeyCode::Char('a'), KeyModifiers::NONE);
    match process_key_event(event, &mut st) {
        EventAction::SendToPty(bytes) => assert_eq!(bytes, vec![b'a']),
        _ => panic!("Expected SendToPty"),
    }
}

#[test]
fn test_arrow_key() {
    let mut st = fresh();
    let event = key(KeyCode::Up, KeyModifiers::NONE);
    match process_key_event(event, &mut st) {
        EventAction::SendToPty(bytes) => assert_eq!(bytes, b"\x1b[A".to_vec()),
        _ => panic!("Expected SendToPty"),
    }
}

#[test]
fn test_ctrl_arrow() {
    let mut st = fresh();
    let event = key(KeyCode::Right, KeyModifiers::CONTROL);
    match process_key_event(event, &mut st) {
        EventAction::SendToPty(bytes) => assert_eq!(bytes, b"\x1b[1;5C".to_vec()),
        _ => panic!("Expected SendToPty"),
    }
}

#[test]
fn test_scroll() {
    let mut st = fresh();
    let event = key(KeyCode::PageUp, KeyModifiers::SHIFT);
    match process_key_event(event, &mut st) {
        EventAction::Scroll(delta) => assert_eq!(delta, -10),
        _ => panic!("Expected Scroll"),
    }
}

#[test]
fn test_option_c_enters_command_mode() {
    let mut st = fresh();
    let event = key(KeyCode::Char('c'), KeyModifiers::ALT);
    let action = process_key_event(event, &mut st);
    assert!(matches!(action, EventAction::NoAction));
    assert!(is_command_mode(&st));
}

#[test]
fn test_option_c_cedilla_enters_command_mode() {
    let mut st = fresh();
    let event = key(KeyCode::Char('ç'), KeyModifiers::ALT);
    let action = process_key_event(event, &mut st);
    assert!(matches!(action, EventAction::NoAction));
    assert!(is_command_mode(&st));
}

#[test]
fn test_command_mode_split_horizontal() {
    let mut st = in_command_mode();
    let action = process_key_event(key(KeyCode::Char('-'), KeyModifiers::NONE), &mut st);
    assert!(matches!(action, EventAction::SplitHorizontal));
    assert!(!is_command_mode(&st));
}

#[test]
fn test_command_mode_split_vertical() {
    let mut st = in_command_mode();
    let action = process_key_event(key(KeyCode::Char('p'), KeyModifiers::NONE), &mut st);
    assert!(matches!(action, EventAction::SplitVertical));
    assert!(!is_command_mode(&st));
}

#[test]
fn test_command_mode_split_vertical_uppercase() {
    let mut st = in_command_mode();
    let action = process_key_event(key(KeyCode::Char('P'), KeyModifiers::SHIFT), &mut st);
    assert!(matches!(action, EventAction::SplitVertical));
    assert!(!is_command_mode(&st));
}

#[test]
fn test_command_mode_close_pane() {
    let mut st = in_command_mode();
    let action = process_key_event(key(KeyCode::Char('w'), KeyModifiers::NONE), &mut st);
    assert!(matches!(action, EventAction::ClosePane));
    assert!(!is_command_mode(&st));
}

#[test]
fn test_command_mode_quit() {
    let mut st = in_command_mode();
    let action = process_key_event(key(KeyCode::Char('q'), KeyModifiers::NONE), &mut st);
    assert!(matches!(action, EventAction::Exit));
    assert!(!is_command_mode(&st));
}

#[test]
fn test_command_mode_navigate_arrows() {
    let directions = [
        (KeyCode::Up, PaneDirection::Up),
        (KeyCode::Down, PaneDirection::Down),
        (KeyCode::Left, PaneDirection::Left),
        (KeyCode::Right, PaneDirection::Right),
    ];

    for (code, expected_dir) in directions {
        let mut st = in_command_mode();
        let action = process_key_event(key(code, KeyModifiers::NONE), &mut st);
        match action {
            EventAction::NavigatePane(dir) => assert_eq!(dir, expected_dir),
            _ => panic!("Expected NavigatePane for {:?}", code),
        }
        assert!(!is_command_mode(&st));
    }
}

#[test]
fn test_command_mode_navigate_vim() {
    let directions = [
        ('h', PaneDirection::Left),
        ('j', PaneDirection::Down),
        ('k', PaneDirection::Up),
        ('l', PaneDirection::Right),
    ];

    for (c, expected_dir) in directions {
        let mut st = in_command_mode();
        let action = process_key_event(key(KeyCode::Char(c), KeyModifiers::NONE), &mut st);
        match action {
            EventAction::NavigatePane(dir) => assert_eq!(dir, expected_dir),
            _ => panic!("Expected NavigatePane for '{}'", c),
        }
        assert!(!is_command_mode(&st));
    }
}

#[test]
fn test_command_mode_send_cedilla() {
    let mut st = in_command_mode();
    let action = process_key_event(key(KeyCode::Char('c'), KeyModifiers::NONE), &mut st);
    match action {
        EventAction::SendToPty(bytes) => assert_eq!(bytes, "ç".as_bytes().to_vec()),
        _ => panic!("Expected SendToPty for 'c' in command mode"),
    }
    assert!(!is_command_mode(&st));
}

#[test]
fn test_command_mode_unknown_key_returns_none() {
    let mut st = in_command_mode();
    let action = process_key_event(key(KeyCode::Char('z'), KeyModifiers::NONE), &mut st);
    assert!(matches!(action, EventAction::NoAction));
    assert!(!is_command_mode(&st));
}

#[test]
fn test_command_mode_escape_cancels() {
    let mut st = in_command_mode();
    let action = process_key_event(key(KeyCode::Esc, KeyModifiers::NONE), &mut st);
    assert!(matches!(action, EventAction::NoAction));
    assert!(!is_command_mode(&st));
}

#[test]
fn test_command_mode_exits_after_action() {
    let mut st = in_command_mode();
    assert!(is_command_mode(&st));
    let action = process_key_event(key(KeyCode::Char('-'), KeyModifiers::NONE), &mut st);
    assert!(matches!(action, EventAction::SplitHorizontal));
    assert!(!is_command_mode(&st));
}

#[test]
fn test_command_mode_new_window() {
    let mut st = in_command_mode();
    let action = process_key_event(key(KeyCode::Char('n'), KeyModifiers::NONE), &mut st);
    assert!(matches!(action, EventAction::NewWindow));
    assert!(!is_command_mode(&st));
}

#[test]
fn test_command_mode_close_window() {
    let mut st = in_command_mode();
    let action = process_key_event(key(KeyCode::Char('x'), KeyModifiers::NONE), &mut st);
    assert!(matches!(action, EventAction::CloseWindow));
    assert!(!is_command_mode(&st));
}

#[test]
fn test_command_mode_next_window() {
    let mut st = in_command_mode();
    let action = process_key_event(key(KeyCode::Char(']'), KeyModifiers::NONE), &mut st);
    assert!(matches!(action, EventAction::NextWindow));
    assert!(!is_command_mode(&st));
}

#[test]
fn test_command_mode_prev_window() {
    let mut st = in_command_mode();
    let action = process_key_event(key(KeyCode::Char('\''), KeyModifiers::NONE), &mut st);
    assert!(matches!(action, EventAction::PrevWindow));
    assert!(!is_command_mode(&st));
}

#[test]
fn test_command_mode_select_window() {
    for (c, expected_idx) in [('1', 0), ('2', 1), ('5', 4), ('9', 8), ('0', 9)] {
        let mut st = in_command_mode();
        let action = process_key_event(key(KeyCode::Char(c), KeyModifiers::NONE), &mut st);
        match action {
            EventAction::SelectWindow(idx) => assert_eq!(
                idx, expected_idx,
                "Key '{}' should select window {}",
                c, expected_idx
            ),
            _ => panic!("Expected SelectWindow for key '{}'", c),
        }
        assert!(!is_command_mode(&st));
    }
}

#[test]
fn test_normal_ctrl_c_still_works() {
    let mut st = fresh();
    match process_key_event(key(KeyCode::Char('c'), KeyModifiers::CONTROL), &mut st) {
        EventAction::SendToPty(bytes) => assert_eq!(bytes, vec![0x03]),
        _ => panic!("Expected SendToPty for Ctrl+C"),
    }
    assert!(!is_command_mode(&st));
}

#[test]
fn test_ctrl_c_not_affected_by_command_mode() {
    let mut st = fresh();
    let event = key(KeyCode::Char('c'), KeyModifiers::CONTROL | KeyModifiers::ALT);
    let _action = process_key_event(event, &mut st);
}

fn mouse(kind: MouseEventKind, column: u16, row: u16, bits: u8) -> MouseEvent {
    MouseEvent { kind, column, row, modifiers: mods(bits) }
}

#[test]
fn encodes_button_presses_and_releases() {
    let press = mouse(MouseEventKind::Down(MouseButton::Left), 0, 0, KeyModifiers::NONE);
    assert_eq!(encode_mouse_sgr(&press, true), b"\x1b[<0;1;1M".to_vec());

    let release = mouse(MouseEventKind::Up(MouseButton::Left), 4, 9, KeyModifiers::NONE);
    assert_eq!(encode_mouse_sgr(&release, false), b"\x1b[<0;5;10m".to_vec());
}

#[test]
fn encodes_buttons_drags_and_scrolls() {
    let cases = [
        (MouseEventKind::Down(MouseButton::Middle), 1),
        (MouseEventKind::Down(MouseButton::Right), 2),
        (MouseEventKind::Drag(MouseButton::Left), 32),
        (MouseEventKind::Moved, 35),
        (MouseEventKind::ScrollUp, 64),
        (MouseEventKind::ScrollDown, 65),
    ];

    for (kind, expected_cb) in cases {
        let encoded = encode_mouse_sgr(&mouse(kind, 0, 0, KeyModifiers::NONE), true);
        let expected = format!("\x1b[<{};1;1M", expected_cb).into_bytes();
        assert_eq!(encoded, expected, "wrong encoding for {kind:?}");
    }
}

#[test]
fn encodes_modifiers_into_the_button_byte() {
    let shift = mouse(MouseEventKind::Down(MouseButton::Left), 0, 0, KeyModifiers::SHIFT);
    assert_eq!(encode_mouse_sgr(&shift, true), b"\x1b[<4;1;1M".to_vec());

    let all = mouse(
        MouseEventKind::Down(MouseButton::Left),
        0,
        0,
        KeyModifiers::SHIFT | KeyModifiers::ALT | KeyModifiers::CONTROL,
    );
    assert_eq!(encode_mouse_sgr(&all, true), b"\x1b[<28;1;1M".to_vec());
}

#[test]
fn coordinates_are_one_based() {
    let m = mouse(MouseEventKind::Down(MouseButton::Left), 10, 20, KeyModifiers::NONE);
    assert_eq!(encode_mouse_sgr(&m, true), b"\x1b[<0;11;21M".to_vec());
}

#[test]
fn clicks_in_quick_succession_pick_words_then_lines() {
    let mut clicks = ClickTracker::new();
    let down = mouse(MouseEventKind::Down(MouseButton::Left), 3, 2, KeyModifiers::NONE);
    let first = process_mouse_event(down, &mut clicks, 1_000_000_000);
    assert_eq!(first, EventAction::SelectStart { row: 2, col: 3, mode: SelectMode::Normal });
    let second = process_mouse_event(down, &mut clicks, 1_100_000_000);
    assert_eq!(second, EventAction::SelectStart { row: 2, col: 3, mode: SelectMode::Word });
    let third = process_mouse_event(down, &mut clicks, 1_200_000_000);
    assert_eq!(third, EventAction::SelectStart { row: 2, col: 3, mode: SelectMode::Triple });
    // Long after the last click, counting starts again.
    let later = process_mouse_event(down, &mut clicks, 9_000_000_000);
    assert_eq!(later, EventAction::SelectStart { row: 2, col: 3, mode: SelectMode::Normal });
}

#[test]
fn paste_events_are_bracketed_and_resizes_pass_through() {
    let mut st = fresh();
    let mut clicks = ClickTracker::new();
    let pasted = process_event(Event::Paste("hi".to_string()), &mut st, &mut clicks, 0);
    assert_eq!(pasted, EventAction::SendToPty(b"\x1b[200~hi\x1b[201~".to_vec()));
    let resized = process_event(Event::Resize(100, 40), &mut st, &mut clicks, 0);
    assert_eq!(resized, EventAction::Resize(100, 40));
    let focus = process_event(Event::FocusGained, &mut st, &mut clicks, 0);
    assert_eq!(focus, EventAction::NoAction);
}
