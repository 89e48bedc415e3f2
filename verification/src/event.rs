//! Turning host-terminal input into actions: bytes for the pane's pty, or
//! multiplexer commands.
//!
//! The prefix key (`Option+C`, `Alt+C` on Linux) enters command mode, where
//! the next key picks a command: `-` and `p` split, `w` closes the pane, the
//! arrows or `h`/`j`/`k`/`l` move between panes, `n`/`x` make and close
//! windows, `]`/`'` switch windows, `1`-`9` and `0` select one, `q` quits and
//! `c` sends the prefix character itself; any other key cancels.

use vstd::prelude::*;
use vstd::string::StringSliceAdditionalSpecFns;

use crate::config::bindings::{first_match, KeyBindings};
use crate::config::keys::{ascii_lower, key_matches, to_ascii_lower, ParsedKey};
use crate::config::sections::Config;
use crate::input::{Event, KeyCode, KeyEvent, KeyModifiers, MouseButton, MouseEvent, MouseEventKind};
use crate::text::{decimal, str_eq};

verus! {

/// Direction for pane navigation.
#[derive(Clone, Copy, Debug, PartialEq, Eq, Structural)]
pub enum PaneDirection {
    Up,
    Down,
    Left,
    Right,
}

/// Selection granularity chosen by the number of clicks.
#[derive(Clone, Copy, Debug, PartialEq, Eq, Structural)]
pub enum SelectMode {
    /// Single click: character selection.
    Normal,
    /// Double click: word selection.
    Word,
    /// Triple click: line selection.
    Triple,
}

/// Result of processing an input event.
#[derive(Debug, Clone, PartialEq, Eq)]
pub enum EventAction {
    /// Send bytes to the pty.
    SendToPty(Vec<u8>),
    /// The terminal was resized.
    Resize(u16, u16),
    /// Scroll the viewport by lines (negative is up).
    Scroll(i32),
    /// Start a mouse selection.
    SelectStart { row: u16, col: u16, mode: SelectMode },
    /// Extend the current selection.
    SelectExtend { row: u16, col: u16 },
    /// End the selection (button released).
    SelectEnd { row: u16, col: u16 },
    /// Ctrl+click on a cell (to open a hyperlink).
    CtrlClick { row: u16, col: u16 },
    /// Paste from the clipboard.
    Paste,
    /// Split the pane horizontally (new pane below).
    SplitHorizontal,
    /// Split the pane vertically (new pane to the right).
    SplitVertical,
    /// Close the focused pane.
    ClosePane,
    /// Move focus to the pane in a direction.
    NavigatePane(PaneDirection),
    /// Focus the pane at a screen position.
    FocusPaneAt { row: u16, col: u16 },
    NewWindow,
    CloseWindow,
    NextWindow,
    PrevWindow,
    /// Select a window by index (0 is window 1, 9 is window 10).
    SelectWindow(usize),
    /// Exit the application.
    Exit,
    /// Nothing to do.
    NoAction,
}

/// What an input amounts to: bytes for the pty, or another action.
#[verifier::ext_equal]
pub enum Outcome {
    Send(Seq<u8>),
    Do(EventAction),
}

/// Whether `r` is the outcome `o`.
pub open spec fn is_outcome(r: EventAction, o: Outcome) -> bool {
    match o {
        Outcome::Send(b) => r matches EventAction::SendToPty(v) && v@ =~= b,
        Outcome::Do(a) => r == a,
    }
}

/// Input state across events: whether the prefix key was just pressed, and
/// whether Super+V pastes (the platform's convention).
#[derive(Clone, Copy, Debug, PartialEq, Eq, Structural)]
pub struct InputState {
    pub command_mode: bool,
    pub super_pastes: bool,
}

impl InputState {
    /// Not in command mode.
    pub fn new(super_pastes: bool) -> (s: InputState)
        ensures
            s == (InputState { command_mode: false, super_pastes }),
    {
        InputState { command_mode: false, super_pastes }
    }
}

/// Whether the prefix key was pressed and the next key is a command.
pub fn is_command_mode(state: &InputState) -> (b: bool)
    ensures
        b == state.command_mode,
{
    state.command_mode
}

/// The UTF-8 bytes of `ç`, which Option+C types on macOS.
pub open spec fn cedilla_bytes() -> Seq<u8> {
    seq![0xc3u8, 0xa7u8]
}

/// The action of a command key (after the prefix).
pub open spec fn command_key(code: KeyCode) -> Outcome {
    match code {
        KeyCode::Char('-') => Outcome::Do(EventAction::SplitHorizontal),
        KeyCode::Char('p') | KeyCode::Char('P') => Outcome::Do(EventAction::SplitVertical),
        KeyCode::Char('w') | KeyCode::Char('W') => Outcome::Do(EventAction::ClosePane),
        KeyCode::Up => Outcome::Do(EventAction::NavigatePane(PaneDirection::Up)),
        KeyCode::Down => Outcome::Do(EventAction::NavigatePane(PaneDirection::Down)),
        KeyCode::Left => Outcome::Do(EventAction::NavigatePane(PaneDirection::Left)),
        KeyCode::Right => Outcome::Do(EventAction::NavigatePane(PaneDirection::Right)),
        KeyCode::Char('h') | KeyCode::Char('H') => Outcome::Do(EventAction::NavigatePane(PaneDirection::Left)),
        KeyCode::Char('j') | KeyCode::Char('J') => Outcome::Do(EventAction::NavigatePane(PaneDirection::Down)),
        KeyCode::Char('k') | KeyCode::Char('K') => Outcome::Do(EventAction::NavigatePane(PaneDirection::Up)),
        KeyCode::Char('l') | KeyCode::Char('L') => Outcome::Do(EventAction::NavigatePane(PaneDirection::Right)),
        KeyCode::Char('n') | KeyCode::Char('N') => Outcome::Do(EventAction::NewWindow),
        KeyCode::Char('x') | KeyCode::Char('X') => Outcome::Do(EventAction::CloseWindow),
        KeyCode::Char(']') => Outcome::Do(EventAction::NextWindow),
        KeyCode::Char('\'') | KeyCode::Char('[') => Outcome::Do(EventAction::PrevWindow),
        KeyCode::Char('1') => Outcome::Do(EventAction::SelectWindow(0)),
        KeyCode::Char('2') => Outcome::Do(EventAction::SelectWindow(1)),
        KeyCode::Char('3') => Outcome::Do(EventAction::SelectWindow(2)),
        KeyCode::Char('4') => Outcome::Do(EventAction::SelectWindow(3)),
        KeyCode::Char('5') => Outcome::Do(EventAction::SelectWindow(4)),
        KeyCode::Char('6') => Outcome::Do(EventAction::SelectWindow(5)),
        KeyCode::Char('7') => Outcome::Do(EventAction::SelectWindow(6)),
        KeyCode::Char('8') => Outcome::Do(EventAction::SelectWindow(7)),
        KeyCode::Char('9') => Outcome::Do(EventAction::SelectWindow(8)),
        KeyCode::Char('0') => Outcome::Do(EventAction::SelectWindow(9)),
        KeyCode::Char('q') | KeyCode::Char('Q') => Outcome::Do(EventAction::Exit),
        KeyCode::Char('c') | KeyCode::Char('C') => Outcome::Send(cedilla_bytes()),
        _ => Outcome::Do(EventAction::NoAction),
    }
}

/// The action of a command key (after the prefix).
pub fn process_command_key(code: KeyCode) -> (r: EventAction)
    ensures
        is_outcome(r, command_key(code)),
{
    match code {
        KeyCode::Char('-') => EventAction::SplitHorizontal,
        KeyCode::Char('p') | KeyCode::Char('P') => EventAction::SplitVertical,
        KeyCode::Char('w') | KeyCode::Char('W') => EventAction::ClosePane,
        KeyCode::Up => EventAction::NavigatePane(PaneDirection::Up),
        KeyCode::Down => EventAction::NavigatePane(PaneDirection::Down),
        KeyCode::Left => EventAction::NavigatePane(PaneDirection::Left),
        KeyCode::Right => EventAction::NavigatePane(PaneDirection::Right),
        KeyCode::Char('h') | KeyCode::Char('H') => EventAction::NavigatePane(PaneDirection::Left),
        KeyCode::Char('j') | KeyCode::Char('J') => EventAction::NavigatePane(PaneDirection::Down),
        KeyCode::Char('k') | KeyCode::Char('K') => EventAction::NavigatePane(PaneDirection::Up),
        KeyCode::Char('l') | KeyCode::Char('L') => EventAction::NavigatePane(PaneDirection::Right),
        KeyCode::Char('n') | KeyCode::Char('N') => EventAction::NewWindow,
        KeyCode::Char('x') | KeyCode::Char('X') => EventAction::CloseWindow,
        KeyCode::Char(']') => EventAction::NextWindow,
        KeyCode::Char('\'') | KeyCode::Char('[') => EventAction::PrevWindow,
        KeyCode::Char('1') => EventAction::SelectWindow(0),
        KeyCode::Char('2') => EventAction::SelectWindow(1),
        KeyCode::Char('3') => EventAction::SelectWindow(2),
        KeyCode::Char('4') => EventAction::SelectWindow(3),
        KeyCode::Char('5') => EventAction::SelectWindow(4),
        KeyCode::Char('6') => EventAction::SelectWindow(5),
        KeyCode::Char('7') => EventAction::SelectWindow(6),
        KeyCode::Char('8') => EventAction::SelectWindow(7),
        KeyCode::Char('9') => EventAction::SelectWindow(8),
        KeyCode::Char('0') => EventAction::SelectWindow(9),
        KeyCode::Char('q') | KeyCode::Char('Q') => EventAction::Exit,
        KeyCode::Char('c') | KeyCode::Char('C') => EventAction::SendToPty(vec![0xc3u8, 0xa7u8]),
        _ => EventAction::NoAction,
    }
}

/// The UTF-8 encoding of one character.
pub open spec fn char_bytes(c: char) -> Seq<u8> {
    vstd::utf8::encode_scalar(c as u32)
}

/// The escape sequence of an arrow key (`fin` is its final byte), with the
/// modifier parameter of Ctrl, else Shift, else Alt.
pub open spec fn arrow(fin: u8, ctrl: bool, shift: bool, alt: bool) -> Seq<u8> {
    if ctrl {
        seq![0x1bu8, 0x5b, 0x31, 0x3b, 0x35, fin]
    } else if shift {
        seq![0x1bu8, 0x5b, 0x31, 0x3b, 0x32, fin]
    } else if alt {
        seq![0x1bu8, 0x5b, 0x31, 0x3b, 0x33, fin]
    } else {
        seq![0x1bu8, 0x5b, fin]
    }
}

/// `ESC [ n ~`.
pub open spec fn tilde_key(n: Seq<u8>) -> Seq<u8> {
    seq![0x1bu8, 0x5b] + n + seq![0x7eu8]
}

/// The bytes of a character key with the given modifiers.
pub open spec fn char_outcome(c: char, ctrl: bool, alt: bool, shift: bool) -> Outcome {
    if c == 'd' && ctrl && !alt && !shift {
        Outcome::Send(seq![0x04u8])
    } else if c == 'c' && ctrl && !alt && !shift {
        Outcome::Send(seq![0x03u8])
    } else if c == 'z' && ctrl && !alt && !shift {
        Outcome::Send(seq![0x1au8])
    } else if c == '\\' && ctrl && !alt && !shift {
        Outcome::Send(seq![0x1cu8])
    } else if ctrl && !alt {
        let l = ascii_lower(c);
        if 'a' <= l <= 'z' {
            Outcome::Send(seq![((l as u32) - 96) as u8])
        } else {
            Outcome::Do(EventAction::NoAction)
        }
    } else if alt && !ctrl {
        Outcome::Send(seq![0x1bu8] + char_bytes(c))
    } else {
        Outcome::Send(char_bytes(c))
    }
}

/// The bytes or action of a key outside command mode: control characters
/// (Ctrl+D, Ctrl+C, Ctrl+Z, Ctrl+\ and Ctrl+letter), ESC before a character
/// with Alt, the character's UTF-8 bytes, and the escape sequences of the
/// special keys; with `shift_pages`, Shift+PageUp and Shift+PageDown scroll
/// instead.
pub open spec fn key_bytes(key: KeyEvent, shift_pages: bool) -> Outcome {
    let ctrl = key.modifiers.has(KeyModifiers::CONTROL);
    let alt = key.modifiers.has(KeyModifiers::ALT);
    let shift = key.modifiers.has(KeyModifiers::SHIFT);
    match key.code {
        KeyCode::Char(c) => char_outcome(c, ctrl, alt, shift),
        KeyCode::Enter => Outcome::Send(seq![0x0du8]),
        KeyCode::Backspace => Outcome::Send(seq![0x7fu8]),
        KeyCode::Tab => Outcome::Send(seq![0x09u8]),
        KeyCode::BackTab => Outcome::Send(seq![0x1bu8, 0x5b, 0x5a]),
        KeyCode::Esc => Outcome::Send(seq![0x1bu8]),
        KeyCode::Up => Outcome::Send(arrow(0x41, ctrl, shift, alt)),
        KeyCode::Down => Outcome::Send(arrow(0x42, ctrl, shift, alt)),
        KeyCode::Right => Outcome::Send(arrow(0x43, ctrl, shift, alt)),
        KeyCode::Left => Outcome::Send(arrow(0x44, ctrl, shift, alt)),
        KeyCode::Home => Outcome::Send(if ctrl { seq![0x1bu8, 0x5b, 0x31, 0x3b, 0x35, 0x48] } else { seq![0x1bu8, 0x5b, 0x48] }),
        KeyCode::End => Outcome::Send(if ctrl { seq![0x1bu8, 0x5b, 0x31, 0x3b, 0x35, 0x46] } else { seq![0x1bu8, 0x5b, 0x46] }),
        KeyCode::PageUp => if shift_pages && shift {
            Outcome::Do(EventAction::Scroll(-10i32))
        } else {
            Outcome::Send(tilde_key(seq![0x35u8]))
        },
        KeyCode::PageDown => if shift_pages && shift {
            Outcome::Do(EventAction::Scroll(10i32))
        } else {
            Outcome::Send(tilde_key(seq![0x36u8]))
        },
        KeyCode::Insert => Outcome::Send(tilde_key(seq![0x32u8])),
        KeyCode::Delete => Outcome::Send(tilde_key(seq![0x33u8])),
        KeyCode::F(n) => if n == 1 {
            Outcome::Send(seq![0x1bu8, 0x4f, 0x50])
        } else if n == 2 {
            Outcome::Send(seq![0x1bu8, 0x4f, 0x51])
        } else if n == 3 {
            Outcome::Send(seq![0x1bu8, 0x4f, 0x52])
        } else if n == 4 {
            Outcome::Send(seq![0x1bu8, 0x4f, 0x53])
        } else if n == 5 {
            Outcome::Send(tilde_key(seq![0x31u8, 0x35]))
        } else if n == 6 {
            Outcome::Send(tilde_key(seq![0x31u8, 0x37]))
        } else if n == 7 {
            Outcome::Send(tilde_key(seq![0x31u8, 0x38]))
        } else if n == 8 {
            Outcome::Send(tilde_key(seq![0x31u8, 0x39]))
        } else if n == 9 {
            Outcome::Send(tilde_key(seq![0x32u8, 0x30]))
        } else if n == 10 {
            Outcome::Send(tilde_key(seq![0x32u8, 0x31]))
        } else if n == 11 {
            Outcome::Send(tilde_key(seq![0x32u8, 0x33]))
        } else if n == 12 {
            Outcome::Send(tilde_key(seq![0x32u8, 0x34]))
        } else {
            Outcome::Do(EventAction::NoAction)
        },
        _ => Outcome::Do(EventAction::NoAction),
    }
}

/// The UTF-8 encoding of one character.
pub fn encode_char(c: char) -> (v: Vec<u8>)
    ensures
        v@ == char_bytes(c),
{
    let s = c as u32;
    let mut v: Vec<u8> = Vec::new();
    if s <= 0x7f {
        v.push((s & 0x7f) as u8);
    } else if s <= 0x7ff {
        v.push(0xc0 | ((s >> 6) & 0x1f) as u8);
        v.push(0x80 | (s & 0x3f) as u8);
    } else if s <= 0xffff {
        v.push(0xe0 | ((s >> 12) & 0x0f) as u8);
        v.push(0x80 | ((s >> 6) & 0x3f) as u8);
        v.push(0x80 | (s & 0x3f) as u8);
    } else {
        v.push(0xf0 | ((s >> 18) & 0x7) as u8);
        v.push(0x80 | ((s >> 12) & 0x3f) as u8);
        v.push(0x80 | ((s >> 6) & 0x3f) as u8);
        v.push(0x80 | (s & 0x3f) as u8);
    }
    assert(v@ =~= char_bytes(c));
    v
}

fn arrow_bytes(fin: u8, ctrl: bool, shift: bool, alt: bool) -> (v: Vec<u8>)
    ensures
        v@ == arrow(fin, ctrl, shift, alt),
{
    let v = if ctrl {
        vec![0x1bu8, 0x5b, 0x31, 0x3b, 0x35, fin]
    } else if shift {
        vec![0x1bu8, 0x5b, 0x31, 0x3b, 0x32, fin]
    } else if alt {
        vec![0x1bu8, 0x5b, 0x31, 0x3b, 0x33, fin]
    } else {
        vec![0x1bu8, 0x5b, fin]
    };
    assert(v@ =~= arrow(fin, ctrl, shift, alt));
    v
}

/// The bytes of a character key with the given modifiers.
fn char_key(c: char, ctrl: bool, alt: bool, shift: bool) -> (r: EventAction)
    ensures
        is_outcome(r, char_outcome(c, ctrl, alt, shift)),
{
    if c == 'd' && ctrl && !alt && !shift {
        let v = vec![0x04u8];
        assert(v@ =~= seq![0x04u8]);
        EventAction::SendToPty(v)
    } else if c == 'c' && ctrl && !alt && !shift {
        let v = vec![0x03u8];
        assert(v@ =~= seq![0x03u8]);
        EventAction::SendToPty(v)
    } else if c == 'z' && ctrl && !alt && !shift {
        let v = vec![0x1au8];
        assert(v@ =~= seq![0x1au8]);
        EventAction::SendToPty(v)
    } else if c == '\\' && ctrl && !alt && !shift {
        let v = vec![0x1cu8];
        assert(v@ =~= seq![0x1cu8]);
        EventAction::SendToPty(v)
    } else if ctrl && !alt {
        let l = to_ascii_lower(c);
        if 'a' <= l && l <= 'z' {
            let b = ((l as u32) - 96) as u8;
            let v = vec![b];
            assert(v@ =~= seq![((l as u32) - 96) as u8]);
            EventAction::SendToPty(v)
        } else {
            EventAction::NoAction
        }
    } else if alt && !ctrl {
        let mut v: Vec<u8> = Vec::new();
        v.push(0x1b);
        let mut e = encode_char(c);
        v.append(&mut e);
        assert(v@ =~= seq![0x1bu8] + char_bytes(c));
        EventAction::SendToPty(v)
    } else {
        EventAction::SendToPty(encode_char(c))
    }
}

/// The bytes or action of a key outside command mode.
fn key_to_bytes(key: KeyEvent, shift_pages: bool) -> (r: EventAction)
    ensures
        is_outcome(r, key_bytes(key, shift_pages)),
{
    let ctrl = key.modifiers.contains(KeyModifiers::CONTROL);
    let alt = key.modifiers.contains(KeyModifiers::ALT);
    let shift = key.modifiers.contains(KeyModifiers::SHIFT);
    match key.code {
        KeyCode::Char(c) => {
            let r = char_key(c, ctrl, alt, shift);
            assert(key_bytes(key, shift_pages) == char_outcome(c, ctrl, alt, shift));
            r
        },
        KeyCode::Enter => EventAction::SendToPty(vec![0x0du8]),
        KeyCode::Backspace => EventAction::SendToPty(vec![0x7fu8]),
        KeyCode::Tab => EventAction::SendToPty(vec![0x09u8]),
        KeyCode::BackTab => EventAction::SendToPty(vec![0x1bu8, 0x5b, 0x5a]),
        KeyCode::Esc => EventAction::SendToPty(vec![0x1bu8]),
        KeyCode::Up => EventAction::SendToPty(arrow_bytes(0x41, ctrl, shift, alt)),
        KeyCode::Down => EventAction::SendToPty(arrow_bytes(0x42, ctrl, shift, alt)),
        KeyCode::Right => EventAction::SendToPty(arrow_bytes(0x43, ctrl, shift, alt)),
        KeyCode::Left => EventAction::SendToPty(arrow_bytes(0x44, ctrl, shift, alt)),
        KeyCode::Home => {
            if ctrl {
                EventAction::SendToPty(vec![0x1bu8, 0x5b, 0x31, 0x3b, 0x35, 0x48])
            } else {
                EventAction::SendToPty(vec![0x1bu8, 0x5b, 0x48])
            }
        },
        KeyCode::End => {
            if ctrl {
                EventAction::SendToPty(vec![0x1bu8, 0x5b, 0x31, 0x3b, 0x35, 0x46])
            } else {
                EventAction::SendToPty(vec![0x1bu8, 0x5b, 0x46])
            }
        },
        KeyCode::PageUp => {
            if shift_pages && shift {
                EventAction::Scroll(-10)
            } else {
                EventAction::SendToPty(vec![0x1bu8, 0x5b, 0x35, 0x7e])
            }
        },
        KeyCode::PageDown => {
            if shift_pages && shift {
                EventAction::Scroll(10)
            } else {
                EventAction::SendToPty(vec![0x1bu8, 0x5b, 0x36, 0x7e])
            }
        },
        KeyCode::Insert => EventAction::SendToPty(vec![0x1bu8, 0x5b, 0x32, 0x7e]),
        KeyCode::Delete => EventAction::SendToPty(vec![0x1bu8, 0x5b, 0x33, 0x7e]),
        KeyCode::F(n) => {
            if n == 1 {
                EventAction::SendToPty(vec![0x1bu8, 0x4f, 0x50])
            } else if n == 2 {
                EventAction::SendToPty(vec![0x1bu8, 0x4f, 0x51])
            } else if n == 3 {
                EventAction::SendToPty(vec![0x1bu8, 0x4f, 0x52])
            } else if n == 4 {
                EventAction::SendToPty(vec![0x1bu8, 0x4f, 0x53])
            } else if n == 5 {
                EventAction::SendToPty(vec![0x1bu8, 0x5b, 0x31, 0x35, 0x7e])
            } else if n == 6 {
                EventAction::SendToPty(vec![0x1bu8, 0x5b, 0x31, 0x37, 0x7e])
            } else if n == 7 {
                EventAction::SendToPty(vec![0x1bu8, 0x5b, 0x31, 0x38, 0x7e])
            } else if n == 8 {
                EventAction::SendToPty(vec![0x1bu8, 0x5b, 0x31, 0x39, 0x7e])
            } else if n == 9 {
                EventAction::SendToPty(vec![0x1bu8, 0x5b, 0x32, 0x30, 0x7e])
            } else if n == 10 {
                EventAction::SendToPty(vec![0x1bu8, 0x5b, 0x32, 0x31, 0x7e])
            } else if n == 11 {
                EventAction::SendToPty(vec![0x1bu8, 0x5b, 0x32, 0x33, 0x7e])
            } else if n == 12 {
                EventAction::SendToPty(vec![0x1bu8, 0x5b, 0x32, 0x34, 0x7e])
            } else {
                EventAction::NoAction
            }
        },
        _ => EventAction::NoAction,
    }
}

/// The bytes or action of a key for the pty (shared by both key paths):
/// Shift+PageUp and Shift+PageDown are sent through like other keys.
pub fn process_standard_key(key: KeyEvent) -> (r: EventAction)
    ensures
        is_outcome(r, key_bytes(key, false)),
{
    key_to_bytes(key, false)
}

/// Whether Super+V (where the platform pastes with it) or Ctrl+Shift+V was
/// pressed: the built-in paste.
pub open spec fn is_paste_key(key: KeyEvent, super_pastes: bool) -> bool {
    (super_pastes && key.modifiers.has(KeyModifiers::SUPER) && key.code == KeyCode::Char('v')) || (
    key.modifiers.has(KeyModifiers::CONTROL) && key.modifiers.has(KeyModifiers::SHIFT) && key.code
        == KeyCode::Char('V'))
}

/// Processing a key with the built-in bindings: in command mode the key is a
/// command and command mode ends; Alt+C (or `ç` with Alt) enters command
/// mode; the paste keys paste; anything else goes to the pty, Shift+PageUp
/// and Shift+PageDown scrolling instead.
pub open spec fn key_event_outcome(key: KeyEvent, st: InputState) -> (Outcome, bool) {
    let ctrl = key.modifiers.has(KeyModifiers::CONTROL);
    let alt = key.modifiers.has(KeyModifiers::ALT);
    let shift = key.modifiers.has(KeyModifiers::SHIFT);
    if st.command_mode {
        (command_key(key.code), false)
    } else if alt && !ctrl && !shift && (key.code == KeyCode::Char('c') || key.code == KeyCode::Char('\u{e7}')) {
        (Outcome::Do(EventAction::NoAction), true)
    } else if is_paste_key(key, st.super_pastes) {
        (Outcome::Do(EventAction::Paste), false)
    } else {
        (key_bytes(key, true), false)
    }
}

/// Process a key with the built-in bindings.
pub fn process_key_event(key: KeyEvent, state: &mut InputState) -> (r: EventAction)
    ensures
        is_outcome(r, key_event_outcome(key, *old(state)).0),
        final(state).command_mode == key_event_outcome(key, *old(state)).1,
        final(state).super_pastes == old(state).super_pastes,
{
    let ctrl = key.modifiers.contains(KeyModifiers::CONTROL);
    let alt = key.modifiers.contains(KeyModifiers::ALT);
    let shift = key.modifiers.contains(KeyModifiers::SHIFT);
    let super_key = state.super_pastes && key.modifiers.contains(KeyModifiers::SUPER);
    if state.command_mode {
        state.command_mode = false;
        return process_command_key(key.code);
    }
    if alt && !ctrl && !shift && (key.code == KeyCode::Char('c') || key.code == KeyCode::Char('\u{e7}')) {
        state.command_mode = true;
        return EventAction::NoAction;
    }
    if (super_key && key.code == KeyCode::Char('v')) || (ctrl && shift && key.code == KeyCode::Char('V')) {
        return EventAction::Paste;
    }
    key_to_bytes(key, true)
}

/// The bytes of a bracketed paste of `text`.
pub open spec fn bracketed(text: Seq<u8>) -> Seq<u8> {
    seq![0x1bu8, 0x5b, 0x32, 0x30, 0x30, 0x7e] + text + seq![0x1bu8, 0x5b, 0x32, 0x30, 0x31, 0x7e]
}

/// Wrap pasted text in bracketed-paste markers.
fn bracketed_paste(text: &str) -> (v: Vec<u8>)
    ensures
        v@ == bracketed(text.spec_bytes()),
{
    let mut v: Vec<u8> = vec![0x1bu8, 0x5b, 0x32, 0x30, 0x30, 0x7e];
    let bytes = text.as_bytes();
    let ghost start = v@;
    let mut i: usize = 0;
    while i < bytes.len()
        invariant
            i <= bytes@.len(),
            v@ == start + bytes@.take(i as int),
        decreases bytes@.len() - i,
    {
        v.push(bytes[i]);
        i = i + 1;
        assert(v@ =~= start + bytes@.take(i as int));
    }
    assert(bytes@.take(i as int) =~= bytes@);
    let mut tail: Vec<u8> = vec![0x1bu8, 0x5b, 0x32, 0x30, 0x31, 0x7e];
    v.append(&mut tail);
    assert(v@ =~= bracketed(text.spec_bytes()));
    v
}

/// Double and triple clicks: the last left click, when and where it was, and
/// how many clicks it completed.
#[derive(Clone, Copy, Debug, PartialEq, Eq)]
pub struct ClickTracker {
    pub last: Option<(u64, u16, u16, u8)>,
}

/// Clicks closer together than this many milliseconds count as one gesture.
pub const MULTI_CLICK_THRESHOLD_MS: u64 = 400;

impl ClickTracker {
    /// No click yet.
    pub fn new() -> (t: ClickTracker)
        ensures
            t.last is None,
    {
        ClickTracker { last: None }
    }
}

/// The click count of a left click at `now_ns` nanoseconds: one more (of
/// three, then starting over) than the last click when it was less than the
/// threshold ago on the same row within two columns, else one.
pub open spec fn click_count(last: Option<(u64, u16, u16, u8)>, now_ns: u64, row: u16, col: u16) -> u8 {
    match last {
        Some((t, r, c, n)) => {
            let elapsed = if now_ns >= t { now_ns - t } else { 0 };
            let dc = c - col;
            if elapsed / 1000000 < MULTI_CLICK_THRESHOLD_MS && r == row && -2 <= dc <= 2 {
                ((n % 3) + 1) as u8
            } else {
                1
            }
        },
        None => 1,
    }
}

/// The action of a mouse event: the wheel scrolls by three lines; a left
/// click starts a selection (by character, word or line for one, two or three
/// clicks) or with Ctrl is a Ctrl+click; a left drag extends and a left
/// release ends the selection; the middle button pastes.
pub open spec fn mouse_outcome(m: MouseEvent, last: Option<(u64, u16, u16, u8)>, now_ns: u64) -> (EventAction, Option<(u64, u16, u16, u8)>) {
    match m.kind {
        MouseEventKind::ScrollUp => (EventAction::Scroll(-3i32), last),
        MouseEventKind::ScrollDown => (EventAction::Scroll(3i32), last),
        MouseEventKind::Down(MouseButton::Left) => if m.modifiers.has(KeyModifiers::CONTROL) {
            (EventAction::CtrlClick { row: m.row, col: m.column }, last)
        } else {
            let n = click_count(last, now_ns, m.row, m.column);
            let mode = if n == 2 {
                SelectMode::Word
            } else if n == 3 {
                SelectMode::Triple
            } else {
                SelectMode::Normal
            };
            (EventAction::SelectStart { row: m.row, col: m.column, mode }, Some((now_ns, m.row, m.column, n)))
        },
        MouseEventKind::Drag(MouseButton::Left) => (EventAction::SelectExtend { row: m.row, col: m.column }, last),
        MouseEventKind::Up(MouseButton::Left) => (EventAction::SelectEnd { row: m.row, col: m.column }, last),
        MouseEventKind::Down(MouseButton::Middle) => (EventAction::Paste, last),
        _ => (EventAction::NoAction, last),
    }
}

/// Process a mouse event at time `now_ns` (nanoseconds on a monotonic clock).
pub fn process_mouse_event(mouse: MouseEvent, clicks: &mut ClickTracker, now_ns: u64) -> (r: EventAction)
    ensures
        r == mouse_outcome(mouse, old(clicks).last, now_ns).0,
        final(clicks).last == mouse_outcome(mouse, old(clicks).last, now_ns).1,
{
    match mouse.kind {
        MouseEventKind::ScrollUp => EventAction::Scroll(-3),
        MouseEventKind::ScrollDown => EventAction::Scroll(3),
        MouseEventKind::Down(MouseButton::Left) => {
            let row = mouse.row;
            let col = mouse.column;
            if mouse.modifiers.contains(KeyModifiers::CONTROL) {
                return EventAction::CtrlClick { row, col };
            }
            let count: u8 = match clicks.last {
                Some((t, r, c, n)) => {
                    let elapsed = if now_ns >= t {
                        now_ns - t
                    } else {
                        0
                    };
                    let dc = c as i32 - col as i32;
                    if elapsed / 1000000 < MULTI_CLICK_THRESHOLD_MS && r == row && -2 <= dc && dc <= 2 {
                        (n % 3) + 1
                    } else {
                        1
                    }
                },
                None => 1,
            };
            clicks.last = Some((now_ns, row, col, count));
            let mode = if count == 2 {
                SelectMode::Word
            } else if count == 3 {
                SelectMode::Triple
            } else {
                SelectMode::Normal
            };
            EventAction::SelectStart { row, col, mode }
        },
        MouseEventKind::Drag(MouseButton::Left) => EventAction::SelectExtend { row: mouse.row, col: mouse.column },
        MouseEventKind::Up(MouseButton::Left) => EventAction::SelectEnd { row: mouse.row, col: mouse.column },
        MouseEventKind::Down(MouseButton::Middle) => EventAction::Paste,
        _ => EventAction::NoAction,
    }
}

/// Process an event with the built-in bindings.
pub fn process_event(event: Event, state: &mut InputState, clicks: &mut ClickTracker, now_ns: u64) -> (r: EventAction)
    ensures
        event matches Event::Key(k) ==> is_outcome(r, key_event_outcome(k, *old(state)).0)
            && final(state).command_mode == key_event_outcome(k, *old(state)).1 && *final(clicks) == *old(clicks),
        event matches Event::Mouse(m) ==> r == mouse_outcome(m, old(clicks).last, now_ns).0 && final(clicks).last
            == mouse_outcome(m, old(clicks).last, now_ns).1 && *final(state) == *old(state),
        event matches Event::Resize(c, w) ==> r == EventAction::Resize(c, w) && *final(state) == *old(state) && *final(clicks) == *old(clicks),
        (event is FocusGained || event is FocusLost) ==> r == EventAction::NoAction && *final(state) == *old(state) && *final(clicks) == *old(clicks),
        event matches Event::Paste(t) ==> (r matches EventAction::SendToPty(v) && v@ == bracketed(crate::text::utf8(t@))) && *final(state) == *old(state) && *final(clicks) == *old(clicks),
{
    match event {
        Event::Key(key) => process_key_event(key, state),
        Event::Mouse(mouse) => process_mouse_event(mouse, clicks, now_ns),
        Event::Resize(cols, rows) => EventAction::Resize(cols, rows),
        Event::FocusGained | Event::FocusLost => EventAction::NoAction,
        Event::Paste(text) => EventAction::SendToPty(bracketed_paste(text.as_str())),
    }
}

/// The action an action name in the key tables stands for; an unknown name
/// stands for nothing.
pub open spec fn name_action(name: Seq<char>) -> Outcome {
    if name == "split_horizontal"@ {
        Outcome::Do(EventAction::SplitHorizontal)
    } else if name == "split_vertical"@ {
        Outcome::Do(EventAction::SplitVertical)
    } else if name == "close_pane"@ {
        Outcome::Do(EventAction::ClosePane)
    } else if name == "navigate_up"@ {
        Outcome::Do(EventAction::NavigatePane(PaneDirection::Up))
    } else if name == "navigate_down"@ {
        Outcome::Do(EventAction::NavigatePane(PaneDirection::Down))
    } else if name == "navigate_left"@ {
        Outcome::Do(EventAction::NavigatePane(PaneDirection::Left))
    } else if name == "navigate_right"@ {
        Outcome::Do(EventAction::NavigatePane(PaneDirection::Right))
    } else if name == "new_window"@ {
        Outcome::Do(EventAction::NewWindow)
    } else if name == "close_window"@ {
        Outcome::Do(EventAction::CloseWindow)
    } else if name == "next_window"@ {
        Outcome::Do(EventAction::NextWindow)
    } else if name == "prev_window"@ {
        Outcome::Do(EventAction::PrevWindow)
    } else if name == "select_window_1"@ {
        Outcome::Do(EventAction::SelectWindow(0))
    } else if name == "select_window_2"@ {
        Outcome::Do(EventAction::SelectWindow(1))
    } else if name == "select_window_3"@ {
        Outcome::Do(EventAction::SelectWindow(2))
    } else if name == "select_window_4"@ {
        Outcome::Do(EventAction::SelectWindow(3))
    } else if name == "select_window_5"@ {
        Outcome::Do(EventAction::SelectWindow(4))
    } else if name == "select_window_6"@ {
        Outcome::Do(EventAction::SelectWindow(5))
    } else if name == "select_window_7"@ {
        Outcome::Do(EventAction::SelectWindow(6))
    } else if name == "select_window_8"@ {
        Outcome::Do(EventAction::SelectWindow(7))
    } else if name == "select_window_9"@ {
        Outcome::Do(EventAction::SelectWindow(8))
    } else if name == "select_window_10"@ {
        Outcome::Do(EventAction::SelectWindow(9))
    } else if name == "quit"@ {
        Outcome::Do(EventAction::Exit)
    } else if name == "send_prefix"@ {
        Outcome::Send(cedilla_bytes())
    } else if name == "scroll_up"@ {
        Outcome::Do(EventAction::Scroll(-10i32))
    } else if name == "scroll_down"@ {
        Outcome::Do(EventAction::Scroll(10i32))
    } else if name == "paste"@ {
        Outcome::Do(EventAction::Paste)
    } else {
        Outcome::Do(EventAction::NoAction)
    }
}

/// The action an action name in the key tables stands for.
pub fn action_from_name(name: &str) -> (r: EventAction)
    ensures
        is_outcome(r, name_action(name@)),
{
    if str_eq(name, "split_horizontal") {
        EventAction::SplitHorizontal
    } else if str_eq(name, "split_vertical") {
        EventAction::SplitVertical
    } else if str_eq(name, "close_pane") {
        EventAction::ClosePane
    } else if str_eq(name, "navigate_up") {
        EventAction::NavigatePane(PaneDirection::Up)
    } else if str_eq(name, "navigate_down") {
        EventAction::NavigatePane(PaneDirection::Down)
    } else if str_eq(name, "navigate_left") {
        EventAction::NavigatePane(PaneDirection::Left)
    } else if str_eq(name, "navigate_right") {
        EventAction::NavigatePane(PaneDirection::Right)
    } else if str_eq(name, "new_window") {
        EventAction::NewWindow
    } else if str_eq(name, "close_window") {
        EventAction::CloseWindow
    } else if str_eq(name, "next_window") {
        EventAction::NextWindow
    } else if str_eq(name, "prev_window") {
        EventAction::PrevWindow
    } else if str_eq(name, "select_window_1") {
        EventAction::SelectWindow(0)
    } else if str_eq(name, "select_window_2") {
        EventAction::SelectWindow(1)
    } else if str_eq(name, "select_window_3") {
        EventAction::SelectWindow(2)
    } else if str_eq(name, "select_window_4") {
        EventAction::SelectWindow(3)
    } else if str_eq(name, "select_window_5") {
        EventAction::SelectWindow(4)
    } else if str_eq(name, "select_window_6") {
        EventAction::SelectWindow(5)
    } else if str_eq(name, "select_window_7") {
        EventAction::SelectWindow(6)
    } else if str_eq(name, "select_window_8") {
        EventAction::SelectWindow(7)
    } else if str_eq(name, "select_window_9") {
        EventAction::SelectWindow(8)
    } else if str_eq(name, "select_window_10") {
        EventAction::SelectWindow(9)
    } else if str_eq(name, "quit") {
        EventAction::Exit
    } else if str_eq(name, "send_prefix") {
        EventAction::SendToPty(vec![0xc3u8, 0xa7u8])
    } else if str_eq(name, "scroll_up") {
        EventAction::Scroll(-10)
    } else if str_eq(name, "scroll_down") {
        EventAction::Scroll(10)
    } else if str_eq(name, "paste") {
        EventAction::Paste
    } else {
        EventAction::NoAction
    }
}

/// The prefix key used when the configured one does not parse: Alt+C.
pub open spec fn default_prefix() -> ParsedKey {
    ParsedKey { code: KeyCode::Char('c'), modifiers: KeyModifiers { bits: KeyModifiers::ALT } }
}

/// Keybinding lookups from the configuration.
pub struct KeybindingHandler {
    prefix_key: ParsedKey,
    command_bindings: KeyBindings,
    direct_bindings: KeyBindings,
}

impl KeybindingHandler {
    /// The key that enters command mode.
    pub closed spec fn prefix(&self) -> ParsedKey {
        self.prefix_key
    }

    /// The command-mode table.
    pub closed spec fn commands(&self) -> Seq<(ParsedKey, Seq<char>)> {
        self.command_bindings.view()
    }

    /// The direct table.
    pub closed spec fn directs(&self) -> Seq<(ParsedKey, Seq<char>)> {
        self.direct_bindings.view()
    }

    /// Build the tables from a configuration; a prefix key that does not parse
    /// falls back to Alt+C.
    pub fn new(config: &Config) -> (h: KeybindingHandler)
        ensures
            h.prefix() == match crate::config::keys::parse_key(config.prefix.key@) {
                Ok(k) => k,
                Err(_) => default_prefix(),
            },
            h.commands() == crate::config::bindings::bindings_from(crate::config::bindings::command_pairs(*config)),
            h.directs() == crate::config::bindings::bindings_from(crate::config::bindings::direct_pairs(*config)),
    {
        let prefix_key = match config.parse_prefix() {
            Ok(k) => k,
            Err(_) => ParsedKey { code: KeyCode::Char('c'), modifiers: KeyModifiers { bits: KeyModifiers::ALT } },
        };
        KeybindingHandler {
            prefix_key,
            command_bindings: config.build_command_bindings(),
            direct_bindings: config.build_direct_bindings(),
        }
    }

    /// Whether a key is the prefix key.
    pub fn is_prefix_key(&self, code: KeyCode, modifiers: KeyModifiers) -> (b: bool)
        ensures
            b == key_matches(self.prefix(), code, modifiers),
    {
        self.prefix_key.matches(code, modifiers)
    }

    /// The action of a command-mode key: that of the first table entry it
    /// matches, or nothing.
    pub fn lookup_command(&self, code: KeyCode, modifiers: KeyModifiers) -> (r: EventAction)
        ensures
            first_match(self.commands(), code, modifiers) < self.commands().len() ==> is_outcome(
                r,
                name_action(self.commands()[first_match(self.commands(), code, modifiers)].1),
            ),
            first_match(self.commands(), code, modifiers) >= self.commands().len() ==> r == EventAction::NoAction,
    {
        match self.command_bindings.lookup(code, modifiers) {
            Some(name) => action_from_name(name),
            None => EventAction::NoAction,
        }
    }

    /// The action of a direct key, if it is bound.
    pub fn lookup_direct(&self, code: KeyCode, modifiers: KeyModifiers) -> (r: Option<EventAction>)
        ensures
            first_match(self.directs(), code, modifiers) < self.directs().len() ==> (r matches Some(a)
                && is_outcome(a, name_action(self.directs()[first_match(self.directs(), code, modifiers)].1))),
            first_match(self.directs(), code, modifiers) >= self.directs().len() ==> r is None,
    {
        match self.direct_bindings.lookup(code, modifiers) {
            Some(name) => Some(action_from_name(name)),
            None => None,
        }
    }
}

/// Processing a key with the configured bindings: in command mode the key is
/// looked up among the commands (without modifiers) and command mode ends;
/// the prefix key, or `ç` with Alt, enters command mode; a direct binding
/// acts; the paste keys paste; anything else goes to the pty.
pub open spec fn handler_key_outcome(key: KeyEvent, h: KeybindingHandler, st: InputState) -> (Outcome, bool) {
    let ctrl = key.modifiers.has(KeyModifiers::CONTROL);
    let alt = key.modifiers.has(KeyModifiers::ALT);
    let shift = key.modifiers.has(KeyModifiers::SHIFT);
    let none = KeyModifiers { bits: 0 };
    if st.command_mode {
        let i = first_match(h.commands(), key.code, none);
        (if i < h.commands().len() {
            name_action(h.commands()[i].1)
        } else {
            Outcome::Do(EventAction::NoAction)
        }, false)
    } else if key_matches(h.prefix(), key.code, key.modifiers) {
        (Outcome::Do(EventAction::NoAction), true)
    } else if alt && !ctrl && !shift && key.code == KeyCode::Char('\u{e7}') {
        (Outcome::Do(EventAction::NoAction), true)
    } else if first_match(h.directs(), key.code, key.modifiers) < h.directs().len() {
        (name_action(h.directs()[first_match(h.directs(), key.code, key.modifiers)].1), false)
    } else if is_paste_key(key, st.super_pastes) {
        (Outcome::Do(EventAction::Paste), false)
    } else {
        (key_bytes(key, false), false)
    }
}

/// Process a key with the configured bindings.
pub fn process_key_event_with_handler(key: KeyEvent, handler: &KeybindingHandler, state: &mut InputState) -> (r: EventAction)
    ensures
        is_outcome(r, handler_key_outcome(key, *handler, *old(state)).0),
        final(state).command_mode == handler_key_outcome(key, *handler, *old(state)).1,
        final(state).super_pastes == old(state).super_pastes,
{
    let ctrl = key.modifiers.contains(KeyModifiers::CONTROL);
    let alt = key.modifiers.contains(KeyModifiers::ALT);
    let shift = key.modifiers.contains(KeyModifiers::SHIFT);
    let super_key = state.super_pastes && key.modifiers.contains(KeyModifiers::SUPER);
    if state.command_mode {
        state.command_mode = false;
        return handler.lookup_command(key.code, KeyModifiers::none());
    }
    if handler.is_prefix_key(key.code, key.modifiers) {
        state.command_mode = true;
        return EventAction::NoAction;
    }
    if alt && !ctrl && !shift && key.code == KeyCode::Char('\u{e7}') {
        state.command_mode = true;
        return EventAction::NoAction;
    }
    match handler.lookup_direct(key.code, key.modifiers) {
        Some(action) => return action,
        None => {},
    }
    if (super_key && key.code == KeyCode::Char('v')) || (ctrl && shift && key.code == KeyCode::Char('V')) {
        return EventAction::Paste;
    }
    process_standard_key(key)
}

/// Process an event with the configured bindings.
pub fn process_event_with_handler(
    event: Event,
    handler: &KeybindingHandler,
    state: &mut InputState,
    clicks: &mut ClickTracker,
    now_ns: u64,
) -> (r: EventAction)
    ensures
        event matches Event::Key(k) ==> is_outcome(r, handler_key_outcome(k, *handler, *old(state)).0)
            && final(state).command_mode == handler_key_outcome(k, *handler, *old(state)).1 && *final(clicks) == *old(clicks),
        event matches Event::Mouse(m) ==> r == mouse_outcome(m, old(clicks).last, now_ns).0 && final(clicks).last
            == mouse_outcome(m, old(clicks).last, now_ns).1 && *final(state) == *old(state),
        event matches Event::Resize(c, w) ==> r == EventAction::Resize(c, w) && *final(state) == *old(state) && *final(clicks) == *old(clicks),
        (event is FocusGained || event is FocusLost) ==> r == EventAction::NoAction && *final(state) == *old(state) && *final(clicks) == *old(clicks),
        event matches Event::Paste(t) ==> (r matches EventAction::SendToPty(v) && v@ == bracketed(crate::text::utf8(t@))) && *final(state) == *old(state) && *final(clicks) == *old(clicks),
{
    match event {
        Event::Key(key) => process_key_event_with_handler(key, handler, state),
        Event::Mouse(mouse) => process_mouse_event(mouse, clicks, now_ns),
        Event::Resize(cols, rows) => EventAction::Resize(cols, rows),
        Event::FocusGained | Event::FocusLost => EventAction::NoAction,
        Event::Paste(text) => EventAction::SendToPty(bracketed_paste(text.as_str())),
    }
}

/// The SGR button code of a mouse event kind.
pub open spec fn mouse_button_code(kind: MouseEventKind) -> u32 {
    match kind {
        MouseEventKind::Down(MouseButton::Left) | MouseEventKind::Up(MouseButton::Left) => 0,
        MouseEventKind::Down(MouseButton::Middle) | MouseEventKind::Up(MouseButton::Middle) => 1,
        MouseEventKind::Down(MouseButton::Right) | MouseEventKind::Up(MouseButton::Right) => 2,
        MouseEventKind::Drag(MouseButton::Left) => 32,
        MouseEventKind::Drag(MouseButton::Middle) => 33,
        MouseEventKind::Drag(MouseButton::Right) => 34,
        MouseEventKind::Moved => 35,
        MouseEventKind::ScrollUp => 64,
        MouseEventKind::ScrollDown => 65,
        MouseEventKind::ScrollLeft => 66,
        MouseEventKind::ScrollRight => 67,
    }
}

/// The modifier bits of the SGR button code: 4 for Shift, 8 for Alt, 16 for
/// Ctrl.
pub open spec fn mouse_modifier_bits(m: KeyModifiers) -> u32 {
    (if m.has(KeyModifiers::SHIFT) { 4u32 } else { 0u32 }) | (if m.has(KeyModifiers::ALT) { 8u32 } else { 0u32 }) | (
    if m.has(KeyModifiers::CONTROL) { 16u32 } else { 0u32 })
}

/// The ASCII bytes of a string of ASCII characters.
pub open spec fn ascii(s: Seq<char>) -> Seq<u8> {
    Seq::new(s.len(), |i: int| s[i] as u8)
}

/// An SGR mouse report: `CSI < Cb ; Cx ; Cy` and `M` for presses and motion
/// or `m` for releases, with one-based coordinates.
pub open spec fn mouse_sgr(m: MouseEvent, press: bool) -> Seq<u8> {
    let cb = mouse_button_code(m.kind) | mouse_modifier_bits(m.modifiers);
    seq![0x1bu8, 0x5b, 0x3c] + ascii(decimal(cb as nat)) + seq![0x3bu8] + ascii(decimal((m.column + 1) as nat)) + seq![0x3bu8]
        + ascii(decimal((m.row + 1) as nat)) + seq![if press { 0x4du8 } else { 0x6du8 }]
}

/// Append the decimal digits of `n` as ASCII bytes.
fn push_decimal_bytes(out: &mut Vec<u8>, n: u64)
    ensures
        final(out)@ == old(out)@ + ascii(decimal(n as nat)),
    decreases n,
{
    if n >= 10 {
        push_decimal_bytes(out, n / 10);
    }
    let d = (n % 10) as u8;
    out.push(0x30 + d);
    assert(out@ =~= old(out)@ + ascii(decimal(n as nat)));
}

/// Encode a mouse event as an SGR (mode 1006) report for the pty.
pub fn encode_mouse_sgr(mouse: &MouseEvent, press: bool) -> (v: Vec<u8>)
    requires
        mouse.column < u16::MAX,
        mouse.row < u16::MAX,
    ensures
        v@ == mouse_sgr(*mouse, press),
{
    let button: u32 = match mouse.kind {
        MouseEventKind::Down(MouseButton::Left) | MouseEventKind::Up(MouseButton::Left) => 0,
        MouseEventKind::Down(MouseButton::Middle) | MouseEventKind::Up(MouseButton::Middle) => 1,
        MouseEventKind::Down(MouseButton::Right) | MouseEventKind::Up(MouseButton::Right) => 2,
        MouseEventKind::Drag(MouseButton::Left) => 32,
        MouseEventKind::Drag(MouseButton::Middle) => 33,
        MouseEventKind::Drag(MouseButton::Right) => 34,
        MouseEventKind::Moved => 35,
        MouseEventKind::ScrollUp => 64,
        MouseEventKind::ScrollDown => 65,
        MouseEventKind::ScrollLeft => 66,
        MouseEventKind::ScrollRight => 67,
    };
    let shift: u32 = if mouse.modifiers.contains(KeyModifiers::SHIFT) {
        4
    } else {
        0
    };
    let alt: u32 = if mouse.modifiers.contains(KeyModifiers::ALT) {
        8
    } else {
        0
    };
    let ctrl: u32 = if mouse.modifiers.contains(KeyModifiers::CONTROL) {
        16
    } else {
        0
    };
    let modifiers = shift | alt | ctrl;
    let cb = button | modifiers;
    let cx = mouse.column + 1;
    let cy = mouse.row + 1;
    let mut v: Vec<u8> = vec![0x1bu8, 0x5b, 0x3c];
    push_decimal_bytes(&mut v, cb as u64);
    v.push(0x3b);
    push_decimal_bytes(&mut v, cx as u64);
    v.push(0x3b);
    push_decimal_bytes(&mut v, cy as u64);
    v.push(if press {
        0x4d
    } else {
        0x6d
    });
    assert(v@ =~= mouse_sgr(*mouse, press));
    v
}

/// Command mode lasts one key: the key after the prefix is taken as a
/// command and command mode ends, whatever it is; with the built-in bindings
/// only Alt+C (or Alt with `ç`), without Ctrl or Shift, enters it, and with
/// configured ones only the prefix key or Alt with `ç`.
pub proof fn law_command_mode_lasts_one_key(key: KeyEvent, st: InputState, h: KeybindingHandler)
    ensures
        st.command_mode ==> !key_event_outcome(key, st).1 && !handler_key_outcome(key, h, st).1,
        key_event_outcome(key, st).1 ==> !st.command_mode && key.modifiers.has(KeyModifiers::ALT)
            && !key.modifiers.has(KeyModifiers::CONTROL) && !key.modifiers.has(KeyModifiers::SHIFT) && (key.code
            == KeyCode::Char('c') || key.code == KeyCode::Char('\u{e7}')),
        handler_key_outcome(key, h, st).1 ==> !st.command_mode && (key_matches(h.prefix(), key.code, key.modifiers)
            || (key.modifiers.has(KeyModifiers::ALT) && key.code == KeyCode::Char('\u{e7}'))),
{
}

/// The number written by ASCII digit bytes.
pub open spec fn byte_number(s: Seq<u8>) -> int
    decreases s.len(),
{
    if s.len() == 0 {
        0
    } else {
        byte_number(s.drop_last()) * 10 + (s.last() - 0x30)
    }
}

/// The key a terminal application reads from an xterm input sequence: the
/// single control bytes, `ESC O P`..`ESC O S` for F1 to F4, and after
/// `ESC [` either a final letter (`A`-`D` arrows, `H` Home, `F` End, `Z`
/// Back-Tab, whatever modifier parameter comes before it) or a number ended
/// by `~` (2 Insert, 3 Delete, 5 Page Up, 6 Page Down, 15 to 24 F5 to F12).
pub open spec fn decode_key(b: Seq<u8>) -> Option<KeyCode> {
    if b.len() == 1 {
        if b[0] == 0x0d {
            Some(KeyCode::Enter)
        } else if b[0] == 0x7f {
            Some(KeyCode::Backspace)
        } else if b[0] == 0x09 {
            Some(KeyCode::Tab)
        } else if b[0] == 0x1b {
            Some(KeyCode::Esc)
        } else {
            None
        }
    } else if b.len() == 3 && b[0] == 0x1b && b[1] == 0x4f {
        if 0x50 <= b[2] <= 0x53 {
            Some(KeyCode::F((b[2] - 0x4f) as u8))
        } else {
            None
        }
    } else if b.len() >= 3 && b[0] == 0x1b && b[1] == 0x5b {
        let fin = b.last();
        if fin == 0x7e {
            let n = byte_number(b.subrange(2, b.len() - 1));
            if n == 2 {
                Some(KeyCode::Insert)
            } else if n == 3 {
                Some(KeyCode::Delete)
            } else if n == 5 {
                Some(KeyCode::PageUp)
            } else if n == 6 {
                Some(KeyCode::PageDown)
            } else if n == 15 {
                Some(KeyCode::F(5))
            } else if 17 <= n <= 21 {
                Some(KeyCode::F((n - 11) as u8))
            } else if 23 <= n <= 24 {
                Some(KeyCode::F((n - 12) as u8))
            } else {
                None
            }
        } else if fin == 0x41 {
            Some(KeyCode::Up)
        } else if fin == 0x42 {
            Some(KeyCode::Down)
        } else if fin == 0x43 {
            Some(KeyCode::Right)
        } else if fin == 0x44 {
            Some(KeyCode::Left)
        } else if fin == 0x48 {
            Some(KeyCode::Home)
        } else if fin == 0x46 {
            Some(KeyCode::End)
        } else if fin == 0x5a {
            Some(KeyCode::BackTab)
        } else {
            None
        }
    } else {
        None
    }
}

/// Every special key goes to the pty as the xterm sequence of that key, so
/// an application reads back the key that was pressed: Delete arrives as
/// Delete (`ESC [ 3 ~`), never as Insert (`ESC [ 2 ~`), with any modifiers,
/// and no two special keys share a sequence.
pub proof fn law_special_keys_read_back(key: KeyEvent, shift_pages: bool)
    requires
        !(key.code is Char),
    ensures
        key_bytes(key, shift_pages) matches Outcome::Send(b) ==> decode_key(b) == Some(key.code),
{
    let ctrl = key.modifiers.has(KeyModifiers::CONTROL);
    let alt = key.modifiers.has(KeyModifiers::ALT);
    let shift = key.modifiers.has(KeyModifiers::SHIFT);
    match key.code {
        KeyCode::Up => lemma_arrow_reads(0x41, ctrl, shift, alt),
        KeyCode::Down => lemma_arrow_reads(0x42, ctrl, shift, alt),
        KeyCode::Right => lemma_arrow_reads(0x43, ctrl, shift, alt),
        KeyCode::Left => lemma_arrow_reads(0x44, ctrl, shift, alt),
        KeyCode::PageUp => lemma_tilde_reads(seq![0x35u8]),
        KeyCode::PageDown => lemma_tilde_reads(seq![0x36u8]),
        KeyCode::Insert => lemma_tilde_reads(seq![0x32u8]),
        KeyCode::Delete => lemma_tilde_reads(seq![0x33u8]),
        KeyCode::F(n) => {
            if n == 5 {
                lemma_tilde_reads(seq![0x31u8, 0x35]);
            } else if n == 6 {
                lemma_tilde_reads(seq![0x31u8, 0x37]);
            } else if n == 7 {
                lemma_tilde_reads(seq![0x31u8, 0x38]);
            } else if n == 8 {
                lemma_tilde_reads(seq![0x31u8, 0x39]);
            } else if n == 9 {
                lemma_tilde_reads(seq![0x32u8, 0x30]);
            } else if n == 10 {
                lemma_tilde_reads(seq![0x32u8, 0x31]);
            } else if n == 11 {
                lemma_tilde_reads(seq![0x32u8, 0x33]);
            } else if n == 12 {
                lemma_tilde_reads(seq![0x32u8, 0x34]);
            }
        },
        _ => {},
    }
}

proof fn lemma_arrow_reads(fin: u8, ctrl: bool, shift: bool, alt: bool)
    requires
        0x41 <= fin <= 0x44,
    ensures
        arrow(fin, ctrl, shift, alt).len() >= 3,
        arrow(fin, ctrl, shift, alt)[0] == 0x1b,
        arrow(fin, ctrl, shift, alt)[1] == 0x5b,
        arrow(fin, ctrl, shift, alt).last() == fin,
        arrow(fin, ctrl, shift, alt).len() != 1,
{
}

proof fn lemma_tilde_reads(n: Seq<u8>)
    requires
        n.len() == 1 || n.len() == 2,
    ensures
        tilde_key(n).len() >= 3,
        tilde_key(n).len() != 1,
        tilde_key(n)[0] == 0x1b,
        tilde_key(n)[1] == 0x5b,
        tilde_key(n).last() == 0x7e,
        tilde_key(n).subrange(2, tilde_key(n).len() - 1) == n,
        n.len() == 1 ==> byte_number(n) == n[0] - 0x30,
        n.len() == 2 ==> byte_number(n) == (n[0] - 0x30) * 10 + (n[1] - 0x30),
{
    assert(tilde_key(n).subrange(2, tilde_key(n).len() - 1) =~= n);
    assert(byte_number(Seq::<u8>::empty()) == 0);
    if n.len() == 1 {
        assert(n.drop_last() =~= Seq::<u8>::empty());
        assert(byte_number(n) == byte_number(n.drop_last()) * 10 + (n.last() - 0x30));
    } else {
        let m = n.drop_last();
        assert(m.drop_last() =~= Seq::<u8>::empty());
        assert(m[0] == n[0]);
        assert(byte_number(m) == byte_number(m.drop_last()) * 10 + (m.last() - 0x30));
        assert(byte_number(n) == byte_number(m) * 10 + (n.last() - 0x30));
    }
}

} // verus!

