//! What the main loop makes of an input action.

use clux::dispatch::{command_for, pane_direction, selection_mode_for, wire_direction};
use clux::event::{EventAction, PaneDirection, SelectMode};
use clux::pane;
use clux::protocol::{CommandAction, Direction};
use clux::selection::SelectionMode;

#[test]
fn a_triple_click_selects_lines() {
    assert_eq!(selection_mode_for(SelectMode::Normal), SelectionMode::Normal);
    assert_eq!(selection_mode_for(SelectMode::Word), SelectionMode::Word);
    assert_eq!(selection_mode_for(SelectMode::Triple), SelectionMode::Line);
}

#[test]
fn navigation_keeps_its_direction() {
    assert_eq!(pane_direction(PaneDirection::Left), pane::Direction::Left);
    assert_eq!(pane_direction(PaneDirection::Down), pane::Direction::Down);
    assert_eq!(wire_direction(PaneDirection::Up), Direction::Up);
    assert_eq!(wire_direction(PaneDirection::Right), Direction::Right);
}

#[test]
fn layout_actions_become_server_commands() {
    assert_eq!(command_for(&EventAction::SplitVertical), Some(CommandAction::SplitVertical));
    assert_eq!(
        command_for(&EventAction::NavigatePane(PaneDirection::Down)),
        Some(CommandAction::NavigatePane(Direction::Down))
    );
    assert_eq!(command_for(&EventAction::SelectWindow(3)), Some(CommandAction::SelectWindow(3)));
    assert_eq!(command_for(&EventAction::CloseWindow), Some(CommandAction::CloseWindow));
}

#[test]
fn client_side_actions_ask_for_no_command() {
    assert_eq!(command_for(&EventAction::SendToPty(b"ls".to_vec())), None);
    assert_eq!(command_for(&EventAction::Paste), None);
    assert_eq!(command_for(&EventAction::Resize(80, 24)), None);
}
