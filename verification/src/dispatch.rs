//! What the main loop makes of an input action: the selection mode a click
//! count stands for, the direction a navigation key names, and the server
//! command a command-mode action becomes.

use vstd::prelude::*;

use crate::event::{EventAction, PaneDirection, SelectMode};
use crate::protocol::{CommandAction, Direction};
use crate::selection::SelectionMode;

verus! {

/// One click selects characters, two select words, three select lines.
pub open spec fn selection_mode_spec(mode: SelectMode) -> SelectionMode {
    match mode {
        SelectMode::Normal => SelectionMode::Normal,
        SelectMode::Word => SelectionMode::Word,
        SelectMode::Triple => SelectionMode::Line,
    }
}

/// The selection mode for a run of clicks.
pub fn selection_mode_for(mode: SelectMode) -> (m: SelectionMode)
    ensures
        m == selection_mode_spec(mode),
{
    match mode {
        SelectMode::Normal => SelectionMode::Normal,
        SelectMode::Word => SelectionMode::Word,
        SelectMode::Triple => SelectionMode::Line,
    }
}

/// The layout's direction for a navigation key's direction.
pub open spec fn pane_direction_spec(d: PaneDirection) -> crate::pane::Direction {
    match d {
        PaneDirection::Up => crate::pane::Direction::Up,
        PaneDirection::Down => crate::pane::Direction::Down,
        PaneDirection::Left => crate::pane::Direction::Left,
        PaneDirection::Right => crate::pane::Direction::Right,
    }
}

/// The layout's direction for a navigation key's direction.
pub fn pane_direction(d: PaneDirection) -> (out: crate::pane::Direction)
    ensures
        out == pane_direction_spec(d),
{
    match d {
        PaneDirection::Up => crate::pane::Direction::Up,
        PaneDirection::Down => crate::pane::Direction::Down,
        PaneDirection::Left => crate::pane::Direction::Left,
        PaneDirection::Right => crate::pane::Direction::Right,
    }
}

/// The wire's direction for a navigation key's direction.
pub open spec fn wire_direction_spec(d: PaneDirection) -> Direction {
    match d {
        PaneDirection::Up => Direction::Up,
        PaneDirection::Down => Direction::Down,
        PaneDirection::Left => Direction::Left,
        PaneDirection::Right => Direction::Right,
    }
}

/// The wire's direction for a navigation key's direction.
pub fn wire_direction(d: PaneDirection) -> (out: Direction)
    ensures
        out == wire_direction_spec(d),
{
    match d {
        PaneDirection::Up => Direction::Up,
        PaneDirection::Down => Direction::Down,
        PaneDirection::Left => Direction::Left,
        PaneDirection::Right => Direction::Right,
    }
}

/// The server command that a layout or window action asks for; every other
/// action is handled on the client's side and asks for none.
pub open spec fn command_spec(action: EventAction) -> Option<CommandAction> {
    match action {
        EventAction::SplitHorizontal => Some(CommandAction::SplitHorizontal),
        EventAction::SplitVertical => Some(CommandAction::SplitVertical),
        EventAction::ClosePane => Some(CommandAction::ClosePane),
        EventAction::NavigatePane(d) => Some(CommandAction::NavigatePane(wire_direction_spec(d))),
        EventAction::NewWindow => Some(CommandAction::NewWindow),
        EventAction::CloseWindow => Some(CommandAction::CloseWindow),
        EventAction::NextWindow => Some(CommandAction::NextWindow),
        EventAction::PrevWindow => Some(CommandAction::PrevWindow),
        EventAction::SelectWindow(i) => Some(CommandAction::SelectWindow(i)),
        _ => None,
    }
}

/// The server command that an action asks for, if any.
pub fn command_for(action: &EventAction) -> (out: Option<CommandAction>)
    ensures
        out == command_spec(*action),
{
    match action {
        EventAction::SplitHorizontal => Some(CommandAction::SplitHorizontal),
        EventAction::SplitVertical => Some(CommandAction::SplitVertical),
        EventAction::ClosePane => Some(CommandAction::ClosePane),
        EventAction::NavigatePane(d) => Some(CommandAction::NavigatePane(wire_direction(*d))),
        EventAction::NewWindow => Some(CommandAction::NewWindow),
        EventAction::CloseWindow => Some(CommandAction::CloseWindow),
        EventAction::NextWindow => Some(CommandAction::NextWindow),
        EventAction::PrevWindow => Some(CommandAction::PrevWindow),
        EventAction::SelectWindow(i) => Some(CommandAction::SelectWindow(*i)),
        _ => None,
    }
}

} // verus!
