//! A terminal multiplexer's client-side core: cell styling, the terminal
//! grid with reflow, the pane layout tree, the wire framing of the
//! client-server protocol, the client's compositing screen buffer, key and
//! mouse translation, configuration, and the remote-bootstrap helpers.

pub mod border;
pub mod cell;
pub mod text;
pub mod clipboard;
pub mod config;
pub mod dispatch;
pub mod event;
pub mod grid;
pub mod paint;
pub mod pane;
pub mod hyperlink;
pub mod input;
pub mod selection;
pub mod protocol;
pub mod reflow;
pub mod client;
