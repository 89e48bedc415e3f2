//! Client-side logic: the compositing screen buffer, ANSI output, the
//! client's errors and configuration, and the remote bootstrap.

pub mod ansi;
pub mod compose;
pub mod error;
pub mod links;
pub mod remote;
pub mod replies;
pub mod screen;
pub mod target;
