//! Where the client connects, and its configuration.

use vstd::prelude::*;

use crate::text::{join_path, path_join};

verus! {

/// Where the client should connect.
#[derive(Debug, Clone, PartialEq, Eq)]
pub enum ClientTarget {
    /// A local server socket.
    Local { socket_path: String },
    /// A remote server reached over SSH through a forwarded local socket.
    RemoteSsh { destination: String, socket_path: String },
}

impl ClientTarget {
    /// The server socket path.
    pub fn socket_path(&self) -> (p: &str)
        ensures
            self matches ClientTarget::Local { socket_path } ==> p@ == socket_path@,
            self matches ClientTarget::RemoteSsh { socket_path, .. } ==> p@ == socket_path@,
    {
        match self {
            ClientTarget::Local { socket_path } => socket_path.as_str(),
            ClientTarget::RemoteSsh { socket_path, .. } => socket_path.as_str(),
        }
    }

    /// The SSH destination, for a remote target.
    pub fn remote_destination(&self) -> (d: Option<&str>)
        ensures
            self matches ClientTarget::RemoteSsh { destination, .. } ==> (d matches Some(s) && s@ == destination@),
            self is Local ==> d is None,
    {
        match self {
            ClientTarget::RemoteSsh { destination, .. } => Some(destination.as_str()),
            ClientTarget::Local { .. } => None,
        }
    }
}

/// The default server socket under the user's runtime directory (the
/// temporary directory where there is none): `clux/default.sock` in it.
pub fn default_socket_path(runtime_dir: &str) -> (p: String)
    ensures
        p@ == path_join(path_join(runtime_dir@, "clux"@), "default.sock"@),
{
    let dir = join_path(runtime_dir, "clux");
    join_path(dir.as_str(), "default.sock")
}

/// The terminal type used when `$TERM` is not set.
pub const DEFAULT_TERM: &'static str = "xterm-256color";

/// Client configuration.
#[derive(Debug, Clone, PartialEq, Eq)]
pub struct ClientConfig {
    pub target: ClientTarget,
    /// Terminal type (`$TERM`).
    pub term_type: String,
    pub term_cols: u16,
    pub term_rows: u16,
}

impl ClientConfig {
    /// The configuration for a local socket from what the environment gives:
    /// the terminal's size (80 by 24 when unknown) and `$TERM`
    /// (`xterm-256color` when unset).
    pub fn from_environment(size: Option<(u16, u16)>, term: Option<String>, socket_path: String) -> (c: ClientConfig)
        ensures
            c.target == (ClientTarget::Local { socket_path }),
            size matches Some((w, h)) ==> c.term_cols == w && c.term_rows == h,
            size is None ==> c.term_cols == 80 && c.term_rows == 24,
            term matches Some(t) ==> c.term_type@ == t@,
            term is None ==> c.term_type@ == DEFAULT_TERM@,
    {
        let (cols, rows) = match size {
            Some(s) => s,
            None => (80, 24),
        };
        let term_type = match term {
            Some(t) => t,
            None => String::from_str(DEFAULT_TERM),
        };
        ClientConfig { target: ClientTarget::Local { socket_path }, term_type, term_cols: cols, term_rows: rows }
    }
}

} // verus!
