//! What the client makes of the server's replies, and of each read from the
//! connection while it waits for one.

use vstd::prelude::*;

use crate::client::error::{connection_failure, is_connection_failure, ClientError};
use crate::protocol::{spec_feed, IoError, MessageReader, ProtocolError, ServerMessage, SessionInfo};
use crate::text::{chars_of, decimal, has_prefix_at, push_decimal, push_str, strip_prefix};

verus! {

/// The text that the derived `Debug` writes for a server message.
pub uninterp spec fn debug_text(m: ServerMessage) -> Seq<char>;

/// `format!("{:?}", m)`: the derived `Debug` text of a server message.
#[verifier::external_body]
fn describe(m: &ServerMessage) -> (s: String)
    ensures
        s@ == debug_text(*m),
{
    format!("{:?}", m)
}

/// The error for a reply that does not fit the request.
pub open spec fn is_unexpected(e: ClientError, m: ServerMessage) -> bool {
    e matches ClientError::UnexpectedResponse(d) && d@ == debug_text(m)
}

fn unexpected(m: &ServerMessage) -> (e: ClientError)
    ensures
        is_unexpected(e, *m),
{
    ClientError::UnexpectedResponse(describe(m))
}

/// Whether `pat` occurs in `s`.
pub open spec fn occurs_in(s: Seq<char>, pat: Seq<char>) -> bool {
    exists|i: int| 0 <= i <= s.len() && #[trigger] strip_prefix(s.skip(i), pat) is Some
}

/// Whether `pat` occurs in `s`.
pub fn contains_text(s: &str, pat: &str) -> (b: bool)
    ensures
        b == occurs_in(s@, pat@),
{
    let v = chars_of(s);
    let n = v.len();
    let mut i: usize = 0;
    while i < n
        invariant
            i <= n,
            n == v@.len(),
            v@ == s@,
            forall|j: int| 0 <= j < i ==> !(#[trigger] strip_prefix(s@.skip(j), pat@) is Some),
        decreases n - i,
    {
        proof {
            assert(v@.subrange(i as int, n as int) =~= s@.skip(i as int));
        }
        if has_prefix_at(&v, i, n, pat) {
            return true;
        }
        i = i + 1;
    }
    proof {
        assert(v@.subrange(n as int, n as int) =~= s@.skip(n as int));
    }
    if has_prefix_at(&v, n, n, pat) {
        return true;
    }
    proof {
        assert forall|j: int| 0 <= j <= s@.len() implies !(#[trigger] strip_prefix(s@.skip(j), pat@) is Some) by {
            assert(j < i || j == n);
        }
    }
    false
}

/// The reply to `Hello`: the server's protocol version.
pub fn handshake_reply(msg: ServerMessage) -> (r: Result<u32, ClientError>)
    ensures
        match msg {
            ServerMessage::HelloAck { version, .. } => r == Ok::<u32, ClientError>(version),
            ServerMessage::Error { message } => r == Err::<u32, ClientError>(
                ClientError::HandshakeFailed(message),
            ),
            _ => r matches Err(e) && is_unexpected(e, msg),
        },
{
    match msg {
        ServerMessage::HelloAck { version, .. } => Ok(version),
        ServerMessage::Error { message } => Err(ClientError::HandshakeFailed(message)),
        _ => Err(unexpected(&msg)),
    }
}

/// The session named in a "not found" error: the one asked for, or
/// `default`.
pub open spec fn missing_session(requested: Option<String>) -> Seq<char> {
    match requested {
        Some(name) => name@,
        None => "default"@,
    }
}

/// The reply to `Attach`: the session's id and name. An error that says "not
/// found" becomes `SessionNotFound` for the session asked for.
pub fn attach_reply(msg: ServerMessage, requested: Option<String>) -> (r: Result<(u32, String), ClientError>)
    ensures
        match msg {
            ServerMessage::Attached { session_id, session_name, .. } => r matches Ok((id, name)) && id
                == session_id && name == session_name,
            ServerMessage::Error { message } => if occurs_in(message@, "not found"@) {
                r matches Err(ClientError::SessionNotFound(n)) && n@ == missing_session(requested)
            } else {
                r == Err::<(u32, String), ClientError>(ClientError::ServerError(message))
            },
            _ => r matches Err(e) && is_unexpected(e, msg),
        },
{
    match msg {
        ServerMessage::Attached { session_id, session_name, .. } => Ok((session_id, session_name)),
        ServerMessage::Error { message } => {
            if contains_text(message.as_str(), "not found") {
                let name = match requested {
                    Some(n) => n,
                    None => String::from_str("default"),
                };
                Err(ClientError::SessionNotFound(name))
            } else {
                Err(ClientError::ServerError(message))
            }
        },
        _ => Err(unexpected(&msg)),
    }
}

/// Where waiting for the detach confirmation stands after a message.
#[derive(Debug, PartialEq)]
pub enum DetachStep {
    /// The server confirmed.
    Detached,
    /// An update that may still arrive; keep waiting.
    Wait,
    /// The detach failed.
    Failed(ClientError),
}

/// What a message received while waiting for `Detached` means.
pub fn detach_reply(msg: ServerMessage) -> (step: DetachStep)
    ensures
        match msg {
            ServerMessage::Detached { .. } => step == DetachStep::Detached,
            ServerMessage::Error { message } => step == DetachStep::Failed(ClientError::ServerError(message)),
            ServerMessage::MouseMode { .. } | ServerMessage::LayoutChanged { .. }
            | ServerMessage::PaneUpdate { .. } => step == DetachStep::Wait,
            _ => step matches DetachStep::Failed(e) && is_unexpected(e, msg),
        },
{
    match msg {
        ServerMessage::Detached { .. } => DetachStep::Detached,
        ServerMessage::Error { message } => DetachStep::Failed(ClientError::ServerError(message)),
        ServerMessage::MouseMode { .. } => DetachStep::Wait,
        ServerMessage::LayoutChanged { .. } => DetachStep::Wait,
        ServerMessage::PaneUpdate { .. } => DetachStep::Wait,
        _ => DetachStep::Failed(unexpected(&msg)),
    }
}

/// The reply to `ListSessions`.
pub fn sessions_reply(msg: ServerMessage) -> (r: Result<Vec<SessionInfo>, ClientError>)
    ensures
        match msg {
            ServerMessage::SessionList(sessions) => r == Ok::<Vec<SessionInfo>, ClientError>(sessions),
            ServerMessage::Error { message } => r == Err::<Vec<SessionInfo>, ClientError>(
                ClientError::ServerError(message),
            ),
            _ => r matches Err(e) && is_unexpected(e, msg),
        },
{
    match msg {
        ServerMessage::SessionList(sessions) => Ok(sessions),
        ServerMessage::Error { message } => Err(ClientError::ServerError(message)),
        _ => Err(unexpected(&msg)),
    }
}

/// The reply to `Ping`.
pub fn ping_reply(msg: ServerMessage) -> (r: Result<(), ClientError>)
    ensures
        match msg {
            ServerMessage::Pong => r == Ok::<(), ClientError>(()),
            ServerMessage::Error { message } => r == Err::<(), ClientError>(ClientError::ServerError(message)),
            _ => r matches Err(e) && is_unexpected(e, msg),
        },
{
    match msg {
        ServerMessage::Pong => Ok(()),
        ServerMessage::Error { message } => Err(ClientError::ServerError(message)),
        _ => Err(unexpected(&msg)),
    }
}

/// The protocol version from which the server can be shut down by request.
pub const SHUTDOWN_VERSION: u32 = 3;

/// Whether a server of this protocol version can be asked to shut down.
pub fn shutdown_supported(server_version: u32) -> (r: Result<(), ClientError>)
    ensures
        server_version >= SHUTDOWN_VERSION ==> r == Ok::<(), ClientError>(()),
        server_version < SHUTDOWN_VERSION ==> r == Err::<(), ClientError>(
            ClientError::UnsupportedServerVersion { required: SHUTDOWN_VERSION, actual: server_version },
        ),
{
    if server_version < SHUTDOWN_VERSION {
        Err(ClientError::UnsupportedServerVersion { required: SHUTDOWN_VERSION, actual: server_version })
    } else {
        Ok(())
    }
}

/// The reply to `ShutdownServer`: the server confirming, or closing the
/// connection, both mean success.
pub fn shutdown_reply(received: Result<ServerMessage, ProtocolError>) -> (r: Result<(), ClientError>)
    ensures
        match received {
            Ok(ServerMessage::Shutdown) => r == Ok::<(), ClientError>(()),
            Ok(ServerMessage::Error { message }) => r == Err::<(), ClientError>(
                ClientError::ServerError(message),
            ),
            Ok(m) => r matches Err(e) && is_unexpected(e, m),
            Err(ProtocolError::ConnectionClosed) => r == Ok::<(), ClientError>(()),
            Err(e) => r == Err::<(), ClientError>(ClientError::Protocol(e)),
        },
{
    match received {
        Ok(ServerMessage::Shutdown) => Ok(()),
        Ok(ServerMessage::Error { message }) => Err(ClientError::ServerError(message)),
        Ok(m) => Err(unexpected(&m)),
        Err(ProtocolError::ConnectionClosed) => Ok(()),
        Err(e) => Err(ClientError::Protocol(e)),
    }
}

/// The error a failed handshake ends a connection attempt with: a remote
/// target that was not to be started, and could not be reached, reports one
/// failed attempt; otherwise the handshake's own error.
pub fn connect_error(err: ClientError, remote: bool, start_server: bool) -> (r: ClientError)
    ensures
        r == (if remote && !start_server && connection_failure(err) {
            ClientError::ConnectionFailed(1)
        } else {
            err
        }),
{
    if remote && !start_server && is_connection_failure(&err) {
        ClientError::ConnectionFailed(1)
    } else {
        err
    }
}

/// A short name of a server message's kind, for logs.
pub fn msg_type(msg: &ServerMessage) -> (s: &'static str)
    ensures
        s@ == match *msg {
            ServerMessage::HelloAck { .. } => "HelloAck"@,
            ServerMessage::Attached { .. } => "Attached"@,
            ServerMessage::Detached { .. } => "Detached"@,
            ServerMessage::FullScreen { .. } => "FullScreen"@,
            ServerMessage::Update { .. } => "Update"@,
            ServerMessage::SessionList(_) => "SessionList"@,
            ServerMessage::Error { .. } => "Error"@,
            ServerMessage::Pong => "Pong"@,
            ServerMessage::Shutdown => "Shutdown"@,
            ServerMessage::MouseMode { .. } => "MouseMode"@,
            ServerMessage::LayoutChanged { .. } => "LayoutChanged"@,
            ServerMessage::PaneUpdate { .. } => "PaneUpdate"@,
        },
{
    match msg {
        ServerMessage::HelloAck { .. } => "HelloAck",
        ServerMessage::Attached { .. } => "Attached",
        ServerMessage::Detached { .. } => "Detached",
        ServerMessage::FullScreen { .. } => "FullScreen",
        ServerMessage::Update { .. } => "Update",
        ServerMessage::SessionList(_) => "SessionList",
        ServerMessage::Error { .. } => "Error",
        ServerMessage::Pong => "Pong",
        ServerMessage::Shutdown => "Shutdown",
        ServerMessage::MouseMode { .. } => "MouseMode",
        ServerMessage::LayoutChanged { .. } => "LayoutChanged",
        ServerMessage::PaneUpdate { .. } => "PaneUpdate",
    }
}

/// How one read from the server's socket went.
#[derive(Debug, Clone, PartialEq)]
pub enum ReadOutcome {
    /// The bytes read; none means the server closed the connection.
    Got(Vec<u8>),
    /// Nothing to read now.
    WouldBlock,
    /// The read was interrupted by a signal.
    Interrupted,
    /// The read failed.
    Failed(IoError),
}

/// What to do after a read while waiting for a message.
#[derive(Debug, PartialEq)]
pub enum RecvStep {
    /// Read again.
    ReadMore,
    /// Stop: a frame's payload, `None` where a non-blocking wait found
    /// nothing, or the error.
    Done(Result<Option<Vec<u8>>, ProtocolError>),
}

/// Account for one read while waiting for a message: the bytes go to the
/// reader; a whole frame ends the wait. A blocking wait reads again when the
/// socket has nothing yet; a non-blocking one stops with `None`.
pub fn recv_step(reader: &mut MessageReader, outcome: ReadOutcome, blocking: bool) -> (step: RecvStep)
    requires
        old(reader).wf(),
        outcome matches ReadOutcome::Got(data) ==> old(reader).buffered().len() + data@.len() <= usize::MAX,
    ensures
        final(reader).wf(),
        match outcome {
            ReadOutcome::Got(data) => if data@.len() == 0 {
                step == RecvStep::Done(Err(ProtocolError::ConnectionClosed)) && final(reader).buffered()
                    == old(reader).buffered()
            } else {
                let (res, rest) = spec_feed(old(reader).buffered(), data@);
                &&& final(reader).buffered() == rest
                &&& match res {
                    Ok(Some(p)) => step matches RecvStep::Done(Ok(Some(v))) && v@ == p,
                    Ok(None) => step == RecvStep::ReadMore,
                    Err(e) => step == RecvStep::Done(Err(e)),
                }
            },
            ReadOutcome::WouldBlock => final(reader).buffered() == old(reader).buffered() && step == (if blocking {
                RecvStep::ReadMore
            } else {
                RecvStep::Done(Ok(None))
            }),
            ReadOutcome::Interrupted => final(reader).buffered() == old(reader).buffered() && step
                == RecvStep::ReadMore,
            ReadOutcome::Failed(e) => final(reader).buffered() == old(reader).buffered() && step
                == RecvStep::Done(Err(ProtocolError::Io(e))),
        },
{
    match outcome {
        ReadOutcome::Got(data) => {
            if data.len() == 0 {
                return RecvStep::Done(Err(ProtocolError::ConnectionClosed));
            }
            match reader.feed(data.as_slice()) {
                Ok(Some(p)) => RecvStep::Done(Ok(Some(p))),
                Ok(None) => RecvStep::ReadMore,
                Err(e) => RecvStep::Done(Err(e)),
            }
        },
        ReadOutcome::WouldBlock => {
            if blocking {
                RecvStep::ReadMore
            } else {
                RecvStep::Done(Ok(None))
            }
        },
        ReadOutcome::Interrupted => RecvStep::ReadMore,
        ReadOutcome::Failed(e) => RecvStep::Done(Err(ProtocolError::Io(e))),
    }
}

/// How many times a connection to the server is tried.
pub const CONNECT_RETRIES: u32 = 10;

/// The error when every attempt to reach a remote server through the tunnel
/// failed: a server started for this connection failed to come up, else the
/// connection failed after all attempts.
pub fn remote_retries_error(destination: &str, socket_path: &str, start_server: bool) -> (e: ClientError)
    ensures
        start_server ==> (e matches ClientError::RemoteStartupFailed(m) && m@ == "failed to connect to remote server "@
            + destination@ + ":"@ + socket_path@ + " after "@ + decimal(CONNECT_RETRIES as nat) + " attempts"@),
        !start_server ==> e == ClientError::ConnectionFailed(CONNECT_RETRIES),
{
    if start_server {
        let mut m = String::new();
        push_str(&mut m, "failed to connect to remote server ");
        push_str(&mut m, destination);
        push_str(&mut m, ":");
        push_str(&mut m, socket_path);
        push_str(&mut m, " after ");
        push_decimal(&mut m, CONNECT_RETRIES as u64);
        push_str(&mut m, " attempts");
        ClientError::RemoteStartupFailed(m)
    } else {
        ClientError::ConnectionFailed(CONNECT_RETRIES)
    }
}

} // verus!

