//! The client's error type.

use vstd::prelude::*;

use crate::protocol::{protocol_error_text, IoError, IoErrorKind, ProtocolError};
use crate::text::{decimal, push_decimal, push_str};

verus! {

/// Client error type.
#[derive(Debug, Clone, PartialEq)]
pub enum ClientError {
    Io(IoError),
    Protocol(ProtocolError),
    ConnectionFailed(u32),
    HandshakeFailed(String),
    SessionNotFound(String),
    ServerError(String),
    /// A reply the client did not expect, by its debug description.
    UnexpectedResponse(String),
    SshUnavailable,
    RemoteStartupFailed(String),
    RemoteTunnelFailed(String),
    RemotePlatformUnsupported { os: String, arch: String },
    RemoteArtifactUnavailable { version: String, target: String, url: String },
    RemoteBootstrapFailed(String),
    RemoteMissingDownloadTool,
    InvalidRepositoryMetadata(String),
    UnsupportedServerVersion { required: u32, actual: u32 },
}

/// The text of a client error.
pub open spec fn client_error_text(e: ClientError) -> Seq<char> {
    match e {
        ClientError::Io(io) => "IO error: "@ + io.message@,
        ClientError::Protocol(p) => "Protocol error: "@ + protocol_error_text(p),
        ClientError::ConnectionFailed(n) => "Connection failed after "@ + decimal(n as nat) + " attempts"@,
        ClientError::HandshakeFailed(m) => "Handshake failed: "@ + m@,
        ClientError::SessionNotFound(m) => "Session not found: "@ + m@,
        ClientError::ServerError(m) => "Server error: "@ + m@,
        ClientError::UnexpectedResponse(m) => "Unexpected response: "@ + m@,
        ClientError::SshUnavailable => "ssh is required for --remote mode but was not found in PATH"@,
        ClientError::RemoteStartupFailed(m) => "Failed to start remote server: "@ + m@,
        ClientError::RemoteTunnelFailed(m) => "SSH tunnel failed: "@ + m@,
        ClientError::RemotePlatformUnsupported { os, arch } => "Unsupported remote platform: "@ + os@
            + "/"@ + arch@,
        ClientError::RemoteArtifactUnavailable { version, target, url } =>
            "No release artifact found for clux-server v"@ + version@ + " ("@ + target@ + ") at "@
            + url@,
        ClientError::RemoteBootstrapFailed(m) => "Remote bootstrap failed: "@ + m@,
        ClientError::RemoteMissingDownloadTool => "Neither curl nor wget is available on the remote host"@,
        ClientError::InvalidRepositoryMetadata(m) => "Invalid repository metadata for remote bootstrap: "@
            + m@,
        ClientError::UnsupportedServerVersion { required, actual } => "Server protocol version "@
            + decimal(actual as nat) + " does not support this operation (requires "@ + decimal(
            required as nat,
        ) + ")"@,
    }
}

impl ClientError {
    /// The error as text.
    pub fn message(&self) -> (s: String)
        ensures
            s@ == client_error_text(*self),
    {
        let mut s = String::new();
        match self {
            ClientError::Io(io) => {
                push_str(&mut s, "IO error: ");
                push_str(&mut s, io.message.as_str());
            },
            ClientError::Protocol(p) => {
                push_str(&mut s, "Protocol error: ");
                let t = p.message();
                push_str(&mut s, t.as_str());
            },
            ClientError::ConnectionFailed(n) => {
                push_str(&mut s, "Connection failed after ");
                push_decimal(&mut s, *n as u64);
                push_str(&mut s, " attempts");
            },
            ClientError::HandshakeFailed(m) => {
                push_str(&mut s, "Handshake failed: ");
                push_str(&mut s, m.as_str());
            },
            ClientError::SessionNotFound(m) => {
                push_str(&mut s, "Session not found: ");
                push_str(&mut s, m.as_str());
            },
            ClientError::ServerError(m) => {
                push_str(&mut s, "Server error: ");
                push_str(&mut s, m.as_str());
            },
            ClientError::UnexpectedResponse(m) => {
                push_str(&mut s, "Unexpected response: ");
                push_str(&mut s, m.as_str());
            },
            ClientError::SshUnavailable => {
                push_str(&mut s, "ssh is required for --remote mode but was not found in PATH");
            },
            ClientError::RemoteStartupFailed(m) => {
                push_str(&mut s, "Failed to start remote server: ");
                push_str(&mut s, m.as_str());
            },
            ClientError::RemoteTunnelFailed(m) => {
                push_str(&mut s, "SSH tunnel failed: ");
                push_str(&mut s, m.as_str());
            },
            ClientError::RemotePlatformUnsupported { os, arch } => {
                push_str(&mut s, "Unsupported remote platform: ");
                push_str(&mut s, os.as_str());
                push_str(&mut s, "/");
                push_str(&mut s, arch.as_str());
            },
            ClientError::RemoteArtifactUnavailable { version, target, url } => {
                push_str(&mut s, "No release artifact found for clux-server v");
                push_str(&mut s, version.as_str());
                push_str(&mut s, " (");
                push_str(&mut s, target.as_str());
                push_str(&mut s, ") at ");
                push_str(&mut s, url.as_str());
            },
            ClientError::RemoteBootstrapFailed(m) => {
                push_str(&mut s, "Remote bootstrap failed: ");
                push_str(&mut s, m.as_str());
            },
            ClientError::RemoteMissingDownloadTool => {
                push_str(&mut s, "Neither curl nor wget is available on the remote host");
            },
            ClientError::InvalidRepositoryMetadata(m) => {
                push_str(&mut s, "Invalid repository metadata for remote bootstrap: ");
                push_str(&mut s, m.as_str());
            },
            ClientError::UnsupportedServerVersion { required, actual } => {
                push_str(&mut s, "Server protocol version ");
                push_decimal(&mut s, *actual as u64);
                push_str(&mut s, " does not support this operation (requires ");
                push_decimal(&mut s, *required as u64);
                push_str(&mut s, ")");
            },
        }
        assert(s@ =~= client_error_text(*self));
        s
    }
}

/// Whether an error means the server could not be reached: a closed
/// connection, or an I/O failure of a broken pipe, a refused or reset
/// connection, or a missing socket.
pub open spec fn connection_failure(err: ClientError) -> bool {
    match err {
        ClientError::Protocol(ProtocolError::ConnectionClosed) => true,
        ClientError::Protocol(ProtocolError::Io(io)) => io.kind == IoErrorKind::BrokenPipe || io.kind
            == IoErrorKind::ConnectionRefused || io.kind == IoErrorKind::ConnectionReset || io.kind
            == IoErrorKind::NotFound,
        _ => false,
    }
}

/// Whether an error means the server could not be reached: a closed
/// connection, or an I/O failure of a broken pipe, a refused or reset
/// connection, or a missing socket.
pub fn is_connection_failure(err: &ClientError) -> (b: bool)
    ensures
        b == connection_failure(*err),
{
    match err {
        ClientError::Protocol(ProtocolError::ConnectionClosed) => true,
        ClientError::Protocol(ProtocolError::Io(io)) => match io.kind {
            IoErrorKind::BrokenPipe | IoErrorKind::ConnectionRefused | IoErrorKind::ConnectionReset
            | IoErrorKind::NotFound => true,
            _ => false,
        },
        _ => false,
    }
}

/// Whether a failed remote connection over the SSH tunnel should be retried
/// over the stdio bridge.
pub fn should_retry_remote_over_stdio(err: &ClientError) -> (b: bool)
    ensures
        b == (*err == ClientError::Protocol(ProtocolError::ConnectionClosed) || *err is RemoteTunnelFailed
            || *err is RemoteStartupFailed),
{
    match err {
        ClientError::Protocol(ProtocolError::ConnectionClosed) => true,
        ClientError::RemoteTunnelFailed(_) => true,
        ClientError::RemoteStartupFailed(_) => true,
        _ => false,
    }
}

} // verus!
