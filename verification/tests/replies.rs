//! What the client makes of the server's replies and of each socket read.

use clux::client::error::ClientError;
use clux::client::replies::{
    attach_reply, connect_error, contains_text, detach_reply, handshake_reply, msg_type, ping_reply,
    recv_step, sessions_reply, shutdown_reply, shutdown_supported, DetachStep, ReadOutcome,
    RecvStep,
};
use clux::protocol::{
    frame, DetachReason, IoError, IoErrorKind, MessageReader, ProtocolError, ServerMessage,
};

fn error(message: &str) -> ServerMessage {
    ServerMessage::Error { message: message.to_string() }
}

#[test]
fn handshake_takes_the_server_version() {
    let ack = ServerMessage::HelloAck { version: 3, server_pid: 42 };
    assert_eq!(handshake_reply(ack), Ok(3));
    assert_eq!(
        handshake_reply(error("busy")),
        Err(ClientError::HandshakeFailed("busy".to_string()))
    );
    match handshake_reply(ServerMessage::Pong) {
        Err(ClientError::UnexpectedResponse(d)) => assert_eq!(d, "Pong"),
        other => panic!("unexpected {:?}", other),
    }
}

#[test]
fn attach_maps_not_found_to_the_requested_session() {
    let attached = ServerMessage::Attached {
        session_id: 7,
        session_name: "work".to_string(),
        needs_full_redraw: true,
    };
    assert_eq!(attach_reply(attached, None), Ok((7, "work".to_string())));
    assert_eq!(
        attach_reply(error("session 'x' not found"), Some("x".to_string())),
        Err(ClientError::SessionNotFound("x".to_string()))
    );
    assert_eq!(
        attach_reply(error("session not found"), None),
        Err(ClientError::SessionNotFound("default".to_string()))
    );
    assert_eq!(
        attach_reply(error("denied"), None),
        Err(ClientError::ServerError("denied".to_string()))
    );
}

#[test]
fn detach_waits_through_updates() {
    assert_eq!(detach_reply(ServerMessage::MouseMode { enabled: true }), DetachStep::Wait);
    assert_eq!(
        detach_reply(ServerMessage::Detached { reason: DetachReason::ClientRequested }),
        DetachStep::Detached
    );
    assert_eq!(
        detach_reply(error("no")),
        DetachStep::Failed(ClientError::ServerError("no".to_string()))
    );
    assert!(matches!(
        detach_reply(ServerMessage::Pong),
        DetachStep::Failed(ClientError::UnexpectedResponse(_))
    ));
}

#[test]
fn simple_replies() {
    assert_eq!(ping_reply(ServerMessage::Pong), Ok(()));
    assert_eq!(sessions_reply(ServerMessage::SessionList(Vec::new())), Ok(Vec::new()));
    assert!(sessions_reply(ServerMessage::Pong).is_err());
}

#[test]
fn shutdown_needs_version_three_and_accepts_a_closed_connection() {
    assert_eq!(
        shutdown_supported(2),
        Err(ClientError::UnsupportedServerVersion { required: 3, actual: 2 })
    );
    assert_eq!(shutdown_supported(3), Ok(()));
    assert_eq!(shutdown_reply(Ok(ServerMessage::Shutdown)), Ok(()));
    assert_eq!(shutdown_reply(Err(ProtocolError::ConnectionClosed)), Ok(()));
    assert_eq!(
        shutdown_reply(Err(ProtocolError::VersionMismatch { client: 3, server: 2 })),
        Err(ClientError::Protocol(ProtocolError::VersionMismatch { client: 3, server: 2 }))
    );
}

#[test]
fn unreachable_remote_without_autostart_reports_one_attempt() {
    let refused = ClientError::Protocol(ProtocolError::Io(IoError {
        kind: IoErrorKind::ConnectionRefused,
        message: "refused".to_string(),
    }));
    assert_eq!(connect_error(refused.clone(), true, false), ClientError::ConnectionFailed(1));
    assert_eq!(connect_error(refused.clone(), true, true), refused);
    assert_eq!(connect_error(refused.clone(), false, false), refused);
}

#[test]
fn message_kinds_and_substrings() {
    assert_eq!(msg_type(&ServerMessage::Pong), "Pong");
    assert_eq!(msg_type(&error("x")), "Error");
    assert!(contains_text("session not found", "not found"));
    assert!(contains_text("abc", ""));
    assert!(!contains_text("not foun", "not found"));
}

#[test]
fn reads_are_reassembled_into_frames() {
    let mut reader = MessageReader::new();
    let framed = frame(&[5, 6, 7]).unwrap();
    assert_eq!(recv_step(&mut reader, ReadOutcome::Got(framed[..3].to_vec()), true), RecvStep::ReadMore);
    assert_eq!(recv_step(&mut reader, ReadOutcome::WouldBlock, true), RecvStep::ReadMore);
    assert_eq!(recv_step(&mut reader, ReadOutcome::WouldBlock, false), RecvStep::Done(Ok(None)));
    assert_eq!(recv_step(&mut reader, ReadOutcome::Interrupted, false), RecvStep::ReadMore);
    assert_eq!(
        recv_step(&mut reader, ReadOutcome::Got(framed[3..].to_vec()), true),
        RecvStep::Done(Ok(Some(vec![5, 6, 7])))
    );
    assert_eq!(
        recv_step(&mut reader, ReadOutcome::Got(Vec::new()), true),
        RecvStep::Done(Err(ProtocolError::ConnectionClosed))
    );
}
