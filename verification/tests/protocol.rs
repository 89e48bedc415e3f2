//! Length-prefixed framing: the reader that reassembles frames from partial
//! reads and the writer that tracks partial writes.

use clux::protocol::{
    frame, frame_payload_len, FlushStep, MessageReader, MessageWriter, ProtocolError, WriteOutcome,
    MAX_MESSAGE_SIZE,
};

/// The payload of a message without fields: its variant index.
fn ping() -> Vec<u8> {
    vec![6, 0, 0, 0]
}

fn detach() -> Vec<u8> {
    vec![3, 0, 0, 0]
}

/// A payload with a byte vector: variant index, length, bytes.
fn input_of_ten() -> Vec<u8> {
    let mut p = vec![4, 0, 0, 0, 10, 0, 0, 0, 0, 0, 0, 0];
    p.extend_from_slice(&[1, 2, 3, 4, 5, 6, 7, 8, 9, 10]);
    p
}

#[test]
fn test_message_reader_complete_message() {
    let writer = frame(&ping()).unwrap();

    let mut reader = MessageReader::new();
    let result = reader.feed(&writer).unwrap();

    assert_eq!(result, Some(ping()));
    assert!(reader.is_empty());
}

#[test]
fn test_message_reader_partial_length() {
    let writer = frame(&ping()).unwrap();

    let mut reader = MessageReader::new();

    let result = reader.feed(&writer[..2]).unwrap();
    assert_eq!(result, None);
    assert_eq!(reader.buffered_len(), 2);

    let result = reader.feed(&writer[2..]).unwrap();
    assert_eq!(result, Some(ping()));
    assert!(reader.is_empty());
}

#[test]
fn test_message_reader_partial_payload() {
    let writer = frame(&input_of_ten()).unwrap();

    let mut reader = MessageReader::new();

    let result = reader.feed(&writer[..6]).unwrap();
    assert_eq!(result, None);

    let result = reader.feed(&writer[6..10]).unwrap();
    assert_eq!(result, None);

    let result = reader.feed(&writer[10..]).unwrap();
    assert_eq!(result, Some(input_of_ten()));
}

#[test]
fn test_message_reader_multiple_messages() {
    let mut writer = frame(&ping()).unwrap();
    writer.extend_from_slice(&frame(&detach()).unwrap());

    let mut reader = MessageReader::new();

    let result1 = reader.feed(&writer).unwrap();
    assert_eq!(result1, Some(ping()));

    let result2 = reader.feed(&[]).unwrap();
    assert_eq!(result2, Some(detach()));

    assert!(reader.is_empty());
}

#[test]
fn test_message_writer_queue_and_flush() {
    let mut writer = MessageWriter::new();

    writer.queue(&ping()).unwrap();
    writer.queue(&detach()).unwrap();

    assert!(writer.has_pending());

    let output = writer.pending_bytes();
    let step = writer.flush_step(WriteOutcome::Wrote(output.len()));

    assert_eq!(step, FlushStep::Finished(Ok(true)));
    assert!(!writer.has_pending());

    let mut reader = MessageReader::new();
    assert_eq!(reader.feed(&output).unwrap(), Some(ping()));
    assert_eq!(reader.feed(&[]).unwrap(), Some(detach()));
}

#[test]
fn test_message_reader_recovers_after_invalid_frame() {
    let mut bytes = Vec::new();
    bytes.extend_from_slice(&1u32.to_le_bytes());
    bytes.push(0xff);
    bytes.extend_from_slice(&frame(&ping()).unwrap());

    let mut reader = MessageReader::new();
    // The undecodable frame is consumed whole; decoding it is the caller's.
    let first = reader.feed(&bytes).unwrap();
    assert_eq!(first, Some(vec![0xff]));

    let second = reader.feed(&[]).unwrap();
    assert_eq!(second, Some(ping()));
    assert!(reader.is_empty());
}

#[test]
fn test_message_reader_oversized_length_prefix() {
    let mut reader = MessageReader::new();
    let len = MAX_MESSAGE_SIZE + 1;
    let result = reader.feed(&len.to_le_bytes());
    assert!(matches!(result, Err(ProtocolError::MessageTooLarge { .. })));
}

#[test]
fn test_message_writer_zero_write_is_connection_closed() {
    let mut writer = MessageWriter::new();
    writer.queue(&ping()).unwrap();

    let result = writer.flush_step(WriteOutcome::Wrote(0));
    assert!(matches!(result, FlushStep::Finished(Err(ProtocolError::ConnectionClosed))));
    assert!(writer.has_pending());
}

#[test]
fn test_message_too_large_error() {
    let fake_len: u32 = MAX_MESSAGE_SIZE + 1;
    let result = frame_payload_len(fake_len.to_le_bytes());

    assert!(matches!(result, Err(ProtocolError::MessageTooLarge { .. })));
}

#[test]
fn frames_carry_the_little_endian_length() {
    let framed = frame(&[9, 8, 7]).unwrap();
    assert_eq!(framed, vec![3, 0, 0, 0, 9, 8, 7]);
    assert_eq!(frame_payload_len([3, 0, 0, 0]), Ok(3));
    assert_eq!(frame_payload_len([0, 1, 0, 0]), Ok(256));
}

#[test]
fn partial_writes_keep_the_rest_pending() {
    let mut writer = MessageWriter::new();
    writer.queue(&[1, 2, 3]).unwrap();
    assert_eq!(writer.pending_len(), 7);
    assert_eq!(writer.flush_step(WriteOutcome::Wrote(5)), FlushStep::Continue);
    assert_eq!(writer.pending_bytes(), vec![2, 3]);
    assert_eq!(writer.flush_step(WriteOutcome::WouldBlock), FlushStep::Finished(Ok(false)));
    assert_eq!(writer.pending_len(), 2);
    assert_eq!(writer.flush_step(WriteOutcome::Wrote(2)), FlushStep::Finished(Ok(true)));
    assert!(writer.reset_if_flushed());
}

#[test]
fn protocol_errors_read_as_text() {
    assert_eq!(ProtocolError::ConnectionClosed.message(), "Connection closed");
    let too_large = ProtocolError::MessageTooLarge { size: 17_000_000 };
    assert!(too_large.message().starts_with("Message too large: 17000000 bytes"));
}
