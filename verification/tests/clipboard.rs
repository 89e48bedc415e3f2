//! OSC 52 clipboard writes and base64.

use clux::clipboard::{base64_encode, copy_to_host, osc52_sequence, ClipboardError, MAX_COPY_BYTES};

#[test]
fn base64_matches_rfc4648_vectors() {
    assert_eq!(base64_encode(b""), "");
    assert_eq!(base64_encode(b"f"), "Zg==");
    assert_eq!(base64_encode(b"fo"), "Zm8=");
    assert_eq!(base64_encode(b"foo"), "Zm9v");
    assert_eq!(base64_encode(b"foob"), "Zm9vYg==");
    assert_eq!(base64_encode(b"fooba"), "Zm9vYmE=");
    assert_eq!(base64_encode(b"foobar"), "Zm9vYmFy");
}

#[test]
fn base64_handles_non_ascii() {
    assert_eq!(base64_encode("é".as_bytes()), "w6k=");
    assert_eq!(base64_encode("世界".as_bytes()), "5LiW55WM");
}

#[test]
fn sequence_is_a_well_formed_osc52() {
    let seq = osc52_sequence("hi").unwrap();
    assert_eq!(seq, "\x1b]52;c;aGk=\x1b\\");
}

#[test]
fn oversized_copy_is_refused() {
    let big = "x".repeat(MAX_COPY_BYTES + 1);
    assert!(matches!(
        osc52_sequence(&big),
        Err(ClipboardError::TooLarge { .. })
    ));
    assert!(osc52_sequence(&"x".repeat(MAX_COPY_BYTES)).is_ok());
}

#[test]
fn copy_writes_the_sequence_to_the_terminal() {
    let mut out: Vec<u8> = Vec::new();
    copy_to_host(&mut out, "foobar").unwrap();
    assert_eq!(String::from_utf8(out).unwrap(), "\x1b]52;c;Zm9vYmFy\x1b\\");
}

#[test]
fn oversized_copy_writes_nothing_and_names_the_size() {
    let mut out: Vec<u8> = Vec::new();
    let big = "x".repeat(MAX_COPY_BYTES + 1);
    let err = copy_to_host(&mut out, &big).unwrap_err();
    assert!(out.is_empty());
    assert_eq!(err, ClipboardError::TooLarge { bytes: MAX_COPY_BYTES + 1 });
    assert_eq!(
        err.message(),
        "selection is too large to copy: 65537 bytes (limit 65536)"
    );
    assert_eq!(
        ClipboardError::Io("broken pipe".to_string()).message(),
        "clipboard write failed: broken pipe"
    );
}

#[test]
fn base64_of_all_byte_values_uses_the_whole_alphabet() {
    assert_eq!(base64_encode(&[0xfb, 0xff, 0xbf]), "+/+/");
    assert_eq!(base64_encode(&[0, 0, 0]), "AAAA");
    assert_eq!(base64_encode(&[0xff]), "/w==");
}
