//! Clipboard writes via OSC 52.
//!
//! The host terminal owns the system clipboard, so the copy is handed to it:
//!
//! ```text
//! ESC ] 52 ; c ; <base64 of the text> ESC \
//! ```
//!
//! This works the same on every platform and over SSH.

use vstd::prelude::*;
use vstd::string::StringSliceAdditionalSpecFns;

use crate::text::{push_char, push_decimal, push_str};

verus! {

/// Largest text handed to the host terminal in one OSC 52 sequence; terminals
/// drop oversized sequences, so they are refused instead.
pub const MAX_COPY_BYTES: usize = 65536;

/// Errors from a clipboard write.
#[derive(Debug, Clone, PartialEq, Eq)]
pub enum ClipboardError {
    /// The text exceeded [`MAX_COPY_BYTES`].
    TooLarge { bytes: usize },
    /// Writing to the host terminal failed.
    Io(String),
}

impl ClipboardError {
    /// The error as text.
    pub fn message(&self) -> (s: String)
        ensures
            self matches ClipboardError::TooLarge { bytes } ==> s@ == "selection is too large to copy: "@
                + crate::text::decimal(bytes as nat) + " bytes (limit "@ + crate::text::decimal(
                MAX_COPY_BYTES as nat,
            ) + ")"@,
            self matches ClipboardError::Io(e) ==> s@ == "clipboard write failed: "@ + e@,
    {
        let mut s = String::new();
        match self {
            ClipboardError::TooLarge { bytes } => {
                push_str(&mut s, "selection is too large to copy: ");
                push_decimal(&mut s, *bytes as u64);
                push_str(&mut s, " bytes (limit ");
                push_decimal(&mut s, MAX_COPY_BYTES as u64);
                push_str(&mut s, ")");
            },
            ClipboardError::Io(e) => {
                push_str(&mut s, "clipboard write failed: ");
                push_str(&mut s, e.as_str());
            },
        }
        s
    }
}

/// The base64 digit for a six-bit value.
pub open spec fn b64_digit(n: int) -> char {
    if n < 26 {
        (65 + n) as char
    } else if n < 52 {
        (97 + n - 26) as char
    } else if n < 62 {
        (48 + n - 52) as char
    } else if n == 62 {
        '+'
    } else {
        '/'
    }
}

/// The four characters encoding a chunk of one to three bytes, padded with
/// `=` for a short chunk.
pub open spec fn b64_chunk(c: Seq<u8>) -> Seq<char> {
    let b0: int = c[0] as int;
    let b1: int = if c.len() > 1 { c[1] as int } else { 0 };
    let b2: int = if c.len() > 2 { c[2] as int } else { 0 };
    let triple = b0 * 65536 + b1 * 256 + b2;
    seq![
        b64_digit(triple / 262144 % 64),
        b64_digit(triple / 4096 % 64),
        if c.len() > 1 { b64_digit(triple / 64 % 64) } else { '=' },
        if c.len() > 2 { b64_digit(triple % 64) } else { '=' },
    ]
}

/// Standard base64 (RFC 4648) with padding: each chunk of three bytes, the
/// last possibly shorter, as four characters.
pub open spec fn base64(s: Seq<u8>) -> Seq<char>
    decreases s.len(),
{
    if s.len() == 0 {
        Seq::empty()
    } else if s.len() <= 3 {
        b64_chunk(s)
    } else {
        b64_chunk(s.take(3)) + base64(s.skip(3))
    }
}

fn b64_digit_of(n: u32) -> (c: char)
    requires
        n < 64,
    ensures
        c == b64_digit(n as int),
{
    if n < 26 {
        char_of(65 + n)
    } else if n < 52 {
        char_of(97 + n - 26)
    } else if n < 62 {
        char_of(48 + n - 52)
    } else if n == 62 {
        '+'
    } else {
        '/'
    }
}

/// The ASCII character with code `n`.
fn char_of(n: u32) -> (c: char)
    requires
        n < 128,
    ensures
        c == n as char,
{
    (n as u8) as char
}

/// Standard base64 (RFC 4648) with padding.
pub fn base64_encode(input: &[u8]) -> (out: String)
    ensures
        out@ == base64(input@),
{
    let mut out = String::new();
    let mut i: usize = 0;
    assert(input@.skip(0) =~= input@);
    while i < input.len()
        invariant
            i <= input@.len(),
            out@ + base64(input@.skip(i as int)) == base64(input@),
        decreases input@.len() - i,
    {
        let rest = input.len() - i;
        let b0 = input[i] as u32;
        let b1 = if rest > 1 {
            input[i + 1] as u32
        } else {
            0
        };
        let b2 = if rest > 2 {
            input[i + 2] as u32
        } else {
            0
        };
        let triple = b0 * 65536 + b1 * 256 + b2;
        let ghost chunk = if rest <= 3 { input@.skip(i as int) } else { input@.skip(i as int).take(3) };
        let ghost before = out@;
        push_char(&mut out, b64_digit_of(triple / 262144 % 64));
        push_char(&mut out, b64_digit_of(triple / 4096 % 64));
        push_char(&mut out, if rest > 1 {
            b64_digit_of(triple / 64 % 64)
        } else {
            '='
        });
        push_char(&mut out, if rest > 2 {
            b64_digit_of(triple % 64)
        } else {
            '='
        });
        proof {
            assert(chunk[0] == input@[i as int]);
            assert(rest > 1 ==> chunk[1] == input@[i + 1]);
            assert(rest > 2 ==> chunk[2] == input@[i + 2]);
            assert(out@ =~= before + b64_chunk(chunk));
            if rest > 3 {
                assert(input@.skip(i as int).skip(3) =~= input@.skip(i + 3));
            }
        }
        i = if rest > 3 {
            i + 3
        } else {
            input.len()
        };
        proof {
            if rest <= 3 {
                assert(input@.skip(i as int) =~= Seq::<u8>::empty());
            }
        }
    }
    assert(input@.skip(i as int) =~= Seq::<u8>::empty());
    out
}

/// The OSC 52 sequence that copies text with UTF-8 bytes `bytes`.
pub open spec fn osc52(bytes: Seq<u8>) -> Seq<char> {
    "\x1b]52;c;"@ + base64(bytes) + "\x1b\\"@
}

/// Build the OSC 52 sequence that copies `text` to the host clipboard; text
/// longer than [`MAX_COPY_BYTES`] bytes is refused.
pub fn osc52_sequence(text: &str) -> (r: Result<String, ClipboardError>)
    ensures
        text.len() > MAX_COPY_BYTES ==> r == Err::<String, ClipboardError>(
            ClipboardError::TooLarge { bytes: text.len() },
        ),
        text.len() <= MAX_COPY_BYTES ==> (r matches Ok(s) && s@ == osc52(text.spec_bytes())),
{
    if text.len() > MAX_COPY_BYTES {
        return Err(ClipboardError::TooLarge { bytes: text.len() });
    }
    let mut s = String::new();
    push_str(&mut s, "\x1b]52;c;");
    let encoded = base64_encode(text.as_bytes());
    push_str(&mut s, encoded.as_str());
    push_str(&mut s, "\x1b\\");
    assert(s@ =~= osc52(text.spec_bytes()));
    Ok(s)
}

/// Copy `text` to the host clipboard by appending the OSC 52 sequence to
/// `out`, the bytes bound for the host terminal.
pub fn copy_to_host(out: &mut Vec<u8>, text: &str) -> (r: Result<(), ClipboardError>)
    ensures
        text.len() > MAX_COPY_BYTES ==> r == Err::<(), ClipboardError>(
            ClipboardError::TooLarge { bytes: text.len() },
        ) && final(out)@ == old(out)@,
        text.len() <= MAX_COPY_BYTES ==> r is Ok && final(out)@ == old(out)@
            + crate::text::utf8(osc52(text.spec_bytes())),
{
    let sequence = match osc52_sequence(text) {
        Ok(s) => s,
        Err(e) => return Err(e),
    };
    let bytes = sequence.as_str().as_bytes();
    let mut i: usize = 0;
    while i < bytes.len()
        invariant
            i <= bytes@.len(),
            out@ == old(out)@ + bytes@.take(i as int),
        decreases bytes@.len() - i,
    {
        out.push(bytes[i]);
        i = i + 1;
        assert(out@ =~= old(out)@ + bytes@.take(i as int));
    }
    assert(bytes@.take(i as int) =~= bytes@);
    Ok(())
}

/// Base64 turns every three bytes, and a last one or two, into four
/// characters: the text is four times the number of started groups of three.
pub proof fn law_base64_length(s: Seq<u8>)
    ensures
        base64(s).len() == 4 * ((s.len() + 2) / 3),
    decreases s.len(),
{
    if s.len() > 3 {
        law_base64_length(s.skip(3));
    }
}

} // verus!

