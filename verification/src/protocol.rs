//! The client-server protocol: message types and the length-prefixed framing.
//!
//! Wire format: a 4-byte little-endian payload length, then the payload (the
//! serialized message). Payload encoding is done by the program around this
//! library; this module owns the framing.

use vstd::prelude::*;

use crate::cell::Cell;
use crate::text::{decimal, push_decimal, push_str};

verus! {

/// Protocol version for compatibility checking.
pub const PROTOCOL_VERSION: u32 = 3;

/// Maximum payload size (16 MiB).
pub const MAX_MESSAGE_SIZE: u32 = 16 * 1024 * 1024;

/// Client capabilities for protocol negotiation.
#[derive(Debug, Clone, PartialEq, Default)]
pub struct ClientCapabilities {
    /// The client composites pane updates itself.
    pub supports_pane_updates: bool,
}

/// Messages sent from client to server.
#[derive(Debug, Clone, PartialEq)]
pub enum ClientMessage {
    /// Initial handshake.
    Hello {
        version: u32,
        term_cols: u16,
        term_rows: u16,
        term_type: String,
        capabilities: Option<ClientCapabilities>,
    },
    /// Attach to a session (`None` for the default one).
    Attach { session_name: Option<String>, create: bool },
    /// Detach from the current session.
    Detach,
    /// Input bytes for the focused pane.
    Input(Vec<u8>),
    /// The terminal was resized.
    Resize { cols: u16, rows: u16 },
    /// Scroll the focused pane's view (positive goes back in history).
    Scroll { lines: i32 },
    /// A command-mode action.
    Command(CommandAction),
    /// List all sessions.
    ListSessions,
    /// Kill a session by name.
    KillSession { name: String },
    /// Rename the current session.
    RenameSession { new_name: String },
    /// Heartbeat.
    Ping,
    /// Ask the server to shut down cleanly.
    ShutdownServer,
}

/// Command-mode actions.
#[derive(Debug, Clone, PartialEq)]
pub enum CommandAction {
    SplitHorizontal,
    SplitVertical,
    ClosePane,
    NavigatePane(Direction),
    NewWindow,
    CloseWindow,
    NextWindow,
    PrevWindow,
    SelectWindow(usize),
    Quit,
}

/// Direction for pane navigation.
#[derive(Debug, Clone, Copy, PartialEq, Eq)]
pub enum Direction {
    Up,
    Down,
    Left,
    Right,
}

/// Messages sent from server to client.
#[derive(Debug, Clone, PartialEq)]
pub enum ServerMessage {
    HelloAck { version: u32, server_pid: u32 },
    Attached { session_id: u32, session_name: String, needs_full_redraw: bool },
    Detached { reason: DetachReason },
    FullScreen { rows: Vec<RenderedRow>, cursor: CursorState, status_line: String },
    Update { changed_rows: Vec<(u16, RenderedRow)>, cursor: CursorState, status_line: Option<String> },
    SessionList(Vec<SessionInfo>),
    Error { message: String },
    Pong,
    Shutdown,
    MouseMode { enabled: bool },
    LayoutChanged { layout: WindowLayout },
    PaneUpdate { pane_id: u32, changed_rows: Vec<PaneRow>, cursor: Option<CursorState> },
}

/// Why a client was detached.
#[derive(Debug, Clone, PartialEq)]
pub enum DetachReason {
    ClientRequested,
    SessionClosed,
    ServerShutdown,
    Replaced,
}

/// A pre-rendered row of terminal output.
#[derive(Debug, Clone, PartialEq)]
pub struct RenderedRow {
    pub content: String,
}

impl RenderedRow {
    /// A row with the given content.
    pub fn new(content: String) -> (r: RenderedRow)
        ensures
            r.content@ == content@,
    {
        RenderedRow { content }
    }

    /// An empty row.
    pub fn empty() -> (r: RenderedRow)
        ensures
            r.content@.len() == 0,
    {
        RenderedRow { content: String::new() }
    }
}

/// Cursor state for rendering.
#[derive(Debug, Clone, PartialEq)]
pub struct CursorState {
    pub row: u16,
    pub col: u16,
    pub visible: bool,
    pub shape: CursorShape,
}

impl Default for CursorState {
    fn default() -> (c: CursorState)
        ensures
            c.row == 0 && c.col == 0 && c.visible && c.shape == CursorShape::Block,
    {
        CursorState { row: 0, col: 0, visible: true, shape: CursorShape::Block }
    }
}

/// Cursor shapes.
#[derive(Debug, Clone, Copy, PartialEq, Eq, Structural)]
pub enum CursorShape {
    Block,
    Underline,
    Bar,
}

/// A session, for listing.
#[derive(Debug, Clone, PartialEq)]
pub struct SessionInfo {
    pub id: u32,
    pub name: String,
    pub created_at: u64,
    pub windows: usize,
    pub attached_clients: usize,
}

/// Where one pane sits on the screen.
#[derive(Debug, Clone, Copy, PartialEq, Eq, Structural)]
pub struct PaneLayout {
    pub pane_id: u32,
    pub x: u16,
    pub y: u16,
    pub width: u16,
    pub height: u16,
    pub focused: bool,
}

/// The panes of the active window.
#[derive(Debug, Clone, PartialEq)]
pub struct WindowLayout {
    pub panes: Vec<PaneLayout>,
    pub screen_cols: u16,
    pub screen_rows: u16,
}

/// A hyperlink over the columns `start_col..end_col` of a pane row.
#[derive(Debug, Clone, PartialEq)]
pub struct RowLink {
    pub start_col: u16,
    pub end_col: u16,
    /// Link id shared by every fragment of one logical link; zero means none.
    pub id: u32,
    pub url: String,
    /// Whether the link was found in the text rather than asked for by the application.
    pub detected: bool,
}

/// One row of pane content, in pane-local coordinates.
#[derive(Debug, Clone, PartialEq)]
pub struct PaneRow {
    pub row_idx: u16,
    pub cells: Vec<Cell>,
    /// The complete set of links on the row.
    pub links: Vec<RowLink>,
    /// Whether the row soft-wraps onto the next pane row.
    pub wrapped: bool,
}

impl PaneRow {
    /// A row without links that does not wrap.
    pub fn new(row_idx: u16, cells: Vec<Cell>) -> (r: PaneRow)
        ensures
            r.row_idx == row_idx,
            r.cells@ == cells@,
            r.links@.len() == 0,
            !r.wrapped,
    {
        PaneRow { row_idx, cells, links: Vec::new(), wrapped: false }
    }

    /// A row with the given links that does not wrap.
    pub fn with_links(row_idx: u16, cells: Vec<Cell>, links: Vec<RowLink>) -> (r: PaneRow)
        ensures
            r.row_idx == row_idx,
            r.cells@ == cells@,
            r.links@ == links@,
            !r.wrapped,
    {
        PaneRow { row_idx, cells, links, wrapped: false }
    }

    /// The same row with its wrap flag set to `wrapped`.
    pub fn wrapped(self, wrapped: bool) -> (r: PaneRow)
        ensures
            r.row_idx == self.row_idx,
            r.cells@ == self.cells@,
            r.links@ == self.links@,
            r.wrapped == wrapped,
    {
        PaneRow { wrapped, ..self }
    }
}

/// The kinds of I/O failure the logic tells apart.
#[derive(Debug, Clone, Copy, PartialEq, Eq, Structural)]
pub enum IoErrorKind {
    BrokenPipe,
    ConnectionRefused,
    ConnectionReset,
    NotFound,
    WouldBlock,
    Interrupted,
    UnexpectedEof,
    Other,
}

/// An I/O failure: its kind and its description.
#[derive(Debug, Clone, PartialEq)]
pub struct IoError {
    pub kind: IoErrorKind,
    pub message: String,
}

/// Errors of the protocol layer.
#[derive(Debug, Clone, PartialEq)]
pub enum ProtocolError {
    /// An I/O failure.
    Io(IoError),
    /// A payload that did not decode, with the decoder's description.
    Serialization(String),
    /// A frame announced a payload above `MAX_MESSAGE_SIZE`.
    MessageTooLarge { size: u32 },
    /// The peer closed the connection.
    ConnectionClosed,
    /// Client and server speak different protocol versions.
    VersionMismatch { client: u32, server: u32 },
}

/// The text of a protocol error.
pub open spec fn protocol_error_text(e: ProtocolError) -> Seq<char> {
    match e {
        ProtocolError::Io(io) => "IO error: "@ + io.message@,
        ProtocolError::Serialization(m) => "Serialization error: "@ + m@,
        ProtocolError::MessageTooLarge { size } => "Message too large: "@ + decimal(size as nat)
            + " bytes (max "@ + decimal(MAX_MESSAGE_SIZE as nat) + ")"@,
        ProtocolError::ConnectionClosed => "Connection closed"@,
        ProtocolError::VersionMismatch { client, server } => "Protocol version mismatch: client="@
            + decimal(client as nat) + ", server="@ + decimal(server as nat),
    }
}

impl ProtocolError {
    /// The error as text.
    pub fn message(&self) -> (s: String)
        ensures
            s@ == protocol_error_text(*self),
    {
        let mut s = String::new();
        match self {
            ProtocolError::Io(io) => {
                push_str(&mut s, "IO error: ");
                push_str(&mut s, io.message.as_str());
            },
            ProtocolError::Serialization(m) => {
                push_str(&mut s, "Serialization error: ");
                push_str(&mut s, m.as_str());
            },
            ProtocolError::MessageTooLarge { size } => {
                push_str(&mut s, "Message too large: ");
                push_decimal(&mut s, *size as u64);
                push_str(&mut s, " bytes (max ");
                push_decimal(&mut s, MAX_MESSAGE_SIZE as u64);
                push_str(&mut s, ")");
            },
            ProtocolError::ConnectionClosed => {
                push_str(&mut s, "Connection closed");
            },
            ProtocolError::VersionMismatch { client, server } => {
                push_str(&mut s, "Protocol version mismatch: client=");
                push_decimal(&mut s, *client as u64);
                push_str(&mut s, ", server=");
                push_decimal(&mut s, *server as u64);
            },
        }
        assert(s@ =~= protocol_error_text(*self));
        s
    }
}

// ---------------------------------------------------------------------------
// Framing
// ---------------------------------------------------------------------------

/// The 4 little-endian bytes of `n`.
pub open spec fn le_bytes(n: u32) -> Seq<u8> {
    seq![
        (n % 256) as u8,
        ((n / 256) % 256) as u8,
        ((n / 65536) % 256) as u8,
        ((n / 16777216) % 256) as u8,
    ]
}

/// The number whose little-endian bytes open `b`.
pub open spec fn le_value(b: Seq<u8>) -> int {
    b[0] + 256 * b[1] + 65536 * b[2] + 16777216 * b[3]
}

/// The frame carrying `payload`.
pub open spec fn spec_frame(payload: Seq<u8>) -> Seq<u8> {
    le_bytes(payload.len() as u32) + payload
}

/// Decoding the length bytes gives back the length.
pub proof fn lemma_le_roundtrip(n: u32)
    ensures
        le_value(le_bytes(n)) == n,
        le_bytes(n).len() == 4,
{
    let b = le_bytes(n);
    assert(b[0] == n % 256);
    assert(b[1] == (n / 256) % 256);
    assert(b[2] == (n / 65536) % 256);
    assert(b[3] == (n / 16777216) % 256);
    assert(n / 16777216 < 256) by (nonlinear_arith)
        requires
            n <= u32::MAX,
    ;
    assert(n == n % 256 + 256 * ((n / 256) % 256) + 65536 * ((n / 65536) % 256) + 16777216 * (n
        / 16777216)) by (nonlinear_arith)
        requires
            n >= 0,
    ;
}

/// The little-endian bytes of `n`.
pub fn u32_to_le_bytes(n: u32) -> (b: [u8; 4])
    ensures
        b@ == le_bytes(n),
{
    [(n % 256) as u8, ((n / 256) % 256) as u8, ((n / 65536) % 256) as u8, ((n / 16777216) % 256) as u8]
}

/// The number whose little-endian bytes are `b`.
pub fn u32_from_le_bytes(b: [u8; 4]) -> (n: u32)
    ensures
        n == le_value(b@),
{
    let b0 = b[0] as u32;
    let b1 = b[1] as u32;
    let b2 = b[2] as u32;
    let b3 = b[3] as u32;
    b0 + 256 * b1 + 65536 * b2 + 16777216 * b3
}

/// Append `data` to `out`.
fn extend_bytes(out: &mut Vec<u8>, data: &[u8])
    ensures
        final(out)@ == old(out)@ + data@,
{
    let mut i: usize = 0;
    while i < data.len()
        invariant
            i <= data@.len(),
            out@ == old(out)@ + data@.subrange(0, i as int),
        decreases data@.len() - i,
    {
        out.push(data[i]);
        i = i + 1;
        assert(out@ =~= old(out)@ + data@.subrange(0, i as int));
    }
    assert(data@.subrange(0, data@.len() as int) =~= data@);
}

/// The bytes `data[from..to]`.
fn copy_range(data: &Vec<u8>, from: usize, to: usize) -> (r: Vec<u8>)
    requires
        from <= to <= data@.len(),
    ensures
        r@ == data@.subrange(from as int, to as int),
{
    let mut r: Vec<u8> = Vec::new();
    let mut i = from;
    while i < to
        invariant
            from <= i <= to,
            to <= data@.len(),
            r@ == data@.subrange(from as int, i as int),
        decreases to - i,
    {
        r.push(data[i]);
        i = i + 1;
        assert(r@ =~= data@.subrange(from as int, i as int));
    }
    r
}

/// Frame `payload` for the wire: its length as 4 little-endian bytes, then the
/// payload. Payloads above `MAX_MESSAGE_SIZE` are refused.
pub fn frame(payload: &[u8]) -> (r: Result<Vec<u8>, ProtocolError>)
    ensures
        payload@.len() <= MAX_MESSAGE_SIZE ==> r is Ok && r->Ok_0@ == spec_frame(payload@),
        payload@.len() > MAX_MESSAGE_SIZE ==> r is Err && r->Err_0 == (ProtocolError::MessageTooLarge {
            size: payload@.len() as u32,
        }),
{
    let len = payload.len();
    if len > MAX_MESSAGE_SIZE as usize {
        return Err(ProtocolError::MessageTooLarge { size: len as u32 });
    }
    let header = u32_to_le_bytes(len as u32);
    let mut out: Vec<u8> = Vec::new();
    extend_bytes(&mut out, &header);
    extend_bytes(&mut out, payload);
    Ok(out)
}

/// Check a frame header: the payload length it announces, or an error when
/// that length is above `MAX_MESSAGE_SIZE`.
pub fn frame_payload_len(header: [u8; 4]) -> (r: Result<u32, ProtocolError>)
    ensures
        le_value(header@) <= MAX_MESSAGE_SIZE ==> r == Ok::<u32, ProtocolError>(le_value(header@) as u32),
        le_value(header@) > MAX_MESSAGE_SIZE ==> r == Err::<u32, ProtocolError>(ProtocolError::MessageTooLarge {
            size: le_value(header@) as u32,
        }),
{
    let len = u32_from_le_bytes(header);
    if len > MAX_MESSAGE_SIZE {
        Err(ProtocolError::MessageTooLarge { size: len })
    } else {
        Ok(len)
    }
}

/// What feeding `data` to a reader holding `buffered` gives: the result and the
/// bytes left buffered.
pub open spec fn spec_feed(buffered: Seq<u8>, data: Seq<u8>) -> (Result<Option<Seq<u8>>, ProtocolError>, Seq<u8>) {
    let b = buffered + data;
    if b.len() < 4 {
        (Ok(None), b)
    } else {
        let len = le_value(b);
        if len > MAX_MESSAGE_SIZE {
            (Err(ProtocolError::MessageTooLarge { size: len as u32 }), b)
        } else if b.len() >= 4 + len {
            (Ok(Some(b.subrange(4, 4 + len))), b.skip(4 + len))
        } else {
            (Ok(None), b)
        }
    }
}

/// Non-blocking reader that reassembles frames from partial reads.
pub struct MessageReader {
    buffer: Vec<u8>,
    expected_len: Option<u32>,
}

impl MessageReader {
    /// The bytes buffered and not yet returned.
    pub closed spec fn buffered(&self) -> Seq<u8> {
        self.buffer@
    }

    /// A remembered length agrees with the buffered header.
    pub closed spec fn wf(&self) -> bool {
        match self.expected_len {
            Some(len) => self.buffer@.len() >= 4 && len == le_value(self.buffer@) && len <= MAX_MESSAGE_SIZE,
            None => true,
        }
    }

    /// An empty reader.
    pub fn new() -> (r: MessageReader)
        ensures
            r.buffered() == Seq::<u8>::empty(),
            r.wf(),
    {
        MessageReader { buffer: Vec::new(), expected_len: None }
    }

    /// Feed bytes and try to take out one complete frame's payload.
    ///
    /// Returns `Ok(Some(payload))` when a whole frame is buffered (and consumes
    /// it, so the next frame can follow), `Ok(None)` when more data is needed,
    /// and an error when the buffered header announces an oversized payload.
    pub fn feed(&mut self, data: &[u8]) -> (r: Result<Option<Vec<u8>>, ProtocolError>)
        requires
            old(self).wf(),
            old(self).buffered().len() + data@.len() <= usize::MAX,
        ensures
            final(self).wf(),
            ({
                let (res, rest) = spec_feed(old(self).buffered(), data@);
                &&& final(self).buffered() == rest
                &&& match (r, res) {
                    (Ok(Some(p)), Ok(Some(q))) => p@ == q,
                    (Ok(None), Ok(None)) => true,
                    (Err(e), Err(f)) => e == f,
                    _ => false,
                }
            }),
    {
        extend_bytes(&mut self.buffer, data);
        let ghost b = self.buffer@;
        assert(b == old(self).buffered() + data@);
        if self.expected_len.is_none() && self.buffer.len() >= 4 {
            let header: [u8; 4] = [self.buffer[0], self.buffer[1], self.buffer[2], self.buffer[3]];
            assert(header@ =~= b.subrange(0, 4));
            let len = u32_from_le_bytes(header);
            if len > MAX_MESSAGE_SIZE {
                return Err(ProtocolError::MessageTooLarge { size: len });
            }
            self.expected_len = Some(len);
        }
        if let Some(len) = self.expected_len {
            let total = 4 + len as usize;
            if self.buffer.len() >= total {
                let payload = copy_range(&self.buffer, 4, total);
                let rest = copy_range(&self.buffer, total, self.buffer.len());
                assert(rest@ =~= b.skip(total as int));
                self.buffer = rest;
                self.expected_len = None;
                return Ok(Some(payload));
            }
        }
        Ok(None)
    }

    /// Whether nothing is buffered.
    pub fn is_empty(&self) -> (b: bool)
        ensures
            b == (self.buffered().len() == 0),
    {
        self.buffer.len() == 0
    }

    /// Number of bytes buffered.
    pub fn buffered_len(&self) -> (n: usize)
        ensures
            n == self.buffered().len(),
    {
        self.buffer.len()
    }
}

impl Default for MessageReader {
    fn default() -> (r: MessageReader)
        ensures
            r.buffered() == Seq::<u8>::empty(),
            r.wf(),
    {
        MessageReader::new()
    }
}

/// Feeding a reader the bytes of a frame, split anywhere between what it
/// already buffered and what arrives now, gives back that frame's payload and
/// keeps whatever follows the frame for the next call.
pub proof fn law_reader_returns_framed_payload(
    buffered: Seq<u8>,
    data: Seq<u8>,
    payload: Seq<u8>,
    rest: Seq<u8>,
)
    requires
        payload.len() <= MAX_MESSAGE_SIZE,
        buffered + data == spec_frame(payload) + rest,
    ensures
        spec_feed(buffered, data) == (Ok::<Option<Seq<u8>>, ProtocolError>(Some(payload)), rest),
{
    let b = buffered + data;
    let f = spec_frame(payload);
    lemma_le_roundtrip(payload.len() as u32);
    assert(b.subrange(0, 4) == f.subrange(0, 4));
    assert(le_value(b) == le_value(f));
    assert(le_value(f) == payload.len());
    assert(b.subrange(4, 4 + payload.len() as int) =~= payload);
    assert(b.skip(4 + payload.len() as int) =~= rest);
}

/// A reader that has seen only part of a frame asks for more and keeps every
/// byte.
pub proof fn law_reader_waits_for_whole_frame(
    buffered: Seq<u8>,
    data: Seq<u8>,
    payload: Seq<u8>,
    k: int,
)
    requires
        payload.len() <= MAX_MESSAGE_SIZE,
        0 <= k < spec_frame(payload).len(),
        buffered + data == spec_frame(payload).take(k),
    ensures
        spec_feed(buffered, data) == (Ok::<Option<Seq<u8>>, ProtocolError>(None), buffered + data),
{
    let b = buffered + data;
    let f = spec_frame(payload);
    lemma_le_roundtrip(payload.len() as u32);
    if b.len() >= 4 {
        assert(b[0] == f[0] && b[1] == f[1] && b[2] == f[2] && b[3] == f[3]);
        assert(le_value(b) == le_value(f));
    }
}

/// How one attempt to write the pending bytes went.
#[derive(Debug, Clone, PartialEq)]
pub enum WriteOutcome {
    /// The writer took this many bytes.
    Wrote(usize),
    /// The writer would block; try again later.
    WouldBlock,
    /// The write failed.
    Failed(IoError),
}

/// What a flush does after a write attempt.
#[derive(Debug, PartialEq)]
pub enum FlushStep {
    /// Bytes are still pending: write again.
    Continue,
    /// The flush is over: `Ok(true)` when everything went out, `Ok(false)` when
    /// the writer would block, or the error.
    Finished(Result<bool, ProtocolError>),
}

/// Non-blocking writer that queues frames and tracks partial writes.
pub struct MessageWriter {
    buffer: Vec<u8>,
    written: usize,
}

impl MessageWriter {
    /// The bytes queued and not yet written.
    pub closed spec fn pending(&self) -> Seq<u8> {
        self.buffer@.skip(self.written as int)
    }

    pub closed spec fn wf(&self) -> bool {
        self.written <= self.buffer@.len()
    }

    /// An empty writer.
    pub fn new() -> (w: MessageWriter)
        ensures
            w.wf(),
            w.pending() == Seq::<u8>::empty(),
    {
        MessageWriter { buffer: Vec::new(), written: 0 }
    }

    /// Queue the frame of `payload`. Oversized payloads are refused and nothing
    /// is queued.
    pub fn queue(&mut self, payload: &[u8]) -> (r: Result<(), ProtocolError>)
        requires
            old(self).wf(),
            old(self).buffered_total() + payload@.len() + 4 <= usize::MAX,
        ensures
            final(self).wf(),
            payload@.len() <= MAX_MESSAGE_SIZE ==> r is Ok && final(self).pending() == old(self).pending()
                + spec_frame(payload@),
            payload@.len() > MAX_MESSAGE_SIZE ==> r == Err::<(), ProtocolError>(ProtocolError::MessageTooLarge {
                size: payload@.len() as u32,
            }) && final(self).pending() == old(self).pending(),
    {
        let framed = frame(payload);
        match framed {
            Ok(bytes) => {
                let ghost before = self.buffer@;
                extend_bytes(&mut self.buffer, bytes.as_slice());
                assert(self.buffer@.skip(self.written as int) =~= before.skip(self.written as int)
                    + bytes@);
                Ok(())
            },
            Err(e) => Err(e),
        }
    }

    /// Total bytes held, written or not.
    pub closed spec fn buffered_total(&self) -> nat {
        self.buffer@.len()
    }

    /// The bytes still to be written.
    pub fn pending_bytes(&self) -> (v: Vec<u8>)
        requires
            self.wf(),
        ensures
            v@ == self.pending(),
    {
        let v = copy_range(&self.buffer, self.written, self.buffer.len());
        assert(v@ =~= self.pending());
        v
    }

    /// Account for one attempt to write the pending bytes.
    pub fn flush_step(&mut self, outcome: WriteOutcome) -> (step: FlushStep)
        requires
            old(self).wf(),
            old(self).pending().len() > 0,
            outcome matches WriteOutcome::Wrote(n) ==> n <= old(self).pending().len(),
        ensures
            final(self).wf(),
            match outcome {
                WriteOutcome::Wrote(n) => if n == 0 {
                    step == FlushStep::Finished(Err(ProtocolError::ConnectionClosed))
                        && final(self).pending() == old(self).pending()
                } else if n == old(self).pending().len() {
                    step == FlushStep::Finished(Ok(true)) && final(self).pending().len() == 0
                        && final(self).buffered_total() == 0
                } else {
                    step == FlushStep::Continue && final(self).pending() == old(self).pending().skip(
                        n as int,
                    )
                },
                WriteOutcome::WouldBlock => step == FlushStep::Finished(Ok(false))
                    && final(self).pending() == old(self).pending(),
                WriteOutcome::Failed(m) => step == FlushStep::Finished(Err(ProtocolError::Io(m)))
                    && final(self).pending() == old(self).pending(),
            },
    {
        match outcome {
            WriteOutcome::Wrote(n) => {
                if n == 0 {
                    FlushStep::Finished(Err(ProtocolError::ConnectionClosed))
                } else {
                    assert(outcome == WriteOutcome::Wrote(n));
                    assert(n <= old(self).pending().len());
                    let blen = self.buffer.len();
                    assert(self.buffer@.skip(self.written as int).len() == self.buffer@.len() - self.written);
                    assert(self.written + n <= blen);
                    self.written = self.written + n;
                    if self.written == self.buffer.len() {
                        self.buffer.clear();
                        self.written = 0;
                        FlushStep::Finished(Ok(true))
                    } else {
                        assert(self.buffer@.skip(self.written as int) =~= old(self).pending().skip(n as int));
                        FlushStep::Continue
                    }
                }
            },
            WriteOutcome::WouldBlock => FlushStep::Finished(Ok(false)),
            WriteOutcome::Failed(m) => FlushStep::Finished(Err(ProtocolError::Io(m))),
        }
    }

    /// With nothing pending, drop the written bytes.
    pub fn reset_if_flushed(&mut self) -> (done: bool)
        requires
            old(self).wf(),
        ensures
            final(self).wf(),
            done == (old(self).pending().len() == 0),
            done ==> final(self).buffered_total() == 0,
            !done ==> *final(self) == *old(self),
    {
        if self.written < self.buffer.len() {
            false
        } else {
            self.buffer.clear();
            self.written = 0;
            true
        }
    }

    /// Whether bytes are waiting to be written.
    pub fn has_pending(&self) -> (b: bool)
        requires
            self.wf(),
        ensures
            b == (self.pending().len() > 0),
    {
        self.written < self.buffer.len()
    }

    /// Number of bytes waiting to be written.
    pub fn pending_len(&self) -> (n: usize)
        requires
            self.wf(),
        ensures
            n == self.pending().len(),
    {
        self.buffer.len() - self.written
    }
}

impl Default for MessageWriter {
    fn default() -> (w: MessageWriter)
        ensures
            w.wf(),
            w.pending() == Seq::<u8>::empty(),
    {
        MessageWriter::new()
    }
}

/// What a writer sends, a reader gives back: the frames of two queued
/// payloads, read as one stream, come out as the payloads, in order, with
/// nothing left over.
pub proof fn law_queued_frames_read_back(p1: Seq<u8>, p2: Seq<u8>)
    requires
        p1.len() <= MAX_MESSAGE_SIZE,
        p2.len() <= MAX_MESSAGE_SIZE,
    ensures
        spec_feed(Seq::empty(), spec_frame(p1) + spec_frame(p2)) == (Ok::<Option<Seq<u8>>, ProtocolError>(
            Some(p1),
        ), spec_frame(p2)),
        spec_feed(spec_frame(p2), Seq::empty()) == (Ok::<Option<Seq<u8>>, ProtocolError>(Some(p2)), Seq::<
            u8,
        >::empty()),
{
    assert(Seq::<u8>::empty() + (spec_frame(p1) + spec_frame(p2)) =~= spec_frame(p1) + spec_frame(p2));
    law_reader_returns_framed_payload(Seq::empty(), spec_frame(p1) + spec_frame(p2), p1, spec_frame(p2));
    assert(spec_frame(p2) + Seq::<u8>::empty() =~= spec_frame(p2) + Seq::<u8>::empty());
    law_reader_returns_framed_payload(spec_frame(p2), Seq::empty(), p2, Seq::empty());
}

} // verus!

