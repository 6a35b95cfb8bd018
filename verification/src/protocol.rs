//! Length-prefixed wire protocol shared by the service and terminal apps.
//!
//! A message is a `u32` big-endian length followed by that many bytes of body.
//! The body encoding (JSON) is applied by the caller; this module owns the
//! framing, the message shapes and the limits.

use vstd::prelude::*;

pub mod key_mod;
pub mod modifier;

verus! {

/// Largest message either side will accept, so a corrupt length prefix cannot
/// make the peer allocate without bound.
pub const MAX_MESSAGE_BYTES: usize = 8388608;

/// A cell color.
#[derive(Debug, Clone, Copy, PartialEq, Eq, Structural)]
pub enum Color {
    Reset,
    Black,
    Red,
    Green,
    Yellow,
    Blue,
    Magenta,
    Cyan,
    Gray,
    DarkGray,
    LightRed,
    LightGreen,
    LightYellow,
    LightBlue,
    LightMagenta,
    LightCyan,
    White,
    /// 24-bit true color.
    Rgb(u8, u8, u8),
    /// 8-bit 256-color palette index.
    Indexed(u8),
}

impl Default for Color {
    fn default() -> (c: Self)
        ensures
            c == Color::Reset,
    {
        Color::Reset
    }
}



/// Where the terminal cursor is, and whether the app wants it shown.
#[derive(Debug, Clone, Copy, PartialEq, Eq, Structural)]
pub struct Cursor {
    pub x: u16,
    pub y: u16,
    pub visible: bool,
}

impl Default for Cursor {
    fn default() -> (c: Self)
        ensures
            c == (Cursor { x: 0, y: 0, visible: false }),
    {
        Cursor { x: 0, y: 0, visible: false }
    }
}

/// One changed cell. `symbol` may be a multi-codepoint grapheme.
#[derive(Debug, Clone, PartialEq, Eq)]
pub struct CellOp {
    pub x: u16,
    pub y: u16,
    pub symbol: String,
    pub fg: Color,
    pub bg: Color,
    pub mods: u16,
}

/// Messages the app sends to the service.
#[derive(Debug, Clone, PartialEq, Eq)]
pub enum AppMessage {
    /// The app confirms the grid it has adopted.
    Ready { cols: u16, rows: u16 },
    /// The app's grid changed size.
    Resize { cols: u16, rows: u16 },
    /// Reset every cell and the cursor.
    Clear,
    /// One frame's worth of changed cells plus cursor state.
    Frame { cells: Vec<CellOp>, cursor: Cursor },
    /// The app's window title, if it has one.
    Title { title: String },
}

/// A key the human pressed.
#[derive(Debug, Clone, Copy, PartialEq, Eq, Structural)]
pub struct KeyEvent {
    pub code: KeyCode,
    pub mods: u8,
}

/// A key code independent of any backend library.
#[derive(Debug, Clone, Copy, PartialEq, Eq, Structural)]
pub enum KeyCode {
    Char(char),
    Enter,
    Esc,
    Backspace,
    Tab,
    BackTab,
    Up,
    Down,
    Left,
    Right,
    Home,
    End,
    PageUp,
    PageDown,
    Delete,
    Insert,
    F(u8),
}

/// A mouse event in cell coordinates (column, row), not pixels.
#[derive(Debug, Clone, Copy, PartialEq, Eq, Structural)]
pub struct MouseEvent {
    pub kind: MouseKind,
    pub col: u16,
    pub row: u16,
    pub button: MouseButton,
    pub mods: u8,
}

/// Which pointer button a [`MouseEvent`] refers to.
#[derive(Debug, Clone, Copy, PartialEq, Eq, Structural)]
pub enum MouseButton {
    Left,
    Middle,
    Right,
    /// No button, for movement and scroll events.
    NoButton,
}

impl Default for MouseButton {
    fn default() -> (b: Self)
        ensures
            b == MouseButton::Left,
    {
        MouseButton::Left
    }
}

#[derive(Debug, Clone, Copy, PartialEq, Eq, Structural)]
pub enum MouseKind {
    Down,
    Up,
    Drag,
    Moved,
    ScrollUp,
    ScrollDown,
}

/// Messages the service sends to the app.
#[derive(Debug, Clone, PartialEq, Eq)]
pub enum ServerMessage {
    /// The grid the service wants the app to render into. Sent once on connect
    /// and again whenever the viewer resizes.
    Size { cols: u16, rows: u16 },
    Key(KeyEvent),
    Mouse(MouseEvent),
    Paste { text: String },
    Focus { gained: bool },
    /// The session is ending; the app should exit cleanly.
    Quit,
}

/// Why a frame could not be written or read.
#[derive(Debug, Clone, Copy, PartialEq, Eq, Structural)]
pub enum FrameError {
    /// The declared or actual body length exceeds [`MAX_MESSAGE_BYTES`].
    Oversized(usize),
    /// The stream stopped after one to three header bytes.
    TruncatedHeader,
    /// The stream stopped before the declared body length.
    TruncatedBody,
}

/// The four big-endian bytes of `v`.
pub open spec fn be_bytes(v: u32) -> Seq<u8> {
    seq![(v >> 24u32) as u8, ((v >> 16u32) & 0xffu32) as u8, ((v >> 8u32) & 0xffu32) as u8, (v & 0xffu32) as u8]
}

/// The value of four big-endian bytes.
pub open spec fn be_value(b0: u8, b1: u8, b2: u8, b3: u8) -> u32 {
    (((b0 as u32) << 24u32) | ((b1 as u32) << 16u32) | ((b2 as u32) << 8u32) | (b3 as u32)) as u32
}

/// The header a stream starts with, read as a length.
pub open spec fn header_len(stream: Seq<u8>) -> u32
    recommends
        stream.len() >= 4,
{
    be_value(stream[0], stream[1], stream[2], stream[3])
}

/// The frame that carries `body`: its length in four big-endian bytes, then
/// the body.
pub open spec fn spec_frame(body: Seq<u8>) -> Result<Seq<u8>, FrameError> {
    if body.len() > MAX_MESSAGE_BYTES {
        Err(FrameError::Oversized(body.len() as usize))
    } else {
        Ok(be_bytes(body.len() as u32) + body)
    }
}

/// The first frame of a stream: `None` for a stream that ends before any
/// byte, otherwise the body and the number of bytes the frame took.
pub open spec fn spec_unframe(stream: Seq<u8>) -> Result<Option<(Seq<u8>, nat)>, FrameError> {
    if stream.len() == 0 {
        Ok(None)
    } else if stream.len() < 4 {
        Err(FrameError::TruncatedHeader)
    } else if header_len(stream) > MAX_MESSAGE_BYTES {
        Err(FrameError::Oversized(header_len(stream) as usize))
    } else if stream.len() < 4 + header_len(stream) {
        Err(FrameError::TruncatedBody)
    } else {
        Ok(Some((stream.subrange(4, 4 + header_len(stream)), (4 + header_len(stream)) as nat)))
    }
}

proof fn lemma_be_round_trip(v: u32)
    ensures
        be_value(be_bytes(v)[0], be_bytes(v)[1], be_bytes(v)[2], be_bytes(v)[3]) == v,
{
    let b0 = (v >> 24u32) as u8;
    let b1 = ((v >> 16u32) & 0xffu32) as u8;
    let b2 = ((v >> 8u32) & 0xffu32) as u8;
    let b3 = (v & 0xffu32) as u8;
    assert(be_value(b0, b1, b2, b3) == v) by (bit_vector)
        requires
            b0 == (v >> 24u32) as u8,
            b1 == ((v >> 16u32) & 0xffu32) as u8,
            b2 == ((v >> 8u32) & 0xffu32) as u8,
            b3 == (v & 0xffu32) as u8,
    ;
}

/// Reading back what was framed gives the body, whatever follows it in the
/// stream: frames never bleed into one another.
pub proof fn lemma_frame_round_trip(body: Seq<u8>, rest: Seq<u8>)
    requires
        body.len() <= MAX_MESSAGE_BYTES,
    ensures
        spec_frame(body) is Ok,
        spec_unframe(spec_frame(body)->Ok_0 + rest) == Ok::<Option<(Seq<u8>, nat)>, FrameError>(
            Some((body, (4 + body.len()) as nat)),
        ),
{
    let framed = spec_frame(body)->Ok_0;
    let stream = framed + rest;
    lemma_be_round_trip(body.len() as u32);
    assert(header_len(stream) == body.len());
    assert(stream.subrange(4, 4 + body.len() as int) =~= body);
}

/// The four big-endian bytes of a length.
pub fn encode_header(len: u32) -> (header: Vec<u8>)
    ensures
        header@ == be_bytes(len),
{
    let mut header: Vec<u8> = Vec::new();
    header.push((len >> 24u32) as u8);
    header.push(((len >> 16u32) & 0xffu32) as u8);
    header.push(((len >> 8u32) & 0xffu32) as u8);
    header.push((len & 0xffu32) as u8);
    assert(header@ =~= be_bytes(len));
    header
}

/// The body length a header announces, refused when it exceeds the limit.
pub fn body_length(header: &[u8]) -> (res: Result<usize, FrameError>)
    requires
        header.len() == 4,
    ensures
        res == (if header_len(header@) > MAX_MESSAGE_BYTES {
            Err(FrameError::Oversized(header_len(header@) as usize))
        } else {
            Ok(header_len(header@) as usize)
        }),
{
    let len: u32 = ((header[0] as u32) << 24u32) | ((header[1] as u32) << 16u32) | ((header[2] as u32)
        << 8u32) | (header[3] as u32);
    if len as usize > MAX_MESSAGE_BYTES {
        Err(FrameError::Oversized(len as usize))
    } else {
        Ok(len as usize)
    }
}

/// Frame one message body: its length prefix followed by the body.
pub fn frame(body: &[u8]) -> (res: Result<Vec<u8>, FrameError>)
    ensures
        res matches Ok(v) ==> spec_frame(body@) == Ok::<Seq<u8>, FrameError>(v@),
        res matches Err(e) ==> spec_frame(body@) == Err::<Seq<u8>, FrameError>(e),
{
    if body.len() > MAX_MESSAGE_BYTES {
        return Err(FrameError::Oversized(body.len()));
    }
    let mut out = encode_header(body.len() as u32);
    let mut i: usize = 0;
    while i < body.len()
        invariant
            i <= body.len(),
            body.len() <= MAX_MESSAGE_BYTES,
            out@ == be_bytes(body.len() as u32) + body@.subrange(0, i as int),
        decreases body.len() - i,
    {
        out.push(body[i]);
        i = i + 1;
        assert(out@ =~= be_bytes(body.len() as u32) + body@.subrange(0, i as int));
    }
    assert(body@.subrange(0, body.len() as int) =~= body@);
    Ok(out)
}

/// Read the first frame of a stream.
///
/// An empty stream is a clean end (`None`); a stream that stops inside the
/// header is an error, not an end, so a message cut off mid-frame is never
/// mistaken for a clean shutdown.
pub fn unframe(stream: &[u8]) -> (res: Result<Option<(Vec<u8>, usize)>, FrameError>)
    ensures
        match (res, spec_unframe(stream@)) {
            (Ok(None), Ok(None)) => true,
            (Ok(Some((body, used))), Ok(Some((sbody, sused)))) => body@ == sbody && used == sused,
            (Err(e), Err(se)) => e == se,
            _ => false,
        },
{
    if stream.len() == 0 {
        return Ok(None);
    }
    if stream.len() < 4 {
        return Err(FrameError::TruncatedHeader);
    }
    let header = slice_prefix(stream, 4);
    let len = match body_length(&header) {
        Ok(len) => len,
        Err(e) => return Err(e),
    };
    assert(header@ =~= stream@.subrange(0, 4));
    if stream.len() - 4 < len {
        return Err(FrameError::TruncatedBody);
    }
    let mut body: Vec<u8> = Vec::new();
    let mut i: usize = 0;
    while i < len
        invariant
            i <= len,
            4 + len <= stream.len(),
            body@ == stream@.subrange(4, 4 + i as int),
        decreases len - i,
    {
        body.push(stream[4 + i]);
        i = i + 1;
        assert(body@ =~= stream@.subrange(4, 4 + i as int));
    }
    Ok(Some((body, 4 + len)))
}

/// The first `n` bytes of a slice, copied.
fn slice_prefix(s: &[u8], n: usize) -> (res: Vec<u8>)
    requires
        n <= s.len(),
    ensures
        res@ == s@.subrange(0, n as int),
{
    let mut out: Vec<u8> = Vec::new();
    let mut i: usize = 0;
    while i < n
        invariant
            i <= n,
            n <= s.len(),
            out@ == s@.subrange(0, i as int),
        decreases n - i,
    {
        out.push(s[i]);
        i = i + 1;
        assert(out@ =~= s@.subrange(0, i as int));
    }
    out
}

} // verus!
