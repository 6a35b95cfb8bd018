//! Headless Wayland sessions: the decisions behind capture and input.
//!
//! The compositor, the application and the Wayland connection are driven by
//! the service. This module holds what is decided on the way: which buffer a
//! frame is copied into, when the next frame is requested, how a copied
//! buffer becomes RGB pixels, and how pointer input is expressed.

use crate::text::{decimal_text, push_char, push_decimal_text, str_eq};
use vstd::prelude::*;

verus! {

/// A mouse event expressed in output pixels.
#[derive(Debug, Clone, Copy, PartialEq, Eq, Structural)]
pub enum MouseAction {
    Down,
    Up,
    Move,
}

/// The Linux input code of a pointer button a viewer names: `BTN_RIGHT` for
/// `right`, `BTN_MIDDLE` for `middle`, `BTN_LEFT` for anything else.
pub open spec fn button_code(button: Seq<char>) -> u32 {
    if button == "right"@ {
        0x111
    } else if button == "middle"@ {
        0x112
    } else {
        0x110
    }
}

pub fn pointer_button(button: &str) -> (code: u32)
    ensures
        code == button_code(button@),
{
    if str_eq(button, "right") {
        0x111
    } else if str_eq(button, "middle") {
        0x112
    } else {
        0x110
    }
}

/// Why an output size is refused.
#[derive(Debug, Clone, Copy, PartialEq, Eq, Structural)]
pub enum DimensionError {
    /// A side is zero.
    Empty,
    /// A side does not fit the viewer's frame header.
    TooLarge,
}

impl DimensionError {
    pub fn message(&self) -> (m: &'static str)
        ensures
            *self == DimensionError::Empty ==> m@ == "desktop dimensions must be positive"@,
            *self == DimensionError::TooLarge ==> m@
                == "desktop dimensions exceed the viewer's maximum frame size"@,
    {
        match self {
            DimensionError::Empty => "desktop dimensions must be positive",
            DimensionError::TooLarge => "desktop dimensions exceed the viewer's maximum frame size",
        }
    }
}

/// A desktop output must have both sides positive and at most `u16::MAX`.
pub fn check_dimensions(width: u32, height: u32) -> (res: Result<(), DimensionError>)
    ensures
        (width == 0 || height == 0) ==> res == Err::<(), DimensionError>(DimensionError::Empty),
        (width > 0 && height > 0 && (width > 65535 || height > 65535)) ==> res == Err::<
            (),
            DimensionError,
        >(DimensionError::TooLarge),
        (0 < width <= 65535 && 0 < height <= 65535) ==> res is Ok,
{
    if width == 0 || height == 0 {
        return Err(DimensionError::Empty);
    }
    if width > 65535 || height > 65535 {
        return Err(DimensionError::TooLarge);
    }
    Ok(())
}

/// The compositor configuration of a desktop session: one output of the
/// session's size, no borders, no focus following the pointer.
pub open spec fn sway_config_view(width: u32, height: u32) -> Seq<char> {
    "output * mode "@ + decimal_text(width as nat) + "x"@ + decimal_text(height as nat)
        + "\ndefault_border none\nfocus_follows_mouse no\n"@
}

pub fn sway_config(width: u32, height: u32) -> (res: String)
    ensures
        res@ == sway_config_view(width, height),
{
    let mut out = String::from_str("output * mode ");
    push_decimal_text(&mut out, width as u128);
    push_char(&mut out, 'x');
    push_decimal_text(&mut out, height as u128);
    out.append("\ndefault_border none\nfocus_follows_mouse no\n");
    proof {
        reveal_strlit("x");
    }
    assert(out@ =~= sway_config_view(width, height));
    out
}

/// Milliseconds since the session started, as the pointer protocol's 32-bit
/// timestamp: saturated at `u32::MAX`.
pub fn elapsed_millis(millis: u128) -> (res: u32)
    ensures
        res == if millis > u32::MAX {
            u32::MAX as int
        } else {
            millis as int
        },
{
    if millis > 0xffff_ffff {
        0xffff_ffff
    } else {
        millis as u32
    }
}


/// The pixel layout of a shared-memory buffer the compositor offers.
#[derive(Debug, Clone, Copy, PartialEq, Eq, Structural)]
pub enum PixelFormat {
    /// 32-bit little-endian `XRGB`.
    Xrgb8888,
    /// 32-bit little-endian `ARGB`.
    Argb8888,
    /// Any other layout.
    Other,
}

/// The layouts a frame can be converted from.
pub open spec fn supported_format(format: PixelFormat) -> bool {
    format == PixelFormat::Xrgb8888 || format == PixelFormat::Argb8888
}

pub fn is_supported_format(format: PixelFormat) -> (res: bool)
    ensures
        res == supported_format(format),
{
    match format {
        PixelFormat::Xrgb8888 | PixelFormat::Argb8888 => true,
        PixelFormat::Other => false,
    }
}

/// The first `width` pixels of a row starting at byte `base`, as RGB: each
/// 4-byte little-endian pixel `B G R X` gives `R G B`.
pub open spec fn rgb_row(source: Seq<u8>, base: int, width: nat) -> Seq<u8>
    decreases width,
{
    if width == 0 {
        Seq::empty()
    } else {
        let p = base + 4 * (width - 1);
        rgb_row(source, base, (width - 1) as nat) + seq![source[p + 2], source[p + 1], source[p]]
    }
}

/// The buffer row that output row `y` comes from.
pub open spec fn source_row(y: int, height: int, invert_y: bool) -> int {
    if invert_y {
        height - 1 - y
    } else {
        y
    }
}

/// The first `rows` output rows of a frame, as RGB.
pub open spec fn rgb_image(
    source: Seq<u8>,
    stride: int,
    width: nat,
    height: nat,
    invert_y: bool,
    rows: nat,
) -> Seq<u8>
    decreases rows,
{
    if rows == 0 {
        Seq::empty()
    } else {
        rgb_image(source, stride, width, height, invert_y, (rows - 1) as nat) + rgb_row(
            source,
            source_row(rows - 1, height as int, invert_y) * stride,
            width,
        )
    }
}

/// A buffer in a layout no frame can be converted from.
#[derive(Debug, Clone, Copy, PartialEq, Eq, Structural)]
pub struct UnsupportedFormat;

impl UnsupportedFormat {
    pub fn message(&self) -> (m: &'static str)
        ensures
            m@ == "unsupported Wayland shm format"@,
    {
        "unsupported Wayland shm format"
    }
}

proof fn lemma_row_offset(sy: int, h: int, stride: int)
    requires
        0 <= sy <= h - 1,
        0 <= stride,
    ensures
        sy * stride <= (h - 1) * stride,
{
    assert(sy * stride <= (h - 1) * stride) by (nonlinear_arith)
        requires
            0 <= sy <= h - 1,
            0 <= stride,
    ;
}

/// Convert a copied frame to tightly packed RGB rows, top row first,
/// flipping it when the compositor says it is stored bottom-up.
pub fn encode_rgb(
    source: &[u8],
    format: PixelFormat,
    width: u32,
    height: u32,
    stride: u32,
    invert_y: bool,
) -> (res: Result<Vec<u8>, UnsupportedFormat>)
    requires
        height > 0 ==> (height - 1) * stride + 4 * width <= source.len(),
        3 * width * height <= usize::MAX,
    ensures
        width > 0 && height > 0 && !supported_format(format) ==> res is Err,
        !(width > 0 && height > 0 && !supported_format(format)) ==> (res matches Ok(rgb) && rgb@
            == rgb_image(source@, stride as int, width as nat, height as nat, invert_y, height as nat)),
{
    if width > 0 && height > 0 && !is_supported_format(format) {
        return Err(UnsupportedFormat);
    }
    let mut rgb: Vec<u8> = Vec::new();
    let w = width as usize;
    let st = stride as usize;
    let mut y: u32 = 0;
    while y < height
        invariant
            y <= height,
            w == width,
            st == stride,
            height > 0 ==> (height - 1) * stride + 4 * width <= source.len(),
            rgb@ == rgb_image(source@, stride as int, width as nat, height as nat, invert_y, y as nat),
        decreases height - y,
    {
        let sy: u32 = if invert_y { height - 1 - y } else { y };
        proof {
            lemma_row_offset(sy as int, height as int, stride as int);
        }
        let base: usize = sy as usize * st;
        let ghost row_start = rgb@;
        let mut x: usize = 0;
        while x < w
            invariant
                x <= w,
                w == width,
                base == source_row(y as int, height as int, invert_y) * stride,
                base + 4 * width <= source.len(),
                rgb@ == row_start + rgb_row(source@, base as int, x as nat),
            decreases w - x,
        {
            let p = base + 4 * x;
            rgb.push(source[p + 2]);
            rgb.push(source[p + 1]);
            rgb.push(source[p]);
            x = x + 1;
            assert(rgb@ =~= row_start + rgb_row(source@, base as int, x as nat));
        }
        y = y + 1;
    }
    Ok(rgb)
}


/// A buffer layout the compositor offers for the next frame.
#[derive(Debug, Clone, Copy, PartialEq, Eq, Structural)]
pub struct BufferDescription {
    pub format: PixelFormat,
    pub width: u32,
    pub height: u32,
    pub stride: u32,
}

/// The shared-memory buffer a frame is copied into: its size, whether the
/// compositor has released it, and whether its frame is complete.
#[derive(Debug, Clone, Copy, PartialEq, Eq, Structural)]
pub struct BufferState {
    pub width: u32,
    pub height: u32,
    pub released: bool,
    pub ready: bool,
}

/// Where the capture loop stands: whether a frame request is in flight,
/// the buffer being copied into, the best buffer layout offered so far,
/// whether the frame is stored bottom-up, and who wants frames (viewers
/// while streaming, a waiting screenshot).
#[derive(Debug, Clone, Copy, PartialEq, Eq, Structural)]
pub struct CaptureState {
    pub frame_active: bool,
    pub buffer: Option<BufferState>,
    pub pending: Option<BufferDescription>,
    pub invert_y: bool,
    pub streaming: bool,
    pub screenshot_waiting: bool,
    pub width: u32,
    pub height: u32,
}

/// Whether a new frame should be requested: someone wants one and neither a
/// frame nor a buffer is still in flight.
pub open spec fn wants_capture(s: CaptureState) -> bool {
    (s.streaming || s.screenshot_waiting) && !s.frame_active && s.buffer is None
}

/// The state after asking for a frame when one is wanted: a fresh frame with
/// no buffer layout chosen yet.
pub open spec fn after_request(s: CaptureState) -> CaptureState {
    if wants_capture(s) {
        CaptureState { frame_active: true, pending: None, invert_y: false, ..s }
    } else {
        s
    }
}

/// What to do when a frame is ready: the size to encode at, whether viewers
/// get a JPEG, whether a waiting screenshot gets a PNG (or the error), and
/// whether the next frame must be requested.
#[derive(Debug, Clone, Copy, PartialEq, Eq, Structural)]
pub struct ReadyPlan {
    pub frame_width: u32,
    pub frame_height: u32,
    pub has_buffer: bool,
    pub stream: bool,
    pub answer_screenshot: bool,
    pub request_next: bool,
}

impl CaptureState {
    /// A new capture loop for an output of the given size: idle, nobody
    /// waiting.
    pub fn new(width: u32, height: u32) -> (s: Self)
        ensures
            s == (CaptureState {
                frame_active: false,
                buffer: None,
                pending: None,
                invert_y: false,
                streaming: false,
                screenshot_waiting: false,
                width,
                height,
            }),
    {
        CaptureState {
            frame_active: false,
            buffer: None,
            pending: None,
            invert_y: false,
            streaming: false,
            screenshot_waiting: false,
            width,
            height,
        }
    }

    /// Ask for a frame if one is wanted and none is in flight; returns whether
    /// the compositor must be asked to capture the output.
    pub fn request_capture(&mut self) -> (request: bool)
        ensures
            request == wants_capture(*old(self)),
            *final(self) == after_request(*old(self)),
    {
        if (!self.streaming && !self.screenshot_waiting) || self.frame_active || self.buffer.is_some() {
            return false;
        }
        self.pending = None;
        self.invert_y = false;
        self.frame_active = true;
        true
    }

    /// Viewers want frames: start streaming and ask for a frame if none is in
    /// flight.
    pub fn start(&mut self) -> (request: bool)
        ensures
            ({
                let s = CaptureState { streaming: true, ..*old(self) };
                request == wants_capture(s) && *final(self) == after_request(s)
            }),
    {
        self.streaming = true;
        self.request_capture()
    }

    /// Nobody watches any more: stop streaming, drop a waiting screenshot,
    /// and abandon the frame in flight. Returns whether a frame must be
    /// destroyed.
    pub fn stop(&mut self) -> (destroy_frame: bool)
        ensures
            destroy_frame == old(self).frame_active,
            *final(self) == (CaptureState {
                streaming: false,
                screenshot_waiting: false,
                frame_active: false,
                ..*old(self)
            }),
    {
        self.streaming = false;
        self.screenshot_waiting = false;
        let destroy = self.frame_active;
        self.frame_active = false;
        destroy
    }

    /// A screenshot is wanted: remember it and ask for a frame if none is in
    /// flight.
    pub fn screenshot(&mut self) -> (request: bool)
        ensures
            ({
                let s = CaptureState { screenshot_waiting: true, ..*old(self) };
                request == wants_capture(s) && *final(self) == after_request(s)
            }),
    {
        self.screenshot_waiting = true;
        self.request_capture()
    }

    /// The compositor offers a buffer layout. A supported layout is taken if
    /// none is chosen yet; an `XRGB8888` one replaces any earlier choice.
    pub fn offer(&mut self, description: BufferDescription)
        ensures
            (supported_format(description.format) && (old(self).pending is None
                || description.format == PixelFormat::Xrgb8888)) ==> *final(self) == (CaptureState {
                pending: Some(description),
                ..*old(self)
            }),
            !(supported_format(description.format) && (old(self).pending is None
                || description.format == PixelFormat::Xrgb8888)) ==> *final(self) == *old(self),
    {
        if is_supported_format(description.format) && (self.pending.is_none()
            || description.format == PixelFormat::Xrgb8888) {
            self.pending = Some(description);
        }
    }

    /// The compositor says whether the frame is stored bottom-up.
    pub fn set_invert_y(&mut self, invert_y: bool)
        ensures
            *final(self) == (CaptureState { invert_y, ..*old(self) }),
    {
        self.invert_y = invert_y;
    }

    /// All layouts are offered: take the chosen one, for the caller to
    /// create a buffer of. `None` means no supported layout was offered and
    /// the frame fails.
    pub fn buffer_done(&mut self) -> (chosen: Option<BufferDescription>)
        ensures
            chosen == old(self).pending,
            *final(self) == (CaptureState { pending: None, ..*old(self) }),
    {
        let chosen = self.pending;
        self.pending = None;
        chosen
    }

    /// The buffer for the frame exists and the copy has been requested.
    pub fn buffer_created(&mut self, description: BufferDescription)
        ensures
            *final(self) == (CaptureState {
                buffer: Some(
                    BufferState {
                        width: description.width,
                        height: description.height,
                        released: false,
                        ready: false,
                    },
                ),
                ..*old(self)
            }),
    {
        self.buffer = Some(
            BufferState {
                width: description.width,
                height: description.height,
                released: false,
                ready: false,
            },
        );
    }

    /// The frame failed: a waiting screenshot gets the error, and the frame
    /// and its layout choice are dropped. Returns whether a screenshot waits
    /// for the error.
    pub fn fail(&mut self) -> (answer_screenshot: bool)
        ensures
            answer_screenshot == old(self).screenshot_waiting,
            *final(self) == (CaptureState {
                screenshot_waiting: false,
                frame_active: false,
                pending: None,
                ..*old(self)
            }),
    {
        let answer = self.screenshot_waiting;
        self.screenshot_waiting = false;
        self.frame_active = false;
        self.pending = None;
        answer
    }

    /// The frame is copied. Encode it at the buffer's size (the output's
    /// when there is no buffer), stream it if viewers watch, answer a waiting
    /// screenshot, and mark the buffer complete; a buffer the compositor has
    /// already released is dropped and the next frame requested.
    pub fn ready(&mut self) -> (plan: ReadyPlan)
        ensures
            plan.has_buffer == old(self).buffer is Some,
            plan.frame_width == match old(self).buffer {
                Some(b) => b.width,
                None => old(self).width,
            },
            plan.frame_height == match old(self).buffer {
                Some(b) => b.height,
                None => old(self).height,
            },
            plan.stream == old(self).streaming,
            plan.answer_screenshot == old(self).screenshot_waiting,
            ({
                let s = CaptureState {
                    frame_active: false,
                    screenshot_waiting: false,
                    buffer: match old(self).buffer {
                        Some(b) => if b.released {
                            None
                        } else {
                            Some(BufferState { ready: true, ..b })
                        },
                        None => None,
                    },
                    ..*old(self)
                };
                let released = old(self).buffer matches Some(b) && b.released;
                &&& plan.request_next == (released && wants_capture(s))
                &&& *final(self) == if released {
                    after_request(s)
                } else {
                    s
                }
            }),
    {
        let (frame_width, frame_height) = match self.buffer {
            Some(b) => (b.width, b.height),
            None => (self.width, self.height),
        };
        let has_buffer = self.buffer.is_some();
        let stream = self.streaming;
        let answer = self.screenshot_waiting;
        self.screenshot_waiting = false;
        self.frame_active = false;
        let mut request_next = false;
        match self.buffer {
            Some(b) => {
                if b.released {
                    self.buffer = None;
                    request_next = self.request_capture();
                } else {
                    self.buffer = Some(BufferState { ready: true, ..b });
                }
            },
            None => {},
        }
        ReadyPlan {
            frame_width,
            frame_height,
            has_buffer,
            stream,
            answer_screenshot: answer,
            request_next,
        }
    }

    /// The compositor released the buffer. Once its frame is complete too,
    /// the buffer is dropped and the next frame requested. Returns whether a
    /// frame must be requested.
    pub fn buffer_released(&mut self) -> (request: bool)
        ensures
            ({
                let marked = match old(self).buffer {
                    Some(b) => CaptureState { buffer: Some(BufferState { released: true, ..b }), ..*old(self) },
                    None => *old(self),
                };
                let complete = old(self).buffer matches Some(b) && b.ready;
                let cleared = CaptureState { buffer: None, ..marked };
                &&& request == (complete && wants_capture(cleared))
                &&& *final(self) == if complete {
                    after_request(cleared)
                } else {
                    marked
                }
            }),
    {
        match self.buffer {
            Some(b) => {
                self.buffer = Some(BufferState { released: true, ..b });
                if b.ready {
                    self.buffer = None;
                    self.request_capture()
                } else {
                    false
                }
            },
            None => false,
        }
    }
}

/// At most one frame is ever in flight: a frame is requested only when none
/// is active and no buffer is still held, and the request marks it active.
pub proof fn lemma_one_frame_in_flight(s: CaptureState)
    ensures
        wants_capture(s) ==> !s.frame_active && s.buffer is None && after_request(s).frame_active,
        !wants_capture(s) ==> after_request(s) == s,
        after_request(after_request(s)) == after_request(s),
{
}

/// A frame is requested only when someone wants one: a viewer while
/// streaming, or a waiting screenshot.
pub proof fn lemma_capture_needs_a_consumer(s: CaptureState)
    ensures
        wants_capture(s) ==> s.streaming || s.screenshot_waiting,
        !s.streaming && !s.screenshot_waiting ==> after_request(s) == s,
{
}


/// The JPEG that `jpeg_encoder` writes for 8-bit RGB pixels of the given
/// size and quality, or nothing when it refuses them.
pub uninterp spec fn jpeg_encoding(rgb: Seq<u8>, width: u16, height: u16, quality: u8) -> Option<Seq<u8>>;

/// `jpeg_encoder::Encoder::encode` of 8-bit RGB pixels into memory, with the
/// given quality. Its result is named by `jpeg_encoding`; the crate refuses
/// an empty image and pixel data shorter than the image.
#[verifier::external_body]
fn jpeg_encode(rgb: &[u8], width: u16, height: u16, quality: u8) -> (res: Option<Vec<u8>>)
    ensures
        match res {
            Some(bytes) => jpeg_encoding(rgb@, width, height, quality) == Some(bytes@),
            None => jpeg_encoding(rgb@, width, height, quality) is None,
        },
        (width == 0 || height == 0 || rgb.len() < 3 * width * height) ==> res is None,
{
    let mut encoded = Vec::new();
    let encoder = jpeg_encoder::Encoder::new(&mut encoded, quality);
    match encoder.encode(rgb, width, height, jpeg_encoder::ColorType::Rgb) {
        Ok(()) => Some(encoded),
        Err(_) => None,
    }
}

/// The PNG that the `png` crate writes for 8-bit RGB pixels of the given
/// size, or the text of the error it reports.
pub uninterp spec fn png_encoding(rgb: Seq<u8>, width: u32, height: u32) -> Result<Seq<u8>, Seq<char>>;

/// `png::Encoder` writing 8-bit RGB pixels into memory: `write_header`, then
/// `write_image_data`. Its result is named by `png_encoding`; the crate
/// refuses an empty image.
#[verifier::external_body]
fn png_encode(rgb: &[u8], width: u32, height: u32) -> (res: Result<Vec<u8>, String>)
    ensures
        match res {
            Ok(bytes) => png_encoding(rgb@, width, height) == Ok::<Seq<u8>, Seq<char>>(bytes@),
            Err(e) => png_encoding(rgb@, width, height) == Err::<Seq<u8>, Seq<char>>(e@),
        },
        (width == 0 || height == 0) ==> res is Err,
{
    let mut encoded = Vec::new();
    let mut encoder = png::Encoder::new(&mut encoded, width, height);
    encoder.set_color(png::ColorType::Rgb);
    encoder.set_depth(png::BitDepth::Eight);
    let mut writer = encoder.write_header().map_err(|err| err.to_string())?;
    writer.write_image_data(rgb).map_err(|err| err.to_string())?;
    drop(writer);
    Ok(encoded)
}

/// The JPEG quality of streamed desktop frames.
pub const STREAM_QUALITY: u8 = 70;

/// A streamed desktop frame: JPEG at the stream quality. The sizes are cut
/// to 16 bits, as the encoder takes them.
pub fn encode_jpeg(rgb: &[u8], width: u32, height: u32) -> (res: Result<Vec<u8>, String>)
    ensures
        match res {
            Ok(bytes) => jpeg_encoding(rgb@, width as u16, height as u16, STREAM_QUALITY) == Some(bytes@),
            Err(m) => jpeg_encoding(rgb@, width as u16, height as u16, STREAM_QUALITY) is None && m@
                == "JPEG encoding"@,
        },
{
    match jpeg_encode(rgb, width as u16, height as u16, STREAM_QUALITY) {
        Some(bytes) => Ok(bytes),
        None => Err(String::from_str("JPEG encoding")),
    }
}

/// A desktop screenshot: PNG of the whole frame.
pub fn encode_png(rgb: &[u8], width: u32, height: u32) -> (res: Result<Vec<u8>, String>)
    ensures
        match res {
            Ok(bytes) => png_encoding(rgb@, width, height) == Ok::<Seq<u8>, Seq<char>>(bytes@),
            Err(e) => png_encoding(rgb@, width, height) == Err::<Seq<u8>, Seq<char>>(e@),
        },
        (width == 0 || height == 0) ==> res is Err,
{
    png_encode(rgb, width, height)
}

/// What a completed frame produces: a JPEG for the viewers (or the reason it
/// could not be encoded) and the answer to a waiting screenshot.
#[derive(Debug)]
pub struct FrameOutputs {
    pub stream_frame: Option<Result<Vec<u8>, String>>,
    pub screenshot: Option<Result<Vec<u8>, String>>,
}

pub open spec fn bytes_result(r: Result<Vec<u8>, String>) -> Result<Seq<u8>, Seq<char>> {
    match r {
        Ok(b) => Ok(b@),
        Err(e) => Err(e@),
    }
}

/// Turn a ready frame into its outputs. `rgb` is the converted buffer, or
/// `None` when the frame had no buffer. Viewers get a JPEG only of a frame
/// that converted; a waiting screenshot gets a PNG, or the conversion error.
pub fn frame_outputs(plan: &ReadyPlan, rgb: Option<Result<Vec<u8>, UnsupportedFormat>>) -> (out: FrameOutputs)
    ensures
        match rgb {
            Some(Ok(pixels)) => {
                &&& plan.stream ==> (out.stream_frame matches Some(r) && match r {
                    Ok(b) => jpeg_encoding(pixels@, plan.frame_width as u16, plan.frame_height as u16, STREAM_QUALITY) == Some(b@),
                    Err(m) => jpeg_encoding(pixels@, plan.frame_width as u16, plan.frame_height as u16, STREAM_QUALITY) is None,
                })
                &&& !plan.stream ==> out.stream_frame is None
                &&& plan.answer_screenshot ==> (out.screenshot matches Some(r) && bytes_result(r)
                    == png_encoding(pixels@, plan.frame_width, plan.frame_height))
                &&& !plan.answer_screenshot ==> out.screenshot is None
            },
            Some(Err(_)) => {
                &&& out.stream_frame is None
                &&& plan.answer_screenshot ==> (out.screenshot matches Some(Err(m)) && m@
                    == "unsupported Wayland shm format"@)
                &&& !plan.answer_screenshot ==> out.screenshot is None
            },
            None => {
                &&& out.stream_frame is None
                &&& plan.answer_screenshot ==> (out.screenshot matches Some(Err(m)) && m@
                    == "Wayland frame was ready without a buffer"@)
                &&& !plan.answer_screenshot ==> out.screenshot is None
            },
        },
{
    match rgb {
        Some(Ok(pixels)) => {
            let stream_frame = if plan.stream {
                Some(encode_jpeg(pixels.as_slice(), plan.frame_width, plan.frame_height))
            } else {
                None
            };
            let screenshot = if plan.answer_screenshot {
                Some(encode_png(pixels.as_slice(), plan.frame_width, plan.frame_height))
            } else {
                None
            };
            FrameOutputs { stream_frame, screenshot }
        },
        Some(Err(e)) => {
            let screenshot = if plan.answer_screenshot {
                Some(Err(String::from_str(e.message())))
            } else {
                None
            };
            FrameOutputs { stream_frame: None, screenshot }
        },
        None => {
            let screenshot = if plan.answer_screenshot {
                Some(Err(String::from_str("Wayland frame was ready without a buffer")))
            } else {
                None
            };
            FrameOutputs { stream_frame: None, screenshot }
        },
    }
}

} // verus!
