//! The decisions of the devtools screenshot actor: which request asks the
//! embedder for a capture of the active webview, and what each outcome of
//! the capture is replied with. A capture is sent back as a base64 PNG.
use base64::engine::general_purpose::STANDARD;
use base64::Engine;
use image::codecs::png::PngEncoder;
use image::{ExtendedColorType, ImageEncoder};
use vstd::prelude::*;

use crate::text::str_equals;

verus! {

/// The errors that a request can fail with.
#[derive(Clone, Copy, Debug, PartialEq, Eq)]
pub enum ScreenshotActorError {
    Internal,
    UnrecognizedPacketType,
}

/// A reply to the client: a captured image, or an error message.
#[derive(Clone, Debug)]
pub enum ScreenshotReply {
    Image { data: String, width: u32, height: u32 },
    Error(String),
}

/// What handling a request does first; `W` names a webview.
#[derive(Clone, Debug)]
pub enum ScreenshotStep<W> {
    /// Ask the embedder for a capture of this webview.
    Capture(W),
    /// Reply at once.
    Reply(ScreenshotReply),
    /// Fail the request.
    Fail(ScreenshotActorError),
}

/// How the embedder answered a capture request.
#[derive(Clone, Debug)]
pub enum CaptureOutcome {
    /// The capture, as 8-bit RGBA rows.
    Captured { rgba: Vec<u8>, width: u32, height: u32 },
    /// The embedder reported this error.
    Failed(String),
    /// No answer came in time.
    TimedOut,
}

/// The PNG file that `image`'s PNG encoder writes for 8-bit RGBA pixels of
/// the given size, or `None` where it refuses them.
pub uninterp spec fn png_rgba8(rgba: Seq<u8>, width: u32, height: u32) -> Option<Seq<u8>>;

/// The padded base64 text, standard alphabet, that `base64` writes for
/// the bytes.
pub uninterp spec fn base64_standard(bytes: Seq<u8>) -> Seq<char>;

/// The model of an optional byte vector.
pub open spec fn bytes_view(v: Option<Vec<u8>>) -> Option<Seq<u8>> {
    match v {
        Some(b) => Some(b@),
        None => None,
    }
}

/// `image::codecs::png::PngEncoder::write_image` with `Rgba8`, into a
/// vector: encodes the pixels as a PNG file. The encoder asserts that the
/// buffer holds exactly `4 * width * height` bytes, which `requires` asks.
/// The contract names the result, a function of the pixels and the size
/// alone; a vector never exceeds `isize::MAX` bytes.
#[verifier::external_body]
fn encode_png_rgba8(rgba: &[u8], width: u32, height: u32) -> (r: Option<Vec<u8>>)
    requires
        rgba@.len() == 4 * width * height,
    ensures
        bytes_view(r) == png_rgba8(rgba@, width, height),
        r matches Some(png) ==> png@.len() <= isize::MAX,
{
    let mut png = Vec::new();
    PngEncoder::new(&mut png).write_image(rgba, width, height, ExtendedColorType::Rgba8).ok()?;
    Some(png)
}

/// `base64::engine::general_purpose::STANDARD.encode`: base64 with the
/// standard alphabet and `=` padding, four characters for every three
/// bytes begun. The crate panics where that length overflows `usize`,
/// which `requires` rules out. The contract names the text and states its
/// length.
#[verifier::external_body]
fn encode_base64(bytes: &[u8]) -> (r: String)
    requires
        bytes@.len() <= isize::MAX,
    ensures
        r@ == base64_standard(bytes@),
        r@.len() == 4 * ((bytes@.len() + 2) / 3),
{
    STANDARD.encode(bytes)
}

/// The first step of a request of type `msg_type` while `active_webview`
/// is shown: `capture` asks for a capture of the active webview, or
/// replies `no active webview` where there is none; other types are not
/// recognized.
pub fn screenshot_request<W>(msg_type: &str, active_webview: Option<W>) -> (r: ScreenshotStep<W>)
    ensures
        msg_type@ == "capture"@ ==> match active_webview {
            Some(w) => r == ScreenshotStep::Capture(w),
            None => r matches ScreenshotStep::Reply(ScreenshotReply::Error(m)) && m@ == "no active webview"@,
        },
        msg_type@ != "capture"@ ==> r == ScreenshotStep::<W>::Fail(ScreenshotActorError::UnrecognizedPacketType),
{
    proof {
        reveal_strlit("capture");
    }
    if !str_equals(msg_type, "capture") {
        return ScreenshotStep::Fail(ScreenshotActorError::UnrecognizedPacketType);
    }
    match active_webview {
        Some(w) => ScreenshotStep::Capture(w),
        None => ScreenshotStep::Reply(ScreenshotReply::Error("no active webview".to_string())),
    }
}

/// The reply to a capture request once the embedder answered: a capture
/// is sent as its PNG file in base64 with its size, and fails the request
/// where it cannot be encoded; an error is sent with the embedder's
/// message; no answer is sent as `screenshot timeout`.
pub fn capture_answered(outcome: CaptureOutcome) -> (r: Result<ScreenshotReply, ScreenshotActorError>)
    requires
        outcome matches CaptureOutcome::Captured { rgba, width, height } ==> rgba@.len() == 4 * width * height,
    ensures
        match outcome {
            CaptureOutcome::Captured { rgba, width, height } => match png_rgba8(rgba@, width, height) {
                Some(png) => r matches Ok(ScreenshotReply::Image { data, width: w, height: h }) && data@
                    == base64_standard(png) && w == width && h == height,
                None => r == Err::<ScreenshotReply, ScreenshotActorError>(ScreenshotActorError::Internal),
            },
            CaptureOutcome::Failed(e) => r matches Ok(ScreenshotReply::Error(m)) && m@ == e@,
            CaptureOutcome::TimedOut => r matches Ok(ScreenshotReply::Error(m)) && m@ == "screenshot timeout"@,
        },
{
    match outcome {
        CaptureOutcome::Captured { rgba, width, height } => {
            match encode_png_rgba8(rgba.as_slice(), width, height) {
                Some(png) => {
                    let data = encode_base64(png.as_slice());
                    Ok(ScreenshotReply::Image { data, width, height })
                },
                None => Err(ScreenshotActorError::Internal),
            }
        },
        CaptureOutcome::Failed(e) => Ok(ScreenshotReply::Error(e)),
        CaptureOutcome::TimedOut => {
            proof {
                reveal_strlit("screenshot timeout");
            }
            Ok(ScreenshotReply::Error("screenshot timeout".to_string()))
        },
    }
}

} // verus!
