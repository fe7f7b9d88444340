//! The entry point of background removal: from a transfer text that wraps an
//! encoded image to a transfer text that wraps the cut-out as a PNG.

use vstd::prelude::*;
use vstd::string::StringExecFns;
use crate::codec::{
    base64_decoding, base64_encoding, base64_input_limit, decode_base64, decode_image,
    encode_base64, encode_png, png_encoding, RawImage, RawImageView,
};
use crate::cutout::{cut_background, cut_image};
use crate::grid::{GridView, PixelGrid};
use crate::transfer::{payload_of, strip_prefix};

verus! {

/// Why a removal failed. Each kind carries the diagnostic text of the stage
/// that failed. A failure ends the call: there is no partial result.
#[derive(Debug)]
pub enum RemovalError {
    /// The payload is not valid base64 text.
    TransferDecode(String),
    /// The bytes are not an image in a format that is recognised, or the image
    /// has no pixels.
    ImageDecode(String),
    /// The processed image could not be written out.
    ImageEncode(String),
}

impl RemovalError {
    /// The diagnostic text that the error carries.
    pub open spec fn detail(&self) -> Seq<char> {
        match self {
            RemovalError::TransferDecode(text) => text@,
            RemovalError::ImageDecode(text) => text@,
            RemovalError::ImageEncode(text) => text@,
        }
    }

    /// The words that name the failed stage.
    pub open spec fn stage(&self) -> Seq<char> {
        match self {
            RemovalError::TransferDecode(_) => "Failed to decode base64: "@,
            RemovalError::ImageDecode(_) => "Failed to load image: "@,
            RemovalError::ImageEncode(_) => "Failed to encode image: "@,
        }
    }

    /// The message for the caller: the failed stage, then the diagnostic.
    pub fn message(&self) -> (text: String)
        ensures
            text@ == self.stage() + self.detail(),
    {
        match self {
            RemovalError::TransferDecode(detail) => {
                String::from_str("Failed to decode base64: ").concat(detail.as_str())
            },
            RemovalError::ImageDecode(detail) => {
                String::from_str("Failed to load image: ").concat(detail.as_str())
            },
            RemovalError::ImageEncode(detail) => {
                String::from_str("Failed to encode image: ").concat(detail.as_str())
            },
        }
    }
}

/// What every result text starts with: it declares a base64-encoded PNG.
pub const PNG_PREFIX: &'static str = "data:image/png;base64,";

/// How a removal ends.
pub ghost enum Outcome {
    /// With the result text.
    Done(Seq<char>),
    /// With a transfer-decode error that carries this diagnostic.
    TransferDecodeFailed(Seq<char>),
    /// With an image-decode error that carries this diagnostic.
    ImageDecodeFailed(Seq<char>),
    /// With an image-encode error that carries this diagnostic.
    ImageEncodeFailed(Seq<char>),
}

/// Whether `result` is what `outcome` says.
pub open spec fn reports(result: Result<String, RemovalError>, outcome: Outcome) -> bool {
    match outcome {
        Outcome::Done(text) => result matches Ok(t) && t@ == text,
        Outcome::TransferDecodeFailed(why) => result matches Err(RemovalError::TransferDecode(m))
            && m@ == why,
        Outcome::ImageDecodeFailed(why) => result matches Err(RemovalError::ImageDecode(m)) && m@
            == why,
        Outcome::ImageEncodeFailed(why) => result matches Err(RemovalError::ImageEncode(m)) && m@
            == why,
    }
}

/// Whether a decoded image can be processed: it has at least one pixel, and
/// four samples for each.
pub open spec fn has_pixels(raw: RawImageView) -> bool {
    raw.width >= 1 && raw.height >= 1 && raw.pixels.len() >= 4 * (raw.width * raw.height)
}

/// Why a decoded image cannot be processed.
pub open spec fn raw_fault(raw: RawImageView) -> Seq<char> {
    if raw.width < 1 || raw.height < 1 {
        "the image has no pixels"@
    } else {
        "the image lacks samples"@
    }
}

/// The pixel grid of a decoded image: its first `4 * width * height` samples.
pub open spec fn grid_of(raw: RawImageView) -> GridView {
    GridView {
        width: raw.width,
        height: raw.height,
        data: raw.pixels.take(4 * (raw.width * raw.height)),
    }
}

/// How the last stage ends for a processed image: written as PNG and
/// wrapped as text behind `PNG_PREFIX`.
pub open spec fn publish_outcome(image: GridView) -> Outcome {
    match png_encoding(image.width, image.height, image.data) {
        Err(why) => Outcome::ImageEncodeFailed(why),
        Ok(png) => if png.len() <= base64_input_limit() {
            Outcome::Done(PNG_PREFIX@ + base64_encoding(png))
        } else {
            Outcome::ImageEncodeFailed("the encoded image is too large"@)
        },
    }
}

/// What a decoder's answer stands for: the image, or the words of its error.
pub open spec fn decoded_view(decoded: Result<RawImage, String>) -> Result<
    RawImageView,
    Seq<char>,
> {
    match decoded {
        Ok(raw) => Ok(raw@),
        Err(why) => Err(why@),
    }
}

/// How removal ends once the image decoder has answered: its error is
/// passed on; an image without pixels is rejected; any other image is cut and
/// published with the same dimensions.
pub open spec fn decoded_outcome(
    decoded: Result<RawImageView, Seq<char>>,
    tolerance: int,
) -> Outcome {
    match decoded {
        Err(why) => Outcome::ImageDecodeFailed(why),
        Ok(raw) => if has_pixels(raw) {
            publish_outcome(cut_image(grid_of(raw), tolerance))
        } else {
            Outcome::ImageDecodeFailed(raw_fault(raw))
        },
    }
}

/// Turns a decoded image into a pixel grid, or rejects it where it has no
/// pixels. Samples beyond the last pixel are dropped.
pub fn grid_from_raw(raw: RawImage) -> (grid: Result<PixelGrid, RemovalError>)
    ensures
        has_pixels(raw@) ==> (grid matches Ok(g) && g@ == grid_of(raw@) && g.wf() && g.width >= 1
            && g.height >= 1),
        !has_pixels(raw@) ==> (grid matches Err(RemovalError::ImageDecode(m)) && m@ == raw_fault(
            raw@,
        )),
{
    let RawImage { width, height, pixels } = raw;
    let mut pixels = pixels;
    if width == 0 || height == 0 {
        return Err(RemovalError::ImageDecode(String::from_str("the image has no pixels")));
    }
    assert(0 <= width * height <= 0xffff_ffff * 0xffff_ffff) by (nonlinear_arith)
        requires
            0 <= width <= 0xffff_ffff,
            0 <= height <= 0xffff_ffff,
    ;
    let wanted: u128 = 4 * ((width as u128) * (height as u128));
    if (pixels.len() as u128) < wanted {
        return Err(RemovalError::ImageDecode(String::from_str("the image lacks samples")));
    }
    pixels.truncate(wanted as usize);
    Ok(PixelGrid { width, height, data: pixels })
}

/// Writes a processed grid as PNG and wraps it as text behind `PNG_PREFIX`.
pub fn publish(grid: &PixelGrid) -> (result: Result<String, RemovalError>)
    requires
        grid.wf(),
    ensures
        reports(result, publish_outcome(grid@)),
{
    match encode_png(grid.width, grid.height, &grid.data) {
        Err(why) => Err(RemovalError::ImageEncode(why)),
        Ok(png) => {
            if png.len() > (usize::MAX / 4 - 1) * 3 {
                return Err(
                    RemovalError::ImageEncode(String::from_str("the encoded image is too large")),
                );
            }
            let encoded: String = encode_base64(&png);
            Ok(String::from_str(PNG_PREFIX).concat(encoded.as_str()))
        },
    }
}

/// Takes the image file out of a transfer text: drops a metadata prefix that
/// ends at the first comma and decodes the rest as base64.
pub fn image_bytes(image_payload: &str) -> (bytes: Result<Vec<u8>, RemovalError>)
    ensures
        match base64_decoding(payload_of(image_payload@)) {
            Ok(file) => bytes matches Ok(b) && b@ == file,
            Err(why) => bytes matches Err(RemovalError::TransferDecode(m)) && m@ == why,
        },
{
    match decode_base64(strip_prefix(image_payload)) {
        Ok(bytes) => Ok(bytes),
        Err(why) => Err(RemovalError::TransferDecode(why)),
    }
}

/// Finishes a removal from what the image decoder answered: cuts the
/// background out of the decoded image and publishes it, or passes the
/// decoder's error on.
pub fn cut_decoded(decoded: Result<RawImage, String>, tolerance: u32) -> (result: Result<
    String,
    RemovalError,
>)
    ensures
        reports(result, decoded_outcome(decoded_view(decoded), tolerance as int)),
{
    let raw: RawImage = match decoded {
        Err(why) => {
            return Err(RemovalError::ImageDecode(why));
        },
        Ok(raw) => raw,
    };
    let mut grid: PixelGrid = match grid_from_raw(raw) {
        Err(error) => {
            return Err(error);
        },
        Ok(grid) => grid,
    };
    cut_background(&mut grid, tolerance);
    publish(&grid)
}

/// Removes the background of an image. `image_payload` is the image file as
/// base64 text, with or without a metadata prefix that ends at the first comma;
/// `tolerance` says how far a colour may be from the border's mean colour and
/// still count as background. The result is a PNG of the same dimensions as
/// base64 text behind `PNG_PREFIX`, the background region cut out of it.
///
/// A payload that is no base64 text gives a transfer-decode error. For any
/// other payload the result is what `cut_decoded` makes of the image
/// decoder's answer, whatever that answer is.
pub fn remove_background(image_payload: &str, tolerance: u32) -> (result: Result<
    String,
    RemovalError,
>)
    ensures
        match base64_decoding(payload_of(image_payload@)) {
            Err(why) => reports(result, Outcome::TransferDecodeFailed(why)),
            Ok(_) => exists|decoded: Result<RawImageView, Seq<char>>|
                reports(result, #[trigger] decoded_outcome(decoded, tolerance as int)),
        },
{
    let bytes: Vec<u8> = match image_bytes(image_payload) {
        Err(error) => {
            return Err(error);
        },
        Ok(bytes) => bytes,
    };
    let decoded: Result<RawImage, String> = decode_image(&bytes);
    let ghost answer = decoded_view(decoded);
    let result = cut_decoded(decoded, tolerance);
    assert(reports(result, decoded_outcome(answer, tolerance as int)));
    result
}

} // verus!
