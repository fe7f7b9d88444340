//! The codecs that background removal relies on: base64 for the transfer
//! text and the image formats for the pixels. Nothing here is proved; each
//! item says what is taken on trust.

use vstd::prelude::*;
use base64::Engine;

verus! {

/// What decoding `text` with the standard base64 alphabet and padding gives:
/// the bytes, or the words in which the decoder says why `text` is no such
/// encoding.
pub uninterp spec fn base64_decoding(text: Seq<char>) -> Result<Seq<u8>, Seq<char>>;

/// The text that encodes `bytes` in the standard base64 alphabet with padding.
pub uninterp spec fn base64_encoding(bytes: Seq<u8>) -> Seq<char>;

/// A decoded image as plain values: dimensions and 8-bit RGBA samples.
#[derive(Debug)]
pub struct RawImage {
    pub width: u32,
    pub height: u32,
    pub pixels: Vec<u8>,
}

/// What a raw image stands for.
pub ghost struct RawImageView {
    pub width: int,
    pub height: int,
    pub pixels: Seq<u8>,
}

impl View for RawImage {
    type V = RawImageView;

    open spec fn view(&self) -> RawImageView {
        RawImageView {
            width: self.width as int,
            height: self.height as int,
            pixels: self.pixels@,
        }
    }
}

/// What writing the given 8-bit RGBA image as PNG gives: the file, or the
/// words in which the encoder refuses the image.
pub uninterp spec fn png_encoding(width: int, height: int, pixels: Seq<u8>) -> Result<
    Seq<u8>,
    Seq<char>,
>;

/// What a codec's answer stands for: the bytes, or the words of its error.
pub open spec fn bytes_view(answer: Result<Vec<u8>, String>) -> Result<Seq<u8>, Seq<char>> {
    match answer {
        Ok(bytes) => Ok(bytes@),
        Err(why) => Err(why@),
    }
}

/// Longest input that `encode_base64` takes: the encoded text, four
/// characters for every three bytes, has to fit the address space.
pub open spec fn base64_input_limit() -> int {
    (usize::MAX / 4 - 1) * 3
}

/// Calls `decode` of the `base64` crate's `STANDARD` engine and renders an
/// error through its `Display` impl. Trusted: bytes and error text depend on
/// the text alone, and `base64_decoding` names them.
#[verifier::external_body]
pub(crate) fn decode_base64(text: &str) -> (decoded: Result<Vec<u8>, String>)
    ensures
        base64_decoding(text@) == bytes_view(decoded),
{
    match base64::engine::general_purpose::STANDARD.decode(text) {
        Ok(bytes) => Ok(bytes),
        Err(error) => Err(error.to_string()),
    }
}

/// Calls `encode` of the `base64` crate's `STANDARD` engine. Trusted: the
/// text depends on the bytes alone, and `base64_encoding` names it. The
/// engine panics where the length of the text overflows, which the bound on
/// the input excludes.
#[verifier::external_body]
pub(crate) fn encode_base64(bytes: &Vec<u8>) -> (text: String)
    requires
        bytes@.len() <= base64_input_limit(),
    ensures
        text@ == base64_encoding(bytes@),
{
    base64::engine::general_purpose::STANDARD.encode(bytes)
}

/// Calls `image::load_from_memory`, which guesses the format from the bytes,
/// takes the picture as 8-bit RGBA, and renders an error through its
/// `Display` impl. Nothing is claimed of what comes back: which decoder runs
/// can depend on hooks registered in the process, and the samples of a lossy
/// format on the code path that the decoder picks for the machine.
#[verifier::external_body]
pub(crate) fn decode_image(bytes: &Vec<u8>) -> (decoded: Result<RawImage, String>) {
    match image::load_from_memory(bytes) {
        Ok(picture) => {
            let rgba = picture.into_rgba8();
            Ok(RawImage { width: rgba.width(), height: rgba.height(), pixels: rgba.into_raw() })
        },
        Err(error) => Err(error.to_string()),
    }
}

/// Calls `image::write_buffer_with_format` for RGBA samples of 8 bits and the
/// PNG format, writing to memory, and renders an error through its `Display`
/// impl. Trusted: file and error text depend on the arguments alone, and
/// `png_encoding` names them. The encoder panics on a buffer that does not
/// hold four bytes per pixel, which `requires` excludes.
#[verifier::external_body]
pub(crate) fn encode_png(width: u32, height: u32, pixels: &Vec<u8>) -> (encoded: Result<
    Vec<u8>,
    String,
>)
    requires
        pixels@.len() == 4 * (width * height),
    ensures
        png_encoding(width as int, height as int, pixels@) == bytes_view(encoded),
{
    let mut out = std::io::Cursor::new(Vec::new());
    match image::write_buffer_with_format(
        &mut out,
        pixels,
        width,
        height,
        image::ExtendedColorType::Rgba8,
        image::ImageFormat::Png,
    ) {
        Ok(()) => Ok(out.into_inner()),
        Err(error) => Err(error.to_string()),
    }
}

} // verus!
