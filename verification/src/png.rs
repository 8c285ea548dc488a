//! PNG encoding and decoding of RGBA images, done by the `image` crate.
use vstd::prelude::*;
use image::ImageEncoder;

verus! {

/// An image as 8-bit RGBA pixels, row by row, four bytes per pixel.
pub struct RgbaImage {
    pub width: usize,
    pub height: usize,
    pub bytes: Vec<u8>,
}

/// The PNG file that the `image` crate's encoder writes for the given RGBA
/// pixels and dimensions, or `None` where it reports an error.
pub uninterp spec fn png_rgba8_encoding(pixels: Seq<u8>, width: u32, height: u32) -> Option<Seq<u8>>;

/// The RGBA pixels, width and height that the `image` crate decodes from a
/// PNG file, or `None` where it reports an error.
pub uninterp spec fn png_rgba8_decoding(png: Seq<u8>) -> Option<(Seq<u8>, u32, u32)>;

/// Encodes RGBA pixels as PNG with `image::codecs::png::PngEncoder` and its
/// `ImageEncoder::write_image` (default compression and filter).
/// The encoder asserts that the buffer holds exactly `width * height * 4`
/// bytes, hence the precondition. Its output is named, not described.
#[verifier::external_body]
pub(crate) fn encode_png_rgba8(pixels: &[u8], width: u32, height: u32) -> (r: Option<Vec<u8>>)
    requires
        pixels@.len() == width as int * height as int * 4,
    ensures
        match r {
            Some(png) => png_rgba8_encoding(pixels@, width, height) == Some(png@),
            None => png_rgba8_encoding(pixels@, width, height) is None,
        },
{
    let mut png = Vec::new();
    match image::codecs::png::PngEncoder::new(&mut png).write_image(
        pixels,
        width,
        height,
        image::ExtendedColorType::Rgba8,
    ) {
        Ok(()) => Some(png),
        Err(_) => None,
    }
}

/// Decodes a PNG file with `image::load_from_memory_with_format` and
/// converts it to RGBA with `DynamicImage::into_rgba8`. The result is named,
/// not described.
#[verifier::external_body]
pub(crate) fn decode_png_rgba8(png: &[u8]) -> (r: Option<(Vec<u8>, u32, u32)>)
    ensures
        match r {
            Some((pixels, w, h)) => png_rgba8_decoding(png@) == Some((pixels@, w, h)),
            None => png_rgba8_decoding(png@) is None,
        },
{
    match image::load_from_memory_with_format(png, image::ImageFormat::Png) {
        Ok(img) => {
            let rgba = img.into_rgba8();
            let (w, h) = rgba.dimensions();
            Some((rgba.into_raw(), w, h))
        },
        Err(_) => None,
    }
}

/// Decodes a PNG file into an RGBA image, as the preview and the copy back
/// to the clipboard need it.
pub fn image_from_png(png: &[u8]) -> (r: Option<RgbaImage>)
    ensures
        match r {
            Some(img) => img.width <= u32::MAX && img.height <= u32::MAX
                && png_rgba8_decoding(png@) == Some((img.bytes@, img.width as u32, img.height as u32)),
            None => png_rgba8_decoding(png@) is None,
        },
{
    match decode_png_rgba8(png) {
        Some((pixels, w, h)) => Some(RgbaImage { width: w as usize, height: h as usize, bytes: pixels }),
        None => None,
    }
}

} // verus!
