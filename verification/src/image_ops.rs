//! Calls into the `image` crate: decoding, thumbnail resampling and PNG encoding.

use vstd::prelude::*;
use image::DynamicImage;

verus! {

#[verifier::external_type_specification]
#[verifier::external_body]
pub struct ExDynamicImage(image::DynamicImage);

/// What `image::load_from_memory` makes of `data`: the decoded image, or the
/// text of the decoder's error.
pub uninterp spec fn spec_load_from_memory(data: Seq<u8>) -> Result<DynamicImage, Seq<char>>;

/// `image::load_from_memory`: guesses the format of `data` from its leading bytes
/// and decodes it. The contract says that the image, or the error's message, is the
/// one fixed by `data`; what the decoded pixels are is not described.
#[verifier::external_body]
pub(crate) fn load_image_from_memory(data: &[u8]) -> (r: Result<DynamicImage, String>)
    ensures
        match r {
            Ok(img) => spec_load_from_memory(data@) == Ok::<DynamicImage, Seq<char>>(img),
            Err(m) => spec_load_from_memory(data@) == Err::<DynamicImage, Seq<char>>(m@),
        },
{
    match image::load_from_memory(data) {
        Ok(img) => Ok(img),
        Err(e) => Err(e.to_string()),
    }
}

/// The RGBA8 pixels that `image::imageops::resize` with the `Triangle` filter makes
/// of a `width` x `height` RGBA8 image read from `pixels`, at the new size.
pub uninterp spec fn spec_resize_triangle(
    width: u32,
    height: u32,
    pixels: Seq<u8>,
    new_width: u32,
    new_height: u32,
) -> Seq<u8>;

/// Sizes for which resampling a `width` x `height` image to `new_width` x
/// `new_height` stays within allocation limits: the result holds at most
/// `isize::MAX` bytes, and so does the intermediate buffer of 32-bit floats
/// (source width x new height) that resampling goes through whenever the image
/// is not empty and the size changes.
pub open spec fn resize_sizes_ok(width: u32, height: u32, new_width: u32, new_height: u32) -> bool {
    &&& 4 * ((new_width as int) * (new_height as int)) <= isize::MAX
    &&& (width == 0 || height == 0 || (new_width == width && new_height == height) || 16 * ((width as int)
        * (new_height as int)) <= isize::MAX)
}

/// Executable test of `resize_sizes_ok`.
pub fn resize_sizes_ok_for(width: u32, height: u32, new_width: u32, new_height: u32) -> (b: bool)
    ensures
        b == resize_sizes_ok(width, height, new_width, new_height),
{
    let w = width as u128;
    let nw = new_width as u128;
    let nh = new_height as u128;
    assert(nw * nh <= 0xffff_ffff * 0xffff_ffff) by (nonlinear_arith)
        requires
            nw <= 0xffff_ffff,
            nh <= 0xffff_ffff,
    ;
    assert(w * nh <= 0xffff_ffff * 0xffff_ffff) by (nonlinear_arith)
        requires
            w <= 0xffff_ffff,
            nh <= 0xffff_ffff,
    ;
    let out_ok = 4 * (nw * nh) <= isize::MAX as u128;
    let mid_ok = width == 0 || height == 0 || (new_width == width && new_height == height) || 16 * (w
        * nh) <= isize::MAX as u128;
    out_ok && mid_ok
}

/// The inputs that `resize_rgba_triangle` accepts: the source fits in the buffer
/// (so `ImageBuffer::from_raw` wraps it) and the sizes stay within allocation limits.
pub open spec fn resize_fits(width: u32, height: u32, len: int, new_width: u32, new_height: u32) -> bool {
    &&& 4 * ((width as int) * (height as int)) <= len
    &&& resize_sizes_ok(width, height, new_width, new_height)
}

/// `image::imageops::resize` with `FilterType::Triangle` on an RGBA8 buffer.
/// `ImageBuffer::from_raw` accepts the buffer because it holds at least
/// `4 * width * height` bytes; the result is `new_width` x `new_height` RGBA8 pixels.
#[verifier::external_body]
pub(crate) fn resize_rgba_triangle(
    width: u32,
    height: u32,
    pixels: &[u8],
    new_width: u32,
    new_height: u32,
) -> (r: Vec<u8>)
    requires
        resize_fits(width, height, pixels.len() as int, new_width, new_height),
    ensures
        r@ == spec_resize_triangle(width, height, pixels@, new_width, new_height),
        r.len() == 4 * ((new_width as int) * (new_height as int)),
{
    let img = image::ImageBuffer::<image::Rgba<u8>, Vec<u8>>::from_raw(width, height, pixels.to_vec())
        .unwrap();
    image::imageops::resize(&img, new_width, new_height, image::imageops::FilterType::Triangle)
        .into_raw()
}

/// The PNG file that `ImageBuffer::write_to(.., ImageFormat::Png)` writes for a
/// `width` x `height` RGBA8 image read from `pixels`; `None` when it reports an error.
pub uninterp spec fn spec_png_rgba(width: u32, height: u32, pixels: Seq<u8>) -> Option<Seq<u8>>;

/// `ImageBuffer::write_to` with `ImageFormat::Png`, into an in-memory cursor.
#[verifier::external_body]
pub(crate) fn encode_png_rgba(width: u32, height: u32, pixels: &[u8]) -> (r: Option<Vec<u8>>)
    requires
        4 * ((width as int) * (height as int)) <= pixels.len(),
    ensures
        match r {
            Some(png) => spec_png_rgba(width, height, pixels@) == Some(png@),
            None => spec_png_rgba(width, height, pixels@) is None,
        },
{
    let img = image::ImageBuffer::<image::Rgba<u8>, Vec<u8>>::from_raw(width, height, pixels.to_vec())
        .unwrap();
    let mut png_data = std::io::Cursor::new(Vec::new());
    match img.write_to(&mut png_data, image::ImageFormat::Png) {
        Ok(()) => Some(png_data.into_inner()),
        Err(_) => None,
    }
}

/// What `DynamicImage::write_to(.., ImageFormat::Png)` writes for the
/// `DynamicImage::ImageRgba8` of a `width` x `height` image read from `pixels`: the
/// PNG file, or the text of the encoder's error.
pub uninterp spec fn spec_dynamic_rgba_png(width: u32, height: u32, pixels: Seq<u8>) -> Result<
    Seq<u8>,
    Seq<char>,
>;

/// `DynamicImage::write_to` with `ImageFormat::Png`, into an in-memory cursor, of
/// `DynamicImage::ImageRgba8` of the buffer that `ImageBuffer::from_raw` makes of
/// `pixels`. `from_raw` accepts them, as they hold `4 * width * height` bytes; they
/// must hold exactly that many, as the PNG encoder asserts that the whole buffer is
/// the image. The contract says that the bytes written, or the error's message, are
/// the ones fixed by the arguments.
#[verifier::external_body]
pub(crate) fn encode_dynamic_rgba_png(width: u32, height: u32, pixels: &[u8]) -> (r: Result<
    Vec<u8>,
    String,
>)
    requires
        pixels.len() == 4 * ((width as int) * (height as int)),
    ensures
        match r {
            Ok(png) => spec_dynamic_rgba_png(width, height, pixels@) == Ok::<Seq<u8>, Seq<char>>(png@),
            Err(e) => spec_dynamic_rgba_png(width, height, pixels@) == Err::<Seq<u8>, Seq<char>>(e@),
        },
{
    let img = image::RgbaImage::from_raw(width, height, pixels.to_vec()).unwrap();
    let mut png_data = std::io::Cursor::new(Vec::new());
    match DynamicImage::ImageRgba8(img).write_to(&mut png_data, image::ImageFormat::Png) {
        Ok(()) => Ok(png_data.into_inner()),
        Err(e) => Err(e.to_string()),
    }
}

} // verus!
