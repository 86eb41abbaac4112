//! The resolved image as an 8-bit image buffer, ready to be written.

use crate::depth_image::{bytes_of, quantize};
use crate::pixel::LinearRgba;
use vstd::prelude::*;

verus! {

/// An image buffer of the `image` crate with four bytes per pixel: red,
/// green, blue and opacity.
///
/// The verifier does not look inside the buffer. What the contracts say of
/// it, they say through `image_bytes`, `image_width` and `image_height`;
/// all of it rests on the contract of `image_from_vec`, which is taken on
/// trust.
#[verifier::external_body]
pub struct ByteImage {
    /// The buffer itself, for writing it out.
    pub buffer: image::RgbaImage,
}

/// The samples that the buffer holds, four per pixel, row by row: what
/// `image::ImageBuffer::as_raw` returns.
pub uninterp spec fn image_bytes(img: ByteImage) -> Seq<u8>;

/// The width of the buffer, in pixels: what `image::ImageBuffer::width`
/// returns.
pub uninterp spec fn image_width(img: ByteImage) -> u32;

/// The height of the buffer, in pixels: what `image::ImageBuffer::height`
/// returns.
pub uninterp spec fn image_height(img: ByteImage) -> u32;

/// Whether `len` samples are enough for an image of `width` by `height`
/// pixels with four samples each: whether the number of samples in a row
/// and in the whole image can be counted, and `len` is no less.
pub open spec fn image_fits(width: u32, height: u32, len: nat) -> bool {
    &&& 4 * width <= usize::MAX
    &&& 4 * width * height <= usize::MAX
    &&& 4 * width * height <= len
}

/// `image::ImageBuffer::from_vec`: the image buffer of `width` by `height`
/// pixels over the samples `buf`. The buffer keeps `buf` as it is, together
/// with the two dimensions; there is none where `buf` has fewer than
/// `4 * width * height` samples, or where that number or `4 * width` is
/// more than the largest index.
#[verifier::external_body]
fn image_from_vec(width: u32, height: u32, buf: Vec<u8>) -> (r: Option<ByteImage>)
    ensures
        r is Some <==> image_fits(width, height, buf@.len()),
        r is Some ==> image_bytes(r.unwrap()) == buf@,
        r is Some ==> image_width(r.unwrap()) == width,
        r is Some ==> image_height(r.unwrap()) == height,
{
    match image::RgbaImage::from_vec(width, height, buf) {
        Some(buffer) => Some(ByteImage { buffer }),
        None => None,
    }
}

/// The image of `width` by `height` pixels whose colours `pixels` lists row
/// by row, with every channel scaled to a byte; `None` where `pixels` lists
/// fewer than `width * height` colours, or where the samples of one row are
/// more than can be counted.
pub fn to_image(width: u32, height: u32, pixels: &Vec<LinearRgba>) -> (r: Option<ByteImage>)
    ensures
        r is Some <==> 4 * width <= usize::MAX && width * height <= pixels@.len(),
        r is Some ==> image_bytes(r.unwrap()) == bytes_of(pixels@),
        r is Some ==> image_width(r.unwrap()) == width,
        r is Some ==> image_height(r.unwrap()) == height,
{
    let bytes = quantize(pixels);
    let samples = bytes.len();
    assert(samples == 4 * pixels@.len());
    assert(4 * width * height == 4 * (width * height)) by (nonlinear_arith);
    image_from_vec(width, height, bytes)
}

} // verus!
