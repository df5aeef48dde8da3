use crate::color::{Lab, Rgb};
use crate::error::TransformError;
use vstd::prelude::*;

verus! {

/// A pixel buffer holds whole pixels: four bytes each, in the order red,
/// green, blue, alpha, pixels in row-major order.
pub open spec fn is_pixel_buffer(bytes: Seq<u8>) -> bool {
    bytes.len() % 4 == 0
}

/// The number of whole pixels in `bytes`.
pub open spec fn pixel_count(bytes: Seq<u8>) -> int {
    bytes.len() as int / 4
}

/// The colour of pixel number `pixel`.
pub open spec fn color_at(bytes: Seq<u8>, pixel: int) -> Rgb {
    Rgb { red: bytes[4 * pixel], green: bytes[4 * pixel + 1], blue: bytes[4 * pixel + 2] }
}

/// The alpha byte of pixel number `pixel`.
pub open spec fn alpha_at(bytes: Seq<u8>, pixel: int) -> u8 {
    bytes[4 * pixel + 3]
}

/// The four bytes that store one pixel.
pub open spec fn pixel_bytes(color: Rgb, alpha: u8) -> Seq<u8> {
    seq![color.red, color.green, color.blue, alpha]
}

/// Two buffers of the same size whose pixels carry the same alpha, pixel by
/// pixel.
pub open spec fn same_alpha(input: Seq<u8>, output: Seq<u8>) -> bool {
    &&& output.len() == input.len()
    &&& forall|pixel: int|
        0 <= pixel < pixel_count(input) ==> #[trigger] alpha_at(output, pixel) == alpha_at(
            input,
            pixel,
        )
}

/// The buffer holds exactly the pixels of an image `width` wide and `height`
/// high.
pub open spec fn has_dimensions(bytes: Seq<u8>, width: int, height: int) -> bool {
    bytes.len() == width * height * 4
}

/// The alpha bytes of a buffer, one per pixel.
pub open spec fn alphas_of(bytes: Seq<u8>) -> Seq<u8> {
    Seq::new(pixel_count(bytes) as nat, |pixel: int| alpha_at(bytes, pixel))
}

/// What is wrong with a buffer that does not have the dimensions asked for:
/// a buffer that ends inside a pixel is malformed, whatever the dimensions.
pub open spec fn dimension_error(bytes: Seq<u8>) -> TransformError {
    if is_pixel_buffer(bytes) {
        TransformError::DimensionMismatch
    } else {
        TransformError::MalformedBuffer
    }
}

/// `colors` holds one LAB colour for each pixel of `input`, and each is what
/// `to_lab` gave for that pixel's stored colour.
pub open spec fn converted<T, A: Fn(Rgb) -> Lab<T>>(
    to_lab: A,
    input: Seq<u8>,
    colors: Seq<Lab<T>>,
) -> bool {
    &&& colors.len() == pixel_count(input)
    &&& forall|pixel: int|
        0 <= pixel < pixel_count(input) ==> to_lab.ensures(
            (color_at(input, pixel),),
            #[trigger] colors[pixel],
        )
}

/// Counts the pixels of a buffer, refusing one that ends inside a pixel.
pub fn count_pixels(image_data: &[u8]) -> (result: Result<usize, TransformError>)
    ensures
        match result {
            Ok(count) => is_pixel_buffer(image_data@) && count == pixel_count(image_data@),
            Err(error) => !is_pixel_buffer(image_data@) && error
                == TransformError::MalformedBuffer,
        },
{
    let length: usize = image_data.len();
    if length % 4 == 0 {
        Ok(length / 4)
    } else {
        Err(TransformError::MalformedBuffer)
    }
}

/// Counts the pixels of a buffer that is to hold an image `width` wide and
/// `height` high, refusing one that ends inside a pixel or holds another
/// number of pixels.
pub fn check_dimensions(image_data: &[u8], width: u32, height: u32) -> (result: Result<
    usize,
    TransformError,
>)
    ensures
        match result {
            Ok(count) => has_dimensions(image_data@, width as int, height as int) && count
                == width * height,
            Err(error) => !has_dimensions(image_data@, width as int, height as int) && error
                == dimension_error(image_data@),
        },
{
    let count: usize = count_pixels(image_data)?;
    assert(width * height <= u32::MAX * u32::MAX) by (nonlinear_arith);
    let expected: u64 = (width as u64) * (height as u64);
    if count as u64 == expected {
        Ok(count)
    } else {
        Err(TransformError::DimensionMismatch)
    }
}

/// Reads the colour of pixel number `pixel`.
pub(crate) fn read_color(image_data: &[u8], pixel: usize) -> (color: Rgb)
    requires
        pixel < pixel_count(image_data@),
    ensures
        color == color_at(image_data@, pixel as int),
{
    assert(4 * pixel + 3 < image_data.len());
    let base: usize = 4 * pixel;
    Rgb { red: image_data[base], green: image_data[base + 1], blue: image_data[base + 2] }
}

/// Reads the alpha byte of pixel number `pixel`.
pub(crate) fn read_alpha(image_data: &[u8], pixel: usize) -> (alpha: u8)
    requires
        pixel < pixel_count(image_data@),
    ensures
        alpha == alpha_at(image_data@, pixel as int),
{
    assert(4 * pixel + 3 < image_data.len());
    image_data[4 * pixel + 3]
}

/// Appends one pixel to a buffer of whole pixels. The pixels already there
/// stay as they are, and the new one is the last.
pub(crate) fn write_pixel(output: &mut Vec<u8>, color: Rgb, alpha: u8)
    requires
        is_pixel_buffer(old(output)@),
    ensures
        final(output)@ == old(output)@ + pixel_bytes(color, alpha),
        is_pixel_buffer(final(output)@),
        pixel_count(final(output)@) == pixel_count(old(output)@) + 1,
        color_at(final(output)@, pixel_count(old(output)@)) == color,
        alpha_at(final(output)@, pixel_count(old(output)@)) == alpha,
        forall|pixel: int|
            0 <= pixel < pixel_count(old(output)@) ==> #[trigger] color_at(final(output)@, pixel)
                == color_at(old(output)@, pixel),
        forall|pixel: int|
            0 <= pixel < pixel_count(old(output)@) ==> #[trigger] alpha_at(final(output)@, pixel)
                == alpha_at(old(output)@, pixel),
{
    output.push(color.red);
    output.push(color.green);
    output.push(color.blue);
    output.push(alpha);
}

} // verus!
