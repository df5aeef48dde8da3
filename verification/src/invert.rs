use crate::buffer::{
    alpha_at, color_at, count_pixels, is_pixel_buffer, pixel_count, read_alpha, read_color,
    same_alpha, write_pixel,
};
use crate::color::{Lab, Rgb};
use crate::error::TransformError;
use vstd::prelude::*;

verus! {

/// `result` is `source` with its lightness reflected: `source` was converted
/// to LAB, `reflect` was applied to the lightness alone, and the colour with
/// the new lightness and the old chroma was converted back.
pub open spec fn inverted_color<T, A: Fn(Rgb) -> Lab<T>, R: Fn(T) -> T, B: Fn(Lab<T>) -> Rgb>(
    to_lab: A,
    reflect: R,
    to_rgb: B,
    source: Rgb,
    result: Rgb,
) -> bool {
    exists|color: Lab<T>, lightness: T|
        #![trigger to_lab.ensures((source,), color), reflect.ensures((color.l,), lightness)]
        {
            &&& to_lab.ensures((source,), color)
            &&& reflect.ensures((color.l,), lightness)
            &&& to_rgb.ensures((Lab { l: lightness, a: color.a, b: color.b },), result)
        }
}

/// What holds of pixel number `pixel` of an inverted image: its colour is
/// the inverted colour of the same pixel of the input, and its alpha is that
/// pixel's alpha.
pub open spec fn inverted_pixel<T, A: Fn(Rgb) -> Lab<T>, R: Fn(T) -> T, B: Fn(Lab<T>) -> Rgb>(
    to_lab: A,
    reflect: R,
    to_rgb: B,
    input: Seq<u8>,
    output: Seq<u8>,
    pixel: int,
) -> bool {
    &&& alpha_at(output, pixel) == alpha_at(input, pixel)
    &&& inverted_color(to_lab, reflect, to_rgb, color_at(input, pixel), color_at(output, pixel))
}

/// `output` is `input` with the lightness of every pixel reflected.
pub open spec fn inverted<T, A: Fn(Rgb) -> Lab<T>, R: Fn(T) -> T, B: Fn(Lab<T>) -> Rgb>(
    to_lab: A,
    reflect: R,
    to_rgb: B,
    input: Seq<u8>,
    output: Seq<u8>,
) -> bool {
    &&& output.len() == input.len()
    &&& forall|pixel: int|
        0 <= pixel < pixel_count(input) ==> #[trigger] inverted_pixel(
            to_lab,
            reflect,
            to_rgb,
            input,
            output,
            pixel,
        )
}

/// Inversion is colour arithmetic only: every pixel of an inverted image
/// carries the alpha of the same pixel of the input.
pub proof fn lemma_inverted_keeps_alpha<
    T,
    A: Fn(Rgb) -> Lab<T>,
    R: Fn(T) -> T,
    B: Fn(Lab<T>) -> Rgb,
>(to_lab: A, reflect: R, to_rgb: B, input: Seq<u8>, output: Seq<u8>)
    requires
        inverted(to_lab, reflect, to_rgb, input, output),
    ensures
        same_alpha(input, output),
{
    assert forall|pixel: int| 0 <= pixel < pixel_count(input) implies #[trigger] alpha_at(
        output,
        pixel,
    ) == alpha_at(input, pixel) by {
        assert(inverted_pixel(to_lab, reflect, to_rgb, input, output, pixel));
    }
}

/// Reflects the lightness of one colour, keeping its chroma.
pub fn invert_color<T, A: Fn(Rgb) -> Lab<T>, R: Fn(T) -> T, B: Fn(Lab<T>) -> Rgb>(
    source: Rgb,
    to_lab: &A,
    reflect: &R,
    to_rgb: &B,
) -> (result: Rgb)
    requires
        forall|color: Rgb| to_lab.requires((color,)),
        forall|lightness: T| reflect.requires((lightness,)),
        forall|color: Lab<T>| to_rgb.requires((color,)),
    ensures
        inverted_color(*to_lab, *reflect, *to_rgb, source, result),
{
    let Lab { l, a, b } = to_lab(source);
    let ghost color = Lab { l, a, b };
    let lightness: T = reflect(l);
    assert(reflect.ensures((color.l,), lightness));
    to_rgb(Lab { l: lightness, a, b })
}

/// Inverts the lightness of an image. Every pixel is handled by itself: its
/// colour is converted to LAB, the lightness is reflected, the colour is
/// converted back, and the pixel's alpha is kept. The input is not changed;
/// the dimensions play no part, since no pixel looks at another.
///
/// A buffer that ends inside a pixel is refused before any pixel is
/// converted.
pub fn invert_lightness_lab<T, A: Fn(Rgb) -> Lab<T>, R: Fn(T) -> T, B: Fn(Lab<T>) -> Rgb>(
    image_data: &[u8],
    _width: u32,
    _height: u32,
    to_lab: A,
    reflect: R,
    to_rgb: B,
) -> (result: Result<Vec<u8>, TransformError>)
    requires
        forall|color: Rgb| to_lab.requires((color,)),
        forall|lightness: T| reflect.requires((lightness,)),
        forall|color: Lab<T>| to_rgb.requires((color,)),
    ensures
        match result {
            Ok(output) => {
                &&& is_pixel_buffer(image_data@)
                &&& inverted(to_lab, reflect, to_rgb, image_data@, output@)
                &&& same_alpha(image_data@, output@)
            },
            Err(error) => {
                &&& !is_pixel_buffer(image_data@)
                &&& error == TransformError::MalformedBuffer
            },
        },
{
    let count: usize = count_pixels(image_data)?;
    let mut output: Vec<u8> = Vec::with_capacity(image_data.len());
    let mut pixel: usize = 0;
    while pixel < count
        invariant
            pixel <= count,
            count == pixel_count(image_data@),
            is_pixel_buffer(image_data@),
            forall|color: Rgb| to_lab.requires((color,)),
            forall|lightness: T| reflect.requires((lightness,)),
            forall|color: Lab<T>| to_rgb.requires((color,)),
            is_pixel_buffer(output@),
            pixel_count(output@) == pixel,
            forall|done: int|
                0 <= done < pixel ==> #[trigger] inverted_pixel(
                    to_lab,
                    reflect,
                    to_rgb,
                    image_data@,
                    output@,
                    done,
                ),
        decreases count - pixel,
    {
        let color: Rgb = invert_color(read_color(image_data, pixel), &to_lab, &reflect, &to_rgb);
        let ghost before = output@;
        write_pixel(&mut output, color, read_alpha(image_data, pixel));
        assert forall|done: int| 0 <= done < pixel + 1 implies #[trigger] inverted_pixel(
            to_lab,
            reflect,
            to_rgb,
            image_data@,
            output@,
            done,
        ) by {
            if done < pixel {
                assert(inverted_pixel(to_lab, reflect, to_rgb, image_data@, before, done));
            }
        }
        pixel += 1;
    }
    proof {
        lemma_inverted_keeps_alpha(to_lab, reflect, to_rgb, image_data@, output@);
    }
    Ok(output)
}

} // verus!
