use crate::buffer::{
    alpha_at, color_at, converted, count_pixels, is_pixel_buffer, pixel_count, read_alpha,
    read_color, same_alpha, write_pixel,
};
use crate::color::{Lab, Rgb};
use crate::error::TransformError;
use vstd::prelude::*;

verus! {

/// `totals` records a summation of the lightness of `colors` from left to
/// right: it starts at `zero`, and each further entry is what `accumulate`
/// gave for the entry before it and the lightness of the next colour. Its
/// last entry is the sum of all.
pub open spec fn running_totals<T, S: Fn(T, T) -> T>(
    accumulate: S,
    zero: T,
    colors: Seq<Lab<T>>,
    totals: Seq<T>,
) -> bool {
    &&& totals.len() == colors.len() + 1
    &&& totals[0] == zero
    &&& forall|pixel: int|
        0 <= pixel < colors.len() ==> accumulate.ensures(
            (totals[pixel], (#[trigger] colors[pixel]).l),
            totals[pixel + 1],
        )
}

/// `mean` is the mean lightness of the image: every pixel was converted to
/// LAB, the lightness of all was summed in pixel order, and `divide` gave
/// `mean` for the sum and the number of pixels.
pub open spec fn is_mean_lightness<
    T,
    A: Fn(Rgb) -> Lab<T>,
    S: Fn(T, T) -> T,
    D: Fn(T, usize) -> T,
>(to_lab: A, zero: T, accumulate: S, divide: D, input: Seq<u8>, mean: T) -> bool {
    exists|colors: Seq<Lab<T>>, totals: Seq<T>|
        #![trigger converted(to_lab, input, colors), running_totals(accumulate, zero, colors, totals)]
        {
            &&& converted(to_lab, input, colors)
            &&& running_totals(accumulate, zero, colors, totals)
            &&& divide.ensures((totals[pixel_count(input)], pixel_count(input) as usize), mean)
        }
}

/// `result` is `source` with its lightness replaced by `lightness`: `source`
/// was converted to LAB, and the colour with the given lightness and the
/// chroma of `source` was converted back.
pub open spec fn relit_color<T, A: Fn(Rgb) -> Lab<T>, B: Fn(Lab<T>) -> Rgb>(
    to_lab: A,
    to_rgb: B,
    lightness: T,
    source: Rgb,
    result: Rgb,
) -> bool {
    exists|color: Lab<T>| #[trigger]
        to_lab.ensures((source,), color) && to_rgb.ensures(
            (Lab { l: lightness, a: color.a, b: color.b },),
            result,
        )
}

/// What holds of pixel number `pixel` of a relit image: its colour is the
/// colour of the same pixel of the input with the given lightness, and its
/// alpha is that pixel's alpha.
pub open spec fn relit_pixel<T, A: Fn(Rgb) -> Lab<T>, B: Fn(Lab<T>) -> Rgb>(
    to_lab: A,
    to_rgb: B,
    lightness: T,
    input: Seq<u8>,
    output: Seq<u8>,
    pixel: int,
) -> bool {
    &&& alpha_at(output, pixel) == alpha_at(input, pixel)
    &&& relit_color(to_lab, to_rgb, lightness, color_at(input, pixel), color_at(output, pixel))
}

/// `output` is `input` with the lightness of every pixel replaced by the one
/// value `lightness`.
pub open spec fn relit<T, A: Fn(Rgb) -> Lab<T>, B: Fn(Lab<T>) -> Rgb>(
    to_lab: A,
    to_rgb: B,
    lightness: T,
    input: Seq<u8>,
    output: Seq<u8>,
) -> bool {
    &&& output.len() == input.len()
    &&& forall|pixel: int|
        0 <= pixel < pixel_count(input) ==> #[trigger] relit_pixel(
            to_lab,
            to_rgb,
            lightness,
            input,
            output,
            pixel,
        )
}

/// `output` is `input` equalized: an image without pixels stays as it is,
/// and in any other every pixel is relit with the mean lightness of the
/// whole image.
pub open spec fn equalized<
    T,
    A: Fn(Rgb) -> Lab<T>,
    S: Fn(T, T) -> T,
    D: Fn(T, usize) -> T,
    B: Fn(Lab<T>) -> Rgb,
>(to_lab: A, zero: T, accumulate: S, divide: D, to_rgb: B, input: Seq<u8>, output: Seq<u8>) -> bool {
    if pixel_count(input) == 0 {
        output.len() == 0
    } else {
        exists|mean: T| #[trigger]
            is_mean_lightness(to_lab, zero, accumulate, divide, input, mean) && relit(
                to_lab,
                to_rgb,
                mean,
                input,
                output,
            )
    }
}

/// `result` was converted from a LAB colour of the given lightness.
pub open spec fn made_with_lightness<T, B: Fn(Lab<T>) -> Rgb>(
    to_rgb: B,
    lightness: T,
    result: Rgb,
) -> bool {
    exists|color: Lab<T>| color.l == lightness && #[trigger] to_rgb.ensures((color,), result)
}

/// Relighting is colour arithmetic only: every pixel of a relit image
/// carries the alpha of the same pixel of the input.
pub proof fn lemma_relit_keeps_alpha<T, A: Fn(Rgb) -> Lab<T>, B: Fn(Lab<T>) -> Rgb>(
    to_lab: A,
    to_rgb: B,
    lightness: T,
    input: Seq<u8>,
    output: Seq<u8>,
)
    requires
        relit(to_lab, to_rgb, lightness, input, output),
    ensures
        same_alpha(input, output),
{
    assert forall|pixel: int| 0 <= pixel < pixel_count(input) implies #[trigger] alpha_at(
        output,
        pixel,
    ) == alpha_at(input, pixel) by {
        assert(relit_pixel(to_lab, to_rgb, lightness, input, output, pixel));
    }
}

/// Every pixel of an equalized image carries the alpha of the same pixel of
/// the input.
pub proof fn lemma_equalized_keeps_alpha<
    T,
    A: Fn(Rgb) -> Lab<T>,
    S: Fn(T, T) -> T,
    D: Fn(T, usize) -> T,
    B: Fn(Lab<T>) -> Rgb,
>(to_lab: A, zero: T, accumulate: S, divide: D, to_rgb: B, input: Seq<u8>, output: Seq<u8>)
    requires
        is_pixel_buffer(input),
        equalized(to_lab, zero, accumulate, divide, to_rgb, input, output),
    ensures
        same_alpha(input, output),
{
    if pixel_count(input) != 0 {
        let mean = choose|mean: T| #[trigger]
            is_mean_lightness(to_lab, zero, accumulate, divide, input, mean) && relit(
                to_lab,
                to_rgb,
                mean,
                input,
                output,
            );
        lemma_relit_keeps_alpha(to_lab, to_rgb, mean, input, output);
    }
}

/// After equalization all pixels share one lightness: there is one value,
/// the mean lightness of the input, such that every output pixel was
/// converted from a LAB colour of exactly that lightness.
pub proof fn lemma_equalized_shares_lightness<
    T,
    A: Fn(Rgb) -> Lab<T>,
    S: Fn(T, T) -> T,
    D: Fn(T, usize) -> T,
    B: Fn(Lab<T>) -> Rgb,
>(to_lab: A, zero: T, accumulate: S, divide: D, to_rgb: B, input: Seq<u8>, output: Seq<u8>)
    requires
        pixel_count(input) > 0,
        equalized(to_lab, zero, accumulate, divide, to_rgb, input, output),
    ensures
        exists|mean: T| #[trigger]
            is_mean_lightness(to_lab, zero, accumulate, divide, input, mean) && forall|pixel: int|
                0 <= pixel < pixel_count(input) ==> #[trigger] made_with_lightness(
                    to_rgb,
                    mean,
                    color_at(output, pixel),
                ),
{
    let mean = choose|mean: T| #[trigger]
        is_mean_lightness(to_lab, zero, accumulate, divide, input, mean) && relit(
            to_lab,
            to_rgb,
            mean,
            input,
            output,
        );
    assert forall|pixel: int| 0 <= pixel < pixel_count(input) implies #[trigger] made_with_lightness(
        to_rgb,
        mean,
        color_at(output, pixel),
    ) by {
        assert(relit_pixel(to_lab, to_rgb, mean, input, output, pixel));
        let color = choose|color: Lab<T>| #[trigger]
            to_lab.ensures((color_at(input, pixel),), color) && to_rgb.ensures(
                (Lab { l: mean, a: color.a, b: color.b },),
                color_at(output, pixel),
            );
        let made = Lab { l: mean, a: color.a, b: color.b };
        assert(made.l == mean && to_rgb.ensures((made,), color_at(output, pixel)));
    }
}

/// What `mean_lightness` answers where it has no mean to give.
pub open spec fn mean_error(input: Seq<u8>) -> TransformError {
    if is_pixel_buffer(input) {
        TransformError::EmptyInput
    } else {
        TransformError::MalformedBuffer
    }
}

/// The first pass of equalization: the mean lightness of an image. Every
/// pixel is converted to LAB and its lightness added to a running sum that
/// starts at `zero`; the sum is then divided by the number of pixels.
///
/// An image without pixels has no mean, and nothing is divided: the answer is
/// `EmptyInput`. A buffer that ends inside a pixel is refused before any
/// pixel is converted.
pub fn mean_lightness<T: Copy, A: Fn(Rgb) -> Lab<T>, S: Fn(T, T) -> T, D: Fn(T, usize) -> T>(
    image_data: &[u8],
    to_lab: &A,
    zero: T,
    accumulate: &S,
    divide: &D,
) -> (result: Result<T, TransformError>)
    requires
        forall|color: Rgb| to_lab.requires((color,)),
        forall|total: T, lightness: T| accumulate.requires((total, lightness)),
        forall|total: T, count: usize| count > 0 ==> divide.requires((total, count)),
    ensures
        match result {
            Ok(mean) => {
                &&& is_pixel_buffer(image_data@)
                &&& pixel_count(image_data@) > 0
                &&& is_mean_lightness(*to_lab, zero, *accumulate, *divide, image_data@, mean)
            },
            Err(error) => {
                &&& !is_pixel_buffer(image_data@) || pixel_count(image_data@) == 0
                &&& error == mean_error(image_data@)
            },
        },
{
    let count: usize = count_pixels(image_data)?;
    if count == 0 {
        return Err(TransformError::EmptyInput);
    }
    let mut total: T = zero;
    let ghost mut colors: Seq<Lab<T>> = Seq::empty();
    let ghost mut totals: Seq<T> = seq![zero];
    let mut pixel: usize = 0;
    while pixel < count
        invariant
            pixel <= count,
            count == pixel_count(image_data@),
            is_pixel_buffer(image_data@),
            forall|color: Rgb| to_lab.requires((color,)),
            forall|total: T, lightness: T| accumulate.requires((total, lightness)),
            colors.len() == pixel,
            converted(*to_lab, image_data@.take(4 * pixel), colors),
            running_totals(*accumulate, zero, colors, totals),
            totals[pixel as int] == total,
        decreases count - pixel,
    {
        let color: Lab<T> = to_lab(read_color(image_data, pixel));
        let next: T = accumulate(total, color.l);
        proof {
            let longer = colors.push(color);
            assert forall|done: int| 0 <= done < pixel + 1 implies to_lab.ensures(
                (color_at(image_data@.take(4 * (pixel + 1)), done),),
                #[trigger] longer[done],
            ) by {
                if done < pixel {
                    assert(longer[done] == colors[done]);
                    assert(color_at(image_data@.take(4 * (pixel + 1)), done) == color_at(
                        image_data@.take(4 * pixel),
                        done,
                    ));
                }
            }
            assert forall|done: int| 0 <= done < pixel + 1 implies accumulate.ensures(
                (totals.push(next)[done], (#[trigger] longer[done]).l),
                totals.push(next)[done + 1],
            ) by {
                if done < pixel {
                    assert(longer[done] == colors[done]);
                }
            }
            colors = longer;
            totals = totals.push(next);
        }
        total = next;
        pixel += 1;
    }
    assert(image_data@.take(4 * pixel) == image_data@);
    Ok(divide(total, count))
}

/// Replaces the lightness of one colour, keeping its chroma.
pub fn relight_color<T, A: Fn(Rgb) -> Lab<T>, B: Fn(Lab<T>) -> Rgb>(
    source: Rgb,
    lightness: T,
    to_lab: &A,
    to_rgb: &B,
) -> (result: Rgb)
    requires
        forall|color: Rgb| to_lab.requires((color,)),
        forall|color: Lab<T>| to_rgb.requires((color,)),
    ensures
        relit_color(*to_lab, *to_rgb, lightness, source, result),
{
    let Lab { l: _, a, b } = to_lab(source);
    to_rgb(Lab { l: lightness, a, b })
}

/// The second pass of equalization: every pixel gets the one lightness
/// handed in. Its colour is converted to LAB, the lightness is overwritten,
/// the colour is converted back, and the pixel's alpha is kept.
///
/// A buffer that ends inside a pixel is refused before any pixel is
/// converted.
pub fn apply_lightness<T: Copy, A: Fn(Rgb) -> Lab<T>, B: Fn(Lab<T>) -> Rgb>(
    image_data: &[u8],
    lightness: T,
    to_lab: &A,
    to_rgb: &B,
) -> (result: Result<Vec<u8>, TransformError>)
    requires
        forall|color: Rgb| to_lab.requires((color,)),
        forall|color: Lab<T>| to_rgb.requires((color,)),
    ensures
        match result {
            Ok(output) => {
                &&& is_pixel_buffer(image_data@)
                &&& relit(*to_lab, *to_rgb, lightness, image_data@, output@)
                &&& same_alpha(image_data@, output@)
            },
            Err(error) => {
                &&& !is_pixel_buffer(image_data@)
                &&& error == TransformError::MalformedBuffer
            },
        },
{
    let count: usize = count_pixels(image_data)?;
    let mut output: Vec<u8> = Vec::with_capacity(image_data.len());
    let mut pixel: usize = 0;
    while pixel < count
        invariant
            pixel <= count,
            count == pixel_count(image_data@),
            is_pixel_buffer(image_data@),
            forall|color: Rgb| to_lab.requires((color,)),
            forall|color: Lab<T>| to_rgb.requires((color,)),
            is_pixel_buffer(output@),
            pixel_count(output@) == pixel,
            forall|done: int|
                0 <= done < pixel ==> #[trigger] relit_pixel(
                    *to_lab,
                    *to_rgb,
                    lightness,
                    image_data@,
                    output@,
                    done,
                ),
        decreases count - pixel,
    {
        let color: Rgb = relight_color(read_color(image_data, pixel), lightness, to_lab, to_rgb);
        let ghost before = output@;
        write_pixel(&mut output, color, read_alpha(image_data, pixel));
        assert forall|done: int| 0 <= done < pixel + 1 implies #[trigger] relit_pixel(
            *to_lab,
            *to_rgb,
            lightness,
            image_data@,
            output@,
            done,
        ) by {
            if done < pixel {
                assert(relit_pixel(*to_lab, *to_rgb, lightness, image_data@, before, done));
            }
        }
        pixel += 1;
    }
    proof {
        lemma_relit_keeps_alpha(*to_lab, *to_rgb, lightness, image_data@, output@);
    }
    Ok(output)
}

/// Equalizes the lightness of an image in two passes: the first finds the
/// mean lightness of all pixels, the second gives every pixel that lightness
/// and keeps its chroma and its alpha. The input is not changed; the
/// dimensions play no part.
///
/// An image without pixels has no mean lightness: nothing is summed or
/// divided for it, and the result is the empty image. A buffer that ends
/// inside a pixel is refused before any pixel is converted.
pub fn equalize_lightness_lab<
    T: Copy,
    A: Fn(Rgb) -> Lab<T>,
    S: Fn(T, T) -> T,
    D: Fn(T, usize) -> T,
    B: Fn(Lab<T>) -> Rgb,
>(
    image_data: &[u8],
    _width: u32,
    _height: u32,
    to_lab: A,
    zero: T,
    accumulate: S,
    divide: D,
    to_rgb: B,
) -> (result: Result<Vec<u8>, TransformError>)
    requires
        forall|color: Rgb| to_lab.requires((color,)),
        forall|total: T, lightness: T| accumulate.requires((total, lightness)),
        forall|total: T, count: usize| count > 0 ==> divide.requires((total, count)),
        forall|color: Lab<T>| to_rgb.requires((color,)),
    ensures
        match result {
            Ok(output) => {
                &&& is_pixel_buffer(image_data@)
                &&& equalized(to_lab, zero, accumulate, divide, to_rgb, image_data@, output@)
                &&& same_alpha(image_data@, output@)
            },
            Err(error) => {
                &&& !is_pixel_buffer(image_data@)
                &&& error == TransformError::MalformedBuffer
            },
        },
{
    match mean_lightness(image_data, &to_lab, zero, &accumulate, &divide) {
        Ok(mean) => apply_lightness(image_data, mean, &to_lab, &to_rgb),
        Err(TransformError::EmptyInput) => Ok(Vec::new()),
        Err(error) => Err(error),
    }
}

} // verus!
