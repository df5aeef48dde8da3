use crate::buffer::{
    alpha_at, alphas_of, color_at, converted, dimension_error, has_dimensions, pixel_count,
    same_alpha,
};
use crate::color::{Lab, Rgb};
use crate::error::TransformError;
use crate::planes::{resynthesized, resynthesized_pixel, sample, ChannelPlanes};
use crate::sampling::{
    lemma_large_negative_offset_samples_edges, lemma_large_positive_offset_samples_edges,
    lemma_zero_offset_samples_self, pixel_index,
};
use vstd::prelude::*;

verus! {

/// `output` is `input` with its channels displaced by `offset`: the image
/// was taken apart into LAB planes, every pixel converted once, and put
/// together again with each channel sampled at its own displaced source.
pub open spec fn laberated<T, A: Fn(Rgb) -> Lab<T>, B: Fn(Lab<T>) -> Rgb>(
    to_lab: A,
    to_rgb: B,
    input: Seq<u8>,
    width: int,
    height: int,
    offset: int,
    output: Seq<u8>,
) -> bool {
    exists|colors: Seq<Lab<T>>| #[trigger]
        converted(to_lab, input, colors) && resynthesized(
            to_rgb,
            colors,
            alphas_of(input),
            width,
            height,
            offset,
            output,
        )
}

/// `output` is `input` taken through LAB and back: every pixel was converted
/// to LAB and that very colour converted back, alpha kept.
pub open spec fn round_tripped<T, A: Fn(Rgb) -> Lab<T>, B: Fn(Lab<T>) -> Rgb>(
    to_lab: A,
    to_rgb: B,
    input: Seq<u8>,
    output: Seq<u8>,
) -> bool {
    &&& same_alpha(input, output)
    &&& exists|colors: Seq<Lab<T>>| #[trigger]
        converted(to_lab, input, colors) && forall|pixel: int|
            0 <= pixel < pixel_count(input) ==> to_rgb.ensures(
                (#[trigger] colors[pixel],),
                color_at(output, pixel),
            )
}

/// Every pixel of an image has a column and a row inside the image, and its
/// index is the row-major index of that place.
pub proof fn lemma_pixel_coordinates(width: int, height: int, pixel: int)
    requires
        0 <= pixel < width * height,
        0 <= height,
    ensures
        0 <= pixel % width < width,
        0 <= pixel / width < height,
        pixel_index(width, pixel % width, pixel / width) == pixel,
{
    assert(width > 0) by (nonlinear_arith)
        requires
            0 <= pixel < width * height,
            0 <= height,
    ;
    vstd::arithmetic::div_mod::lemma_fundamental_div_mod(pixel, width);
    vstd::arithmetic::div_mod::lemma_div_pos_is_pos(pixel, width);
    let row = pixel / width;
    assert(width * row == row * width) by (nonlinear_arith);
    assert(row < height) by (nonlinear_arith)
        requires
            row * width <= pixel,
            pixel < width * height,
            width > 0,
    ;
}

/// The compositor never derives alpha from colour nor moves it: whatever the
/// offset, every output pixel carries the alpha of the input pixel at the
/// same place.
pub proof fn lemma_laberated_keeps_alpha<T, A: Fn(Rgb) -> Lab<T>, B: Fn(Lab<T>) -> Rgb>(
    to_lab: A,
    to_rgb: B,
    input: Seq<u8>,
    width: int,
    height: int,
    offset: int,
    output: Seq<u8>,
)
    requires
        0 <= width,
        0 <= height,
        has_dimensions(input, width, height),
        laberated(to_lab, to_rgb, input, width, height, offset, output),
    ensures
        same_alpha(input, output),
{
    let colors = choose|colors: Seq<Lab<T>>| #[trigger]
        converted(to_lab, input, colors) && resynthesized(
            to_rgb,
            colors,
            alphas_of(input),
            width,
            height,
            offset,
            output,
        );
    assert forall|pixel: int| 0 <= pixel < pixel_count(input) implies #[trigger] alpha_at(
        output,
        pixel,
    ) == alpha_at(input, pixel) by {
        lemma_pixel_coordinates(width, height, pixel);
        assert(resynthesized_pixel(
            to_rgb,
            colors,
            alphas_of(input),
            width,
            height,
            offset,
            output,
            pixel % width,
            pixel / width,
        ));
    }
}

/// With offset zero the compositor moves nothing: the output is the input
/// taken through LAB and back, pixel by pixel.
pub proof fn lemma_zero_offset_is_round_trip<T, A: Fn(Rgb) -> Lab<T>, B: Fn(Lab<T>) -> Rgb>(
    to_lab: A,
    to_rgb: B,
    input: Seq<u8>,
    width: int,
    height: int,
    output: Seq<u8>,
)
    requires
        0 <= width,
        0 <= height,
        has_dimensions(input, width, height),
        laberated(to_lab, to_rgb, input, width, height, 0, output),
    ensures
        round_tripped(to_lab, to_rgb, input, output),
{
    lemma_laberated_keeps_alpha(to_lab, to_rgb, input, width, height, 0, output);
    let colors = choose|colors: Seq<Lab<T>>| #[trigger]
        converted(to_lab, input, colors) && resynthesized(
            to_rgb,
            colors,
            alphas_of(input),
            width,
            height,
            0,
            output,
        );
    assert forall|pixel: int| 0 <= pixel < pixel_count(input) implies to_rgb.ensures(
        (#[trigger] colors[pixel],),
        color_at(output, pixel),
    ) by {
        let x = pixel % width;
        let y = pixel / width;
        lemma_pixel_coordinates(width, height, pixel);
        lemma_zero_offset_samples_self(width, height, x, y);
        assert(resynthesized_pixel(
            to_rgb,
            colors,
            alphas_of(input),
            width,
            height,
            0,
            output,
            x,
            y,
        ));
        assert(sample(colors, width, height, 0, x, y) == colors[pixel]);
    }
}

/// An offset at least as large as the image, downwards and to the right,
/// smears the edges over the whole image: every pixel takes its lightness
/// from the bottom of its own column, its `a` from the top right corner and
/// its `b` from the top left corner.
pub proof fn lemma_large_positive_offset_replicates_edges<T>(
    colors: Seq<Lab<T>>,
    width: int,
    height: int,
    offset: int,
    x: int,
    y: int,
)
    requires
        0 <= x < width,
        0 <= y < height,
        offset >= width - 1,
        offset >= height - 1,
    ensures
        sample(colors, width, height, offset, x, y) == (Lab {
            l: colors[pixel_index(width, x, height - 1)].l,
            a: colors[pixel_index(width, width - 1, 0)].a,
            b: colors[pixel_index(width, 0, 0)].b,
        }),
{
    lemma_large_positive_offset_samples_edges(width, height, offset, x, y);
}

/// An offset at least as large as the image, upwards and to the left, smears
/// the opposite edges: every pixel takes its lightness from the top of its
/// own column, its `a` from the bottom left corner and its `b` from the
/// bottom right corner.
pub proof fn lemma_large_negative_offset_replicates_edges<T>(
    colors: Seq<Lab<T>>,
    width: int,
    height: int,
    offset: int,
    x: int,
    y: int,
)
    requires
        0 <= x < width,
        0 <= y < height,
        offset <= 1 - width,
        offset <= 1 - height,
    ensures
        sample(colors, width, height, offset, x, y) == (Lab {
            l: colors[pixel_index(width, x, 0)].l,
            a: colors[pixel_index(width, 0, height - 1)].a,
            b: colors[pixel_index(width, width - 1, height - 1)].b,
        }),
{
    lemma_large_negative_offset_samples_edges(width, height, offset, x, y);
}

/// The channel offset effect. The image is taken apart into a lightness
/// plane, two chroma planes and an alpha plane, every pixel converted to LAB
/// once. Each output pixel at `(x, y)` then takes its lightness from `offset`
/// rows further down, its `a` from `offset` columns to the right and `offset`
/// rows up, its `b` from `offset` columns to the left and `offset` rows up,
/// each source clamped to the image, and its alpha from `(x, y)` itself. The
/// three are converted back together. The input is not changed.
///
/// A buffer that does not hold exactly `width * height` pixels is refused
/// before any pixel is converted: as malformed where it ends inside a pixel,
/// as a mismatch of dimensions otherwise.
pub fn laberation<T: Copy, A: Fn(Rgb) -> Lab<T>, B: Fn(Lab<T>) -> Rgb>(
    image_data: &[u8],
    width: u32,
    height: u32,
    offset: i32,
    to_lab: A,
    to_rgb: B,
) -> (result: Result<Vec<u8>, TransformError>)
    requires
        forall|color: Rgb| to_lab.requires((color,)),
        forall|color: Lab<T>| to_rgb.requires((color,)),
    ensures
        match result {
            Ok(output) => {
                &&& has_dimensions(image_data@, width as int, height as int)
                &&& laberated(
                    to_lab,
                    to_rgb,
                    image_data@,
                    width as int,
                    height as int,
                    offset as int,
                    output@,
                )
                &&& same_alpha(image_data@, output@)
            },
            Err(error) => {
                &&& !has_dimensions(image_data@, width as int, height as int)
                &&& error == dimension_error(image_data@)
            },
        },
{
    let planes: ChannelPlanes<T> = ChannelPlanes::decompose(image_data, width, height, &to_lab)?;
    let output: Vec<u8> = planes.resynthesize(offset, &to_rgb);
    proof {
        assert(converted(to_lab, image_data@, planes.colors()));
        lemma_laberated_keeps_alpha(
            to_lab,
            to_rgb,
            image_data@,
            width as int,
            height as int,
            offset as int,
            output@,
        );
    }
    Ok(output)
}

} // verus!
