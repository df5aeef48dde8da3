use crate::buffer::{
    alpha_at, alphas_of, check_dimensions, color_at, converted, dimension_error, has_dimensions,
    is_pixel_buffer, pixel_count, read_alpha, read_color, write_pixel,
};
use crate::color::{Lab, Rgb};
use crate::error::TransformError;
use crate::sampling::{
    a_index, a_source, b_index, b_source, index_of, lemma_pixel_index_order, lightness_index,
    lightness_source, pixel_index,
};
use vstd::prelude::*;

verus! {

/// The LAB colour that the compositor puts together for the output pixel at
/// `(x, y)`: each component is taken from the plane of that component, at a
/// source of its own.
pub open spec fn sample<T>(
    colors: Seq<Lab<T>>,
    width: int,
    height: int,
    offset: int,
    x: int,
    y: int,
) -> Lab<T> {
    Lab {
        l: colors[lightness_source(width, height, offset, x, y)].l,
        a: colors[a_source(width, height, offset, x, y)].a,
        b: colors[b_source(width, height, offset, x, y)].b,
    }
}

/// What holds of the output pixel at `(x, y)`: its colour is what `to_rgb`
/// gave for the sampled LAB colour, and its alpha is that of the pixel at
/// `(x, y)` itself.
pub open spec fn resynthesized_pixel<T, B: Fn(Lab<T>) -> Rgb>(
    to_rgb: B,
    colors: Seq<Lab<T>>,
    alphas: Seq<u8>,
    width: int,
    height: int,
    offset: int,
    output: Seq<u8>,
    x: int,
    y: int,
) -> bool {
    &&& alpha_at(output, pixel_index(width, x, y)) == alphas[pixel_index(width, x, y)]
    &&& to_rgb.ensures(
        (sample(colors, width, height, offset, x, y),),
        color_at(output, pixel_index(width, x, y)),
    )
}

/// `output` is an image of the same dimensions as the planes, each of whose
/// pixels is resynthesized from them.
pub open spec fn resynthesized<T, B: Fn(Lab<T>) -> Rgb>(
    to_rgb: B,
    colors: Seq<Lab<T>>,
    alphas: Seq<u8>,
    width: int,
    height: int,
    offset: int,
    output: Seq<u8>,
) -> bool {
    &&& has_dimensions(output, width, height)
    &&& forall|x: int, y: int|
        0 <= x < width && 0 <= y < height ==> #[trigger] resynthesized_pixel(
            to_rgb,
            colors,
            alphas,
            width,
            height,
            offset,
            output,
            x,
            y,
        )
}

/// An image taken apart into four planes, one scalar per pixel in row-major
/// order: lightness, the two chroma components, and alpha. The planes are
/// filled once and only read afterwards.
pub struct ChannelPlanes<T> {
    lightness: Vec<T>,
    a: Vec<T>,
    b: Vec<T>,
    alpha: Vec<u8>,
    width: usize,
    height: usize,
}

impl<T> ChannelPlanes<T> {
    /// Each plane holds one value per pixel, and an image of these
    /// dimensions fits in a buffer.
    #[verifier::type_invariant]
    spec fn well_formed(&self) -> bool {
        &&& self.width * self.height * 4 <= usize::MAX
        &&& self.lightness@.len() == self.width * self.height
        &&& self.a@.len() == self.width * self.height
        &&& self.b@.len() == self.width * self.height
        &&& self.alpha@.len() == self.width * self.height
    }

    /// The width of the image, in pixels.
    pub closed spec fn width(&self) -> int {
        self.width as int
    }

    /// The height of the image, in pixels.
    pub closed spec fn height(&self) -> int {
        self.height as int
    }

    /// The LAB colour of each pixel: the three colour planes read together.
    pub closed spec fn colors(&self) -> Seq<Lab<T>> {
        Seq::new(
            self.lightness@.len(),
            |pixel: int| Lab { l: self.lightness@[pixel], a: self.a@[pixel], b: self.b@[pixel] },
        )
    }

    /// The alpha plane.
    pub closed spec fn alphas(&self) -> Seq<u8> {
        self.alpha@
    }
}

impl<T: Copy> ChannelPlanes<T> {
    /// Takes an image apart: every pixel is converted once, in row-major
    /// order, and each component stored in its plane. A buffer that does not
    /// hold exactly `width * height` pixels is refused before any pixel is
    /// converted.
    pub fn decompose<A: Fn(Rgb) -> Lab<T>>(
        image_data: &[u8],
        width: u32,
        height: u32,
        to_lab: &A,
    ) -> (result: Result<Self, TransformError>)
        requires
            forall|color: Rgb| to_lab.requires((color,)),
        ensures
            match result {
                Ok(planes) => {
                    &&& has_dimensions(image_data@, width as int, height as int)
                    &&& planes.width() == width
                    &&& planes.height() == height
                    &&& converted(*to_lab, image_data@, planes.colors())
                    &&& planes.alphas() == alphas_of(image_data@)
                },
                Err(error) => {
                    &&& !has_dimensions(image_data@, width as int, height as int)
                    &&& error == dimension_error(image_data@)
                },
            },
    {
        let count: usize = check_dimensions(image_data, width, height)?;
        let mut lightness: Vec<T> = Vec::with_capacity(count);
        let mut a: Vec<T> = Vec::with_capacity(count);
        let mut b: Vec<T> = Vec::with_capacity(count);
        let mut alpha: Vec<u8> = Vec::with_capacity(count);
        let mut pixel: usize = 0;
        while pixel < count
            invariant
                pixel <= count,
                count == pixel_count(image_data@),
                is_pixel_buffer(image_data@),
                forall|color: Rgb| to_lab.requires((color,)),
                lightness@.len() == pixel,
                a@.len() == pixel,
                b@.len() == pixel,
                alpha@.len() == pixel,
                forall|done: int|
                    0 <= done < pixel ==> to_lab.ensures(
                        (color_at(image_data@, done),),
                        Lab { l: #[trigger] lightness@[done], a: a@[done], b: b@[done] },
                    ),
                forall|done: int|
                    0 <= done < pixel ==> #[trigger] alpha@[done] == alpha_at(image_data@, done),
            decreases count - pixel,
        {
            let color: Lab<T> = to_lab(read_color(image_data, pixel));
            lightness.push(color.l);
            a.push(color.a);
            b.push(color.b);
            alpha.push(read_alpha(image_data, pixel));
            pixel += 1;
        }
        assert(width * height * 4 == image_data.len());
        let planes = ChannelPlanes {
            lightness,
            a,
            b,
            alpha,
            width: width as usize,
            height: height as usize,
        };
        assert(planes.alphas() =~= alphas_of(image_data@));
        Ok(planes)
    }

    /// Puts an image together from the planes: for every pixel, row by row,
    /// each component is sampled at its own source, the three are converted
    /// back together, and the pixel's own alpha is put beside them.
    pub fn resynthesize<B: Fn(Lab<T>) -> Rgb>(&self, offset: i32, to_rgb: &B) -> (output: Vec<u8>)
        requires
            forall|color: Lab<T>| to_rgb.requires((color,)),
        ensures
            resynthesized(
                *to_rgb,
                self.colors(),
                self.alphas(),
                self.width(),
                self.height(),
                offset as int,
                output@,
            ),
    {
        proof {
            use_type_invariant(self);
        }
        let width: usize = self.width;
        let height: usize = self.height;
        let mut output: Vec<u8> = Vec::new();
        let mut y: usize = 0;
        while y < height
            invariant
                y <= height,
                width == self.width,
                height == self.height,
                self.well_formed(),
                forall|color: Lab<T>| to_rgb.requires((color,)),
                has_dimensions(output@, width as int, y as int),
                forall|x2: int, y2: int|
                    0 <= x2 < width && 0 <= y2 < y ==> #[trigger] resynthesized_pixel(
                        *to_rgb,
                        self.colors(),
                        self.alphas(),
                        width as int,
                        height as int,
                        offset as int,
                        output@,
                        x2,
                        y2,
                    ),
            decreases height - y,
        {
            let mut x: usize = 0;
            while x < width
                invariant
                    x <= width,
                    y < height,
                    width == self.width,
                    height == self.height,
                    self.well_formed(),
                    forall|color: Lab<T>| to_rgb.requires((color,)),
                    is_pixel_buffer(output@),
                    pixel_count(output@) == pixel_index(width as int, x as int, y as int),
                    forall|x2: int, y2: int|
                        0 <= x2 < width && (0 <= y2 < y || (y2 == y && x2 < x))
                            ==> #[trigger] resynthesized_pixel(
                            *to_rgb,
                            self.colors(),
                            self.alphas(),
                            width as int,
                            height as int,
                            offset as int,
                            output@,
                            x2,
                            y2,
                        ),
                decreases width - x,
            {
                let here: usize = index_of(width, height, x, y);
                let color = Lab {
                    l: self.lightness[lightness_index(width, height, offset, x, y)],
                    a: self.a[a_index(width, height, offset, x, y)],
                    b: self.b[b_index(width, height, offset, x, y)],
                };
                assert(color == sample(
                    self.colors(),
                    width as int,
                    height as int,
                    offset as int,
                    x as int,
                    y as int,
                ));
                let ghost before = output@;
                write_pixel(&mut output, to_rgb(color), self.alpha[here]);
                assert forall|x2: int, y2: int|
                    0 <= x2 < width && (0 <= y2 < y || (y2 == y && x2 < x + 1))
                    implies #[trigger] resynthesized_pixel(
                    *to_rgb,
                    self.colors(),
                    self.alphas(),
                    width as int,
                    height as int,
                    offset as int,
                    output@,
                    x2,
                    y2,
                ) by {
                    lemma_pixel_index_order(width as int, x2, y2, x as int, y as int);
                    if !(y2 == y && x2 == x) {
                        assert(resynthesized_pixel(
                            *to_rgb,
                            self.colors(),
                            self.alphas(),
                            width as int,
                            height as int,
                            offset as int,
                            before,
                            x2,
                            y2,
                        ));
                    }
                }
                x += 1;
            }
            assert(pixel_index(width as int, width as int, y as int) == width * (y + 1))
                by (nonlinear_arith);
            y += 1;
        }
        output
    }
}

} // verus!
