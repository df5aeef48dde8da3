use vstd::prelude::*;

verus! {

/// The row-major index of the pixel in column `x` of row `y`.
pub open spec fn pixel_index(width: int, x: int, y: int) -> int {
    y * width + x
}

/// The coordinate nearest to `value` on an axis of `extent` cells, which are
/// numbered from 0 to `extent - 1`: a coordinate off the axis is moved to the
/// end it left by.
pub open spec fn clamp_coordinate(value: int, extent: int) -> int
    recommends
        extent > 0,
{
    if value < 0 {
        0
    } else if value > extent - 1 {
        extent - 1
    } else {
        value
    }
}

/// Where the output pixel at `(x, y)` takes its lightness from: the same
/// column, `offset` rows further down.
pub open spec fn lightness_source(width: int, height: int, offset: int, x: int, y: int) -> int {
    pixel_index(width, x, clamp_coordinate(y + offset, height))
}

/// Where the output pixel at `(x, y)` takes its `a` component from: `offset`
/// columns to the right and `offset` rows up.
pub open spec fn a_source(width: int, height: int, offset: int, x: int, y: int) -> int {
    pixel_index(width, clamp_coordinate(x + offset, width), clamp_coordinate(y - offset, height))
}

/// Where the output pixel at `(x, y)` takes its `b` component from: `offset`
/// columns to the left and `offset` rows up.
pub open spec fn b_source(width: int, height: int, offset: int, x: int, y: int) -> int {
    pixel_index(width, clamp_coordinate(x - offset, width), clamp_coordinate(y - offset, height))
}

/// A pixel inside the image has an index inside the image.
pub proof fn lemma_pixel_index_in_range(width: int, height: int, x: int, y: int)
    requires
        0 <= x < width,
        0 <= y < height,
    ensures
        0 <= pixel_index(width, x, y) < width * height,
{
    assert(0 <= y * width && y * width + width <= height * width) by (nonlinear_arith)
        requires
            0 <= y < height,
            0 < width,
    ;
    assert(height * width == width * height) by (nonlinear_arith);
}

/// Row-major order: a pixel comes before another exactly as its row comes
/// first or, within one row, its column.
pub proof fn lemma_pixel_index_order(width: int, x1: int, y1: int, x2: int, y2: int)
    requires
        0 <= x1 < width,
        0 <= x2 < width,
        0 <= y1,
        0 <= y2,
    ensures
        pixel_index(width, x1, y1) < pixel_index(width, x2, y2) <==> (y1 < y2 || (y1 == y2 && x1
            < x2)),
{
    if y1 < y2 {
        assert(y1 * width + width <= y2 * width) by (nonlinear_arith)
            requires
                y1 < y2,
                0 < width,
        ;
    } else if y2 < y1 {
        assert(y2 * width + width <= y1 * width) by (nonlinear_arith)
            requires
                y2 < y1,
                0 < width,
        ;
    }
}

/// Clamping keeps a coordinate on its axis, whatever the offset.
pub proof fn lemma_clamp_in_range(value: int, extent: int)
    requires
        extent > 0,
    ensures
        0 <= clamp_coordinate(value, extent) < extent,
{
}

/// No offset, however large, leads a sample out of the image: each of the
/// three sources of a pixel inside the image is a pixel inside the image.
pub proof fn lemma_sources_in_range(width: int, height: int, offset: int, x: int, y: int)
    requires
        0 <= x < width,
        0 <= y < height,
    ensures
        0 <= lightness_source(width, height, offset, x, y) < width * height,
        0 <= a_source(width, height, offset, x, y) < width * height,
        0 <= b_source(width, height, offset, x, y) < width * height,
{
    lemma_pixel_index_in_range(width, height, x, clamp_coordinate(y + offset, height));
    lemma_pixel_index_in_range(
        width,
        height,
        clamp_coordinate(x + offset, width),
        clamp_coordinate(y - offset, height),
    );
    lemma_pixel_index_in_range(
        width,
        height,
        clamp_coordinate(x - offset, width),
        clamp_coordinate(y - offset, height),
    );
}

/// With offset zero every pixel samples all three channels from itself.
pub proof fn lemma_zero_offset_samples_self(width: int, height: int, x: int, y: int)
    requires
        0 <= x < width,
        0 <= y < height,
    ensures
        lightness_source(width, height, 0, x, y) == pixel_index(width, x, y),
        a_source(width, height, 0, x, y) == pixel_index(width, x, y),
        b_source(width, height, 0, x, y) == pixel_index(width, x, y),
{
}

/// An offset that reaches across the whole image downwards and to the right
/// replicates the edges: lightness comes from the bottom row, `a` from the
/// top right corner and `b` from the top left corner.
pub proof fn lemma_large_positive_offset_samples_edges(
    width: int,
    height: int,
    offset: int,
    x: int,
    y: int,
)
    requires
        0 <= x < width,
        0 <= y < height,
        offset >= width - 1,
        offset >= height - 1,
    ensures
        lightness_source(width, height, offset, x, y) == pixel_index(width, x, height - 1),
        a_source(width, height, offset, x, y) == pixel_index(width, width - 1, 0),
        b_source(width, height, offset, x, y) == pixel_index(width, 0, 0),
{
}

/// An offset that reaches across the whole image upwards and to the left
/// replicates the opposite edges: lightness comes from the top row, `a` from
/// the bottom left corner and `b` from the bottom right corner.
pub proof fn lemma_large_negative_offset_samples_edges(
    width: int,
    height: int,
    offset: int,
    x: int,
    y: int,
)
    requires
        0 <= x < width,
        0 <= y < height,
        offset <= 1 - width,
        offset <= 1 - height,
    ensures
        lightness_source(width, height, offset, x, y) == pixel_index(width, x, 0),
        a_source(width, height, offset, x, y) == pixel_index(width, 0, height - 1),
        b_source(width, height, offset, x, y) == pixel_index(width, width - 1, height - 1),
{
}

/// Moves a coordinate `steps` cells towards the far end of its axis, stopping
/// at the last cell.
fn step_up(coordinate: usize, steps: usize, extent: usize) -> (moved: usize)
    requires
        extent > 0,
    ensures
        moved == clamp_coordinate(coordinate + steps, extent as int),
{
    let last: usize = extent - 1;
    if coordinate >= last {
        last
    } else if steps >= last - coordinate {
        last
    } else {
        coordinate + steps
    }
}

/// Moves a coordinate `steps` cells towards the start of its axis, stopping
/// at cell 0.
fn step_down(coordinate: usize, steps: usize, extent: usize) -> (moved: usize)
    requires
        extent > 0,
    ensures
        moved == clamp_coordinate(coordinate - steps, extent as int),
{
    let last: usize = extent - 1;
    if steps >= coordinate {
        0
    } else if coordinate - steps > last {
        last
    } else {
        coordinate - steps
    }
}

/// The size of an offset, without its direction.
fn magnitude(offset: i32) -> (steps: usize)
    ensures
        offset >= 0 ==> steps == offset,
        offset < 0 ==> steps == -offset,
{
    if offset >= 0 {
        offset as usize
    } else {
        let wide: i64 = offset as i64;
        (-wide) as usize
    }
}

/// The coordinate `offset` cells after `coordinate`, clamped to the axis.
pub fn advance(coordinate: usize, offset: i32, extent: usize) -> (moved: usize)
    requires
        extent > 0,
    ensures
        moved == clamp_coordinate(coordinate + offset, extent as int),
{
    if offset >= 0 {
        step_up(coordinate, magnitude(offset), extent)
    } else {
        step_down(coordinate, magnitude(offset), extent)
    }
}

/// The coordinate `offset` cells before `coordinate`, clamped to the axis.
pub fn retreat(coordinate: usize, offset: i32, extent: usize) -> (moved: usize)
    requires
        extent > 0,
    ensures
        moved == clamp_coordinate(coordinate - offset, extent as int),
{
    if offset >= 0 {
        step_down(coordinate, magnitude(offset), extent)
    } else {
        step_up(coordinate, magnitude(offset), extent)
    }
}

/// The row-major index of a pixel inside an image that fits in memory.
pub fn index_of(width: usize, height: usize, x: usize, y: usize) -> (index: usize)
    requires
        x < width,
        y < height,
        width * height <= usize::MAX,
    ensures
        index == pixel_index(width as int, x as int, y as int),
        index < width * height,
{
    proof {
        lemma_pixel_index_in_range(width as int, height as int, x as int, y as int);
        assert(0 <= y * width) by (nonlinear_arith)
            requires
                0 <= y,
                0 <= width,
        ;
    }
    y * width + x
}

/// The index of the pixel whose lightness the output pixel at `(x, y)` takes.
pub fn lightness_index(width: usize, height: usize, offset: i32, x: usize, y: usize) -> (index:
    usize)
    requires
        x < width,
        y < height,
        width * height <= usize::MAX,
    ensures
        index == lightness_source(width as int, height as int, offset as int, x as int, y as int),
        index < width * height,
{
    index_of(width, height, x, advance(y, offset, height))
}

/// The index of the pixel whose `a` component the output pixel at `(x, y)`
/// takes.
pub fn a_index(width: usize, height: usize, offset: i32, x: usize, y: usize) -> (index: usize)
    requires
        x < width,
        y < height,
        width * height <= usize::MAX,
    ensures
        index == a_source(width as int, height as int, offset as int, x as int, y as int),
        index < width * height,
{
    index_of(width, height, advance(x, offset, width), retreat(y, offset, height))
}

/// The index of the pixel whose `b` component the output pixel at `(x, y)`
/// takes.
pub fn b_index(width: usize, height: usize, offset: i32, x: usize, y: usize) -> (index: usize)
    requires
        x < width,
        y < height,
        width * height <= usize::MAX,
    ensures
        index == b_source(width as int, height as int, offset as int, x as int, y as int),
        index < width * height,
{
    index_of(width, height, retreat(x, offset, width), retreat(y, offset, height))
}

} // verus!
