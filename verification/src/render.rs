//! Filling the intensity raster.
//!
//! Every pixel `(row, col)` of the grid is carried to a plane point and
//! classified by the escape evaluator; the resulting intensity byte is
//! written to the row-major offset `row * columns + col`. The grid column
//! is mapped over the window's imaginary corners using the row count as
//! the source interval, and the grid row over the real corners using the
//! column count, exactly as the rendered output defines it.

use crate::escape::{escape_time, point_z_value, Complex, COORD_LIMIT};
use crate::fixed::{iabs, lemma_signed_mul, lemma_tdiv_bound, Fx, SCALE};
use crate::mapper::{affine, affine_spec};
use vstd::arithmetic::div_mod::{
    lemma_div_is_ordered, lemma_div_is_ordered_by_denominator, lemma_fundamental_div_mod,
    lemma_mod_division_less_than_divisor, lemma_multiply_divide_lt,
};
use vstd::arithmetic::mul::lemma_mul_upper_bound;
use vstd::prelude::*;

verus! {

/// Iteration bound of the escape test for every rendered pixel.
pub const ESCAPE_LIMIT: usize = 255;

/// Largest grid extent (rows or columns) the rasterizer accepts (2^16).
pub const DIM_LIMIT: usize = 65536;

/// Largest magnitude a window corner coordinate may have (2^32
/// fixed-point units, 256 plane units): keeps every mapped pixel within
/// the evaluator's working range.
pub const WINDOW_LIMIT: u64 = 4294967296;

/// The plane coordinate a pixel index is carried to on one output axis:
/// `idx` is mapped from the source interval `[0, n]` (in plane units)
/// onto `[out_floor, out_ceil]`.
pub open spec fn axis_point(idx: int, n: int, out_floor: int, out_ceil: int) -> int {
    affine_spec(0, idx * SCALE, n * SCALE, out_floor, out_ceil)
}

/// The intensity byte of one pixel: 0 when the mapped point never escapes
/// within the iteration bound (it is taken to lie in the set), and
/// `255 - i` when it escapes at iteration `i`.
pub open spec fn pixel_at(
    bounds: (usize, usize),
    upper_left: Complex,
    lower_right: Complex,
    row: int,
    col: int,
) -> u8 {
    let pre = axis_point(col, bounds.0 as int, upper_left.im.value(), lower_right.im.value());
    let pim = axis_point(row, bounds.1 as int, upper_left.re.value(), lower_right.re.value());
    match escape_time(pre, pim, ESCAPE_LIMIT as nat) {
        None => 0u8,
        Some(i) => (255 - i) as u8,
    }
}

/// Carries one pixel index to its plane coordinate on one axis.
fn pixel_to_axis(idx: usize, n: usize, out_floor: Fx, out_ceil: Fx) -> (r: Fx)
    requires
        idx <= DIM_LIMIT,
        1 <= n <= DIM_LIMIT,
        out_floor.wf(),
        out_ceil.wf(),
        out_floor.mag <= WINDOW_LIMIT,
        out_ceil.mag <= WINDOW_LIMIT,
    ensures
        r.wf(),
        r.value() == axis_point(idx as int, n as int, out_floor.value(), out_ceil.value()),
        r.mag <= COORD_LIMIT,
{
    let floor_in = Fx::new(false, 0);
    let val = Fx::new(false, (idx as u64) * SCALE);
    let ceil_in = Fx::new(false, (n as u64) * SCALE);
    proof {
        let span = out_ceil.value() - out_floor.value();
        let num = (val.value() - floor_in.value()) * span;
        lemma_signed_mul(false, val.mag as int, span < 0, iabs(span));
        assert(iabs(num) == (val.mag as int) * iabs(span));
        assert(iabs(num) <= 9444732965739290427392int) by {
            lemma_mul_upper_bound(val.mag as int, 1099511627776, iabs(span), 8589934592);
        }
        lemma_div_is_ordered_by_denominator(iabs(num), SCALE as int, ceil_in.mag as int);
        lemma_div_is_ordered(iabs(num), 9444732965739290427392int, SCALE as int);
        assert(iabs(num) / (ceil_in.mag as int) <= 562949953421312);
        lemma_tdiv_bound(num, ceil_in.value(), iabs(num) / (ceil_in.mag as int));
        lemma_mul_upper_bound(
            val.mag + floor_in.mag,
            1099511627776,
            out_ceil.mag + out_floor.mag,
            8589934592,
        );
    }
    let r = affine(floor_in, val, ceil_in, out_floor, out_ceil);
    proof {
        assert(r.mag <= COORD_LIMIT);
    }
    r
}

/// A pixel strictly before `(row, col)` in row-major order has a strictly
/// smaller offset.
proof fn lemma_row_major_order(r: int, c: int, row: int, col: int, cols: int)
    by (nonlinear_arith)
    requires
        0 <= c < cols,
        0 <= col,
        0 <= r,
        r < row || (r == row && c < col),
    ensures
        r * cols + c < row * cols + col,
{
}

/// A row-major offset of an in-range pixel lies inside the buffer.
proof fn lemma_row_major_index(row: int, col: int, rows: int, cols: int)
    by (nonlinear_arith)
    requires
        0 <= row < rows,
        0 <= col < cols,
    ensures
        0 <= row * cols + col < rows * cols,
{
}

/// Fills the whole intensity buffer: after the call, the byte at offset
/// `row * columns + col` is exactly the pixel intensity of `(row, col)`,
/// for every pixel of the grid — every offset is written, and the result
/// depends on nothing but the grid bounds and the plane window.
pub fn render(
    pixels: &mut Vec<u8>,
    bounds: (usize, usize),
    upper_left: Complex,
    lower_right: Complex,
)
    requires
        old(pixels).len() == bounds.0 * bounds.1,
        1 <= bounds.0 <= DIM_LIMIT,
        1 <= bounds.1 <= DIM_LIMIT,
        upper_left.re.wf(),
        upper_left.im.wf(),
        lower_right.re.wf(),
        lower_right.im.wf(),
        upper_left.re.mag <= WINDOW_LIMIT,
        upper_left.im.mag <= WINDOW_LIMIT,
        lower_right.re.mag <= WINDOW_LIMIT,
        lower_right.im.mag <= WINDOW_LIMIT,
    ensures
        final(pixels).len() == old(pixels).len(),
        forall|r: int, c: int|
            0 <= r < bounds.0 && 0 <= c < bounds.1 ==> final(pixels)@[r * bounds.1 + c]
                == #[trigger] pixel_at(bounds, upper_left, lower_right, r, c),
        forall|k: int|
            0 <= k < final(pixels).len() ==> #[trigger] final(pixels)@[k] == pixel_at(
                bounds,
                upper_left,
                lower_right,
                k / (bounds.1 as int),
                k % (bounds.1 as int),
            ),
{
    let mut row: usize = 0;
    while row < bounds.0
        invariant
            pixels.len() == bounds.0 * bounds.1,
            row <= bounds.0,
            1 <= bounds.0 <= DIM_LIMIT,
            1 <= bounds.1 <= DIM_LIMIT,
            upper_left.re.wf(),
            upper_left.im.wf(),
            lower_right.re.wf(),
            lower_right.im.wf(),
            upper_left.re.mag <= WINDOW_LIMIT,
            upper_left.im.mag <= WINDOW_LIMIT,
            lower_right.re.mag <= WINDOW_LIMIT,
            lower_right.im.mag <= WINDOW_LIMIT,
            forall|r: int, c: int|
                0 <= r < row && 0 <= c < bounds.1 ==> pixels@[r * bounds.1 + c]
                    == #[trigger] pixel_at(bounds, upper_left, lower_right, r, c),
        decreases bounds.0 - row,
    {
        let mut col: usize = 0;
        while col < bounds.1
            invariant
                pixels.len() == bounds.0 * bounds.1,
                row < bounds.0,
                col <= bounds.1,
                1 <= bounds.0 <= DIM_LIMIT,
                1 <= bounds.1 <= DIM_LIMIT,
                upper_left.re.wf(),
                upper_left.im.wf(),
                lower_right.re.wf(),
                lower_right.im.wf(),
                upper_left.re.mag <= WINDOW_LIMIT,
                upper_left.im.mag <= WINDOW_LIMIT,
                lower_right.re.mag <= WINDOW_LIMIT,
                lower_right.im.mag <= WINDOW_LIMIT,
                forall|r: int, c: int|
                    0 <= r < row && 0 <= c < bounds.1 ==> pixels@[r * bounds.1 + c]
                        == #[trigger] pixel_at(bounds, upper_left, lower_right, r, c),
                forall|c: int|
                    0 <= c < col ==> pixels@[row * bounds.1 + c] == #[trigger] pixel_at(
                        bounds,
                        upper_left,
                        lower_right,
                        row as int,
                        c,
                    ),
            decreases bounds.1 - col,
        {
            let pre = pixel_to_axis(col, bounds.0, upper_left.im, lower_right.im);
            let pim = pixel_to_axis(row, bounds.1, upper_left.re, lower_right.re);
            let point = Complex { re: pre, im: pim };
            let v: u8 = match point_z_value(point, ESCAPE_LIMIT) {
                None => 0,
                Some(z) => (255 - z) as u8,
            };
            proof {
                lemma_row_major_index(row as int, col as int, bounds.0 as int, bounds.1 as int);
            }
            let offset: usize = row * bounds.1 + col;
            pixels.set(offset, v);
            proof {
                assert(v == pixel_at(bounds, upper_left, lower_right, row as int, col as int));
                assert forall|r: int, c: int|
                    0 <= r < row && 0 <= c < bounds.1 implies pixels@[r * bounds.1 + c]
                    == #[trigger] pixel_at(bounds, upper_left, lower_right, r, c) by {
                    lemma_row_major_order(r, c, row as int, col as int, bounds.1 as int);
                    lemma_row_major_index(r, c, bounds.0 as int, bounds.1 as int);
                }
                assert forall|c: int|
                    0 <= c < col + 1 implies pixels@[row * bounds.1 + c] == #[trigger] pixel_at(
                    bounds,
                    upper_left,
                    lower_right,
                    row as int,
                    c,
                ) by {
                    if c < col {
                        lemma_row_major_order(row as int, c, row as int, col as int, bounds.1 as int);
                    }
                    lemma_row_major_index(row as int, c, bounds.0 as int, bounds.1 as int);
                }
            }
            col = col + 1;
        }
        row = row + 1;
    }
    proof {
        assert forall|k: int| 0 <= k < pixels.len() implies #[trigger] pixels@[k] == pixel_at(
            bounds,
            upper_left,
            lower_right,
            k / (bounds.1 as int),
            k % (bounds.1 as int),
        ) by {
            let cols = bounds.1 as int;
            let r = k / cols;
            let c = k % cols;
            lemma_fundamental_div_mod(k, cols);
            lemma_mod_division_less_than_divisor(k, cols);
            lemma_multiply_divide_lt(k, cols, bounds.0 as int);
            assert(bounds.1 as int * bounds.0 as int == bounds.0 as int * bounds.1 as int)
                by (nonlinear_arith);
            vstd::arithmetic::div_mod::lemma_div_pos_is_pos(k, cols);
            assert(k == r * cols + c) by (nonlinear_arith)
                requires
                    k == cols * r + c,
            ;
            assert(pixels@[r * cols + c] == pixel_at(bounds, upper_left, lower_right, r, c));
        }
    }
}

/// Determinism of the rasterization: two buffers that both hold the
/// rendered image of the same grid bounds and plane window are identical,
/// byte for byte.
pub proof fn lemma_render_deterministic(
    bounds: (usize, usize),
    upper_left: Complex,
    lower_right: Complex,
    buf1: Seq<u8>,
    buf2: Seq<u8>,
)
    requires
        buf1.len() == bounds.0 * bounds.1,
        buf2.len() == bounds.0 * bounds.1,
        forall|k: int|
            0 <= k < buf1.len() ==> #[trigger] buf1[k] == pixel_at(
                bounds,
                upper_left,
                lower_right,
                k / (bounds.1 as int),
                k % (bounds.1 as int),
            ),
        forall|k: int|
            0 <= k < buf2.len() ==> #[trigger] buf2[k] == pixel_at(
                bounds,
                upper_left,
                lower_right,
                k / (bounds.1 as int),
                k % (bounds.1 as int),
            ),
    ensures
        buf1 == buf2,
{
    assert(buf1 =~= buf2);
}

} // verus!
