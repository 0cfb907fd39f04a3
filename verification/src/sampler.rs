use vstd::prelude::*;
use vstd::arithmetic::div_mod::{
    lemma_div_is_ordered,
    lemma_fundamental_div_mod,
    lemma_fundamental_div_mod_converse,
    lemma_multiply_divide_lt,
};
use vstd::slice::slice_to_vec;
use crate::config::{Quality, fraction_of, max_dimension_of};
use crate::types::RgbColor;

verus! {

/// The grid that sampling lays over an image has this many cells a side.
pub const GRID_N: usize = 32;

/// Offset of the first byte of pixel (x, y) in a row-major RGBA buffer.
pub open spec fn pixel_offset(width: int, x: int, y: int) -> int {
    (y * width + x) * 4
}

/// The colour channels of pixel (x, y).
pub open spec fn pixel_rgb(pixels: Seq<u8>, width: int, x: int, y: int) -> RgbColor {
    let i = pixel_offset(width, x, y);
    RgbColor { r: pixels[i], g: pixels[i + 1], b: pixels[i + 2] }
}

/// A pixel counts when its alpha is at least 128.
pub open spec fn is_opaque(pixels: Seq<u8>, width: int, x: int, y: int) -> bool {
    pixels[pixel_offset(width, x, y) + 3] >= 128
}

/// The opaque pixels of row `y` between columns `x0` (included) and `x1`
/// (excluded), left to right.
pub open spec fn row_opaque(pixels: Seq<u8>, width: int, y: int, x0: int, x1: int) -> Seq<
    RgbColor,
>
    decreases x1 - x0,
{
    if x1 <= x0 {
        Seq::empty()
    } else {
        row_opaque(pixels, width, y, x0, x1 - 1) + if is_opaque(pixels, width, x1 - 1, y) {
            seq![pixel_rgb(pixels, width, x1 - 1, y)]
        } else {
            Seq::empty()
        }
    }
}

/// The opaque pixels of the rectangle [x0, x1) x [y0, y1), row by row.
pub open spec fn cell_opaque(
    pixels: Seq<u8>,
    width: int,
    x0: int,
    x1: int,
    y0: int,
    y1: int,
) -> Seq<RgbColor>
    decreases y1 - y0,
{
    if y1 <= y0 {
        Seq::empty()
    } else {
        cell_opaque(pixels, width, x0, x1, y0, y1 - 1) + row_opaque(pixels, width, y1 - 1, x0, x1)
    }
}

/// The items of `s` among its first `n` whose index is a multiple of `step`.
pub open spec fn every_nth(s: Seq<RgbColor>, step: int, n: int) -> Seq<RgbColor>
    decreases n,
{
    if n <= 0 {
        Seq::empty()
    } else {
        every_nth(s, step, n - 1) + if (n - 1) % step == 0 {
            seq![s[n - 1]]
        } else {
            Seq::empty()
        }
    }
}

/// How many pixels a cell of `len` pixels should give: the fraction
/// num/den of them, rounded up, and at least one.
pub open spec fn cell_take(len: int, num: int, den: int) -> int {
    let t = (len * num + den - 1) / den;
    if t < 1 {
        1
    } else {
        t
    }
}

/// The stride at which a cell of `len` pixels is sampled.
pub open spec fn cell_step(len: int, num: int, den: int) -> int {
    let s = len / cell_take(len, num, den);
    if s < 1 {
        1
    } else {
        s
    }
}

/// The pixels kept of one cell: every `cell_step`-th, from the first.
pub open spec fn sample_cell(cell: Seq<RgbColor>, num: int, den: int) -> Seq<RgbColor> {
    if cell.len() == 0 {
        Seq::empty()
    } else {
        every_nth(cell, cell_step(cell.len() as int, num, den), cell.len() as int)
    }
}

/// Where grid line `g` of 32 falls on a side of `n` pixels.
pub open spec fn grid_line(g: int, n: int) -> int {
    g * n / 32
}

/// The opaque pixels of grid cell `c` (row `c / 32`, column `c % 32`).
pub open spec fn grid_cell(pixels: Seq<u8>, width: int, height: int, c: int) -> Seq<RgbColor> {
    let gy = c / 32;
    let gx = c % 32;
    cell_opaque(
        pixels,
        width,
        grid_line(gx, width),
        grid_line(gx + 1, width),
        grid_line(gy, height),
        grid_line(gy + 1, height),
    )
}

/// The samples of the first `c` grid cells, in row-major cell order.
pub open spec fn grid_sample(
    pixels: Seq<u8>,
    width: int,
    height: int,
    num: int,
    den: int,
    c: int,
) -> Seq<RgbColor>
    decreases c,
{
    if c <= 0 {
        Seq::empty()
    } else {
        grid_sample(pixels, width, height, num, den, c - 1) + sample_cell(
            grid_cell(pixels, width, height, c - 1),
            num,
            den,
        )
    }
}

/// Stratified sampling: each of the 32 x 32 grid cells gives the fraction
/// num/den of its opaque pixels, evenly spaced.
pub open spec fn stratified(pixels: Seq<u8>, width: int, height: int, num: int, den: int) -> Seq<
    RgbColor,
> {
    grid_sample(pixels, width, height, num, den, 1024)
}

proof fn lemma_pixel_in_bounds(width: int, height: int, x: int, y: int)
    requires
        0 <= x < width,
        0 <= y < height,
    ensures
        0 <= y * width,
        0 <= pixel_offset(width, x, y),
        pixel_offset(width, x, y) + 4 <= 4 * width * height,
        pixel_offset(width, x, y) + 4 <= 4 * width * (y + 1),
{
    assert(0 <= y * width && (y * width + x) * 4 + 4 <= 4 * width * (y + 1) && 4 * width * (y
        + 1) <= 4 * width * height) by (nonlinear_arith)
        requires
            0 <= x < width,
            0 <= y < height,
    ;
}

/// Collects the opaque pixels of the rectangle [x0, x1) x [y0, y1).
fn collect_cell(pixels: &[u8], width: usize, x0: usize, x1: usize, y0: usize, y1: usize) -> (out:
    Vec<RgbColor>)
    requires
        x0 <= x1 <= width <= 4096,
        y0 <= y1 <= 4096,
        4 * width * y1 <= pixels@.len(),
    ensures
        out@ == cell_opaque(pixels@, width as int, x0 as int, x1 as int, y0 as int, y1 as int),
{
    let len = pixels.len();
    let mut out: Vec<RgbColor> = Vec::new();
    let mut y = y0;
    while y < y1
        invariant
            x0 <= x1 <= width <= 4096,
            y0 <= y <= y1 <= 4096,
            4 * width * y1 <= pixels@.len(),
            len == pixels@.len(),
            out@ == cell_opaque(pixels@, width as int, x0 as int, x1 as int, y0 as int, y as int),
        decreases y1 - y,
    {
        let ghost before = out@;
        let mut x = x0;
        while x < x1
            invariant
                x0 <= x <= x1 <= width <= 4096,
                y0 <= y < y1 <= 4096,
                4 * width * y1 <= pixels@.len(),
                len == pixels@.len(),
                out@ == before + row_opaque(pixels@, width as int, y as int, x0 as int, x as int),
            decreases x1 - x,
        {
            proof {
                lemma_pixel_in_bounds(width as int, y1 as int, x as int, y as int);
            }
            let idx = (y * width + x) * 4;
            let ghost row = row_opaque(pixels@, width as int, y as int, x0 as int, x as int);
            if pixels[idx + 3] >= 128 {
                out.push(RgbColor { r: pixels[idx], g: pixels[idx + 1], b: pixels[idx + 2] });
                assert(out@ =~= before + row_opaque(
                    pixels@,
                    width as int,
                    y as int,
                    x0 as int,
                    x + 1,
                ));
            } else {
                assert(out@ =~= before + row_opaque(
                    pixels@,
                    width as int,
                    y as int,
                    x0 as int,
                    x + 1,
                ));
            }
            x += 1;
        }
        y += 1;
    }
    out
}

proof fn lemma_row_len(pixels: Seq<u8>, width: int, y: int, x0: int, x1: int)
    requires
        x0 <= x1,
    ensures
        row_opaque(pixels, width, y, x0, x1).len() <= x1 - x0,
    decreases x1 - x0,
{
    if x1 > x0 {
        lemma_row_len(pixels, width, y, x0, x1 - 1);
    }
}

proof fn lemma_cell_len(pixels: Seq<u8>, width: int, x0: int, x1: int, y0: int, y1: int)
    requires
        x0 <= x1,
        y0 <= y1,
    ensures
        cell_opaque(pixels, width, x0, x1, y0, y1).len() <= (y1 - y0) * (x1 - x0),
    decreases y1 - y0,
{
    if y1 > y0 {
        lemma_cell_len(pixels, width, x0, x1, y0, y1 - 1);
        lemma_row_len(pixels, width, y1 - 1, x0, x1);
        assert((y1 - 1 - y0) * (x1 - x0) + (x1 - x0) == (y1 - y0) * (x1 - x0)) by (nonlinear_arith);
    }
}

proof fn lemma_grid_lines(g: int, n: int)
    requires
        0 <= g < 32,
        0 <= n,
    ensures
        0 <= grid_line(g, n) <= grid_line(g + 1, n) <= n,
{
    assert(0 <= g * n && g * n <= (g + 1) * n && (g + 1) * n <= 32 * n) by (nonlinear_arith)
        requires
            0 <= g < 32,
            0 <= n,
    ;
    lemma_div_is_ordered(0, g * n, 32);
    lemma_div_is_ordered(g * n, (g + 1) * n, 32);
    lemma_div_is_ordered((g + 1) * n, 32 * n, 32);
}

/// Samples each cell of the 32 x 32 grid at the fraction num/den.
fn stratified_sample(pixels: &[u8], width: u32, height: u32, fraction: (u32, u32)) -> (result:
    Vec<RgbColor>)
    requires
        width <= 4096,
        height <= 4096,
        4 * width * height <= pixels@.len(),
        1 <= fraction.0 <= 4,
        1 <= fraction.1 <= 4,
    ensures
        result@ == stratified(
            pixels@,
            width as int,
            height as int,
            fraction.0 as int,
            fraction.1 as int,
        ),
{
    let w = width as usize;
    let h = height as usize;
    let num = fraction.0 as usize;
    let den = fraction.1 as usize;
    let ghost p = pixels@;
    let mut result: Vec<RgbColor> = Vec::new();
    let mut gy: usize = 0;
    while gy < GRID_N
        invariant
            gy <= 32,
            w <= 4096,
            h <= 4096,
            4 * w * h <= pixels@.len(),
            1 <= num <= 4,
            1 <= den <= 4,
            p == pixels@,
            result@ == grid_sample(p, w as int, h as int, num as int, den as int, gy * 32),
        decreases 32 - gy,
    {
        let mut gx: usize = 0;
        while gx < GRID_N
            invariant
                gx <= 32,
                gy < 32,
                w <= 4096,
                h <= 4096,
                4 * w * h <= pixels@.len(),
                1 <= num <= 4,
                1 <= den <= 4,
                p == pixels@,
                result@ == grid_sample(p, w as int, h as int, num as int, den as int, gy * 32 + gx),
            decreases 32 - gx,
        {
            assert((gx + 1) * w <= 33 * 4096 && gx * w <= (gx + 1) * w && (gy + 1) * h <= 33 * 4096
                && gy * h <= (gy + 1) * h) by (nonlinear_arith)
                requires
                    gx <= 32,
                    gy < 32,
                    w <= 4096,
                    h <= 4096,
            ;
            let x0 = gx * w / GRID_N;
            let x1 = (gx + 1) * w / GRID_N;
            let y0 = gy * h / GRID_N;
            let y1 = (gy + 1) * h / GRID_N;
            proof {
                lemma_grid_lines(gx as int, w as int);
                lemma_grid_lines(gy as int, h as int);
                assert(4 * w * y1 <= 4 * w * h) by (nonlinear_arith)
                    requires
                        y1 <= h,
                ;
                lemma_fundamental_div_mod_converse((gy * 32 + gx) as int, 32, gy as int, gx as int);
            }
            let cell = collect_cell(pixels, w, x0, x1, y0, y1);
            let ghost c = (gy * 32 + gx) as int;
            assert(cell@ == grid_cell(p, w as int, h as int, c));
            let n = cell.len();
            let ghost before = result@;
            if n > 0 {
                proof {
                    lemma_cell_len(p, w as int, x0 as int, x1 as int, y0 as int, y1 as int);
                    assert((y1 - y0) * (x1 - x0) <= 4096 * 4096) by (nonlinear_arith)
                        requires
                            0 <= y1 - y0 <= 4096,
                            0 <= x1 - x0 <= 4096,
                    ;
                }
                assert(n * num <= 4 * 4096 * 4096) by (nonlinear_arith)
                    requires
                        n <= 4096 * 4096,
                        num <= 4,
                ;
                let take_raw = (n * num + den - 1) / den;
                let take = if take_raw < 1 {
                    1
                } else {
                    take_raw
                };
                let step_raw = n / take;
                let step = if step_raw < 1 {
                    1
                } else {
                    step_raw
                };
                assert(step as int == cell_step(n as int, num as int, den as int));
                let mut i: usize = 0;
                while i < n
                    invariant
                        i <= n,
                        n == cell@.len(),
                        step >= 1,
                        result@ == before + every_nth(cell@, step as int, i as int),
                    decreases n - i,
                {
                    if i % step == 0 {
                        result.push(cell[i]);
                    }
                    assert(result@ =~= before + every_nth(cell@, step as int, i + 1));
                    i += 1;
                }
            } else {
                assert(result@ =~= before + sample_cell(cell@, num as int, den as int));
            }
            assert(result@ =~= grid_sample(p, w as int, h as int, num as int, den as int, c + 1));
            gx += 1;
        }
        gy += 1;
    }
    result
}

/// An image is scaled down when either side exceeds the cap.
pub open spec fn needs_downsample(width: int, height: int, max_dim: int) -> bool {
    width > max_dim || height > max_dim
}

/// The longer side of an image.
pub open spec fn longest_side(width: int, height: int) -> int {
    if width >= height {
        width
    } else {
        height
    }
}

/// A side of `n` pixels scaled by max_dim / longest, rounded to the nearest
/// pixel (halves up), and at least one pixel.
pub open spec fn scaled_side(n: int, max_dim: int, longest: int) -> int {
    let s = (2 * n * max_dim + longest) / (2 * longest);
    if s < 1 {
        1
    } else {
        s
    }
}

/// The width of the image after scaling down.
pub open spec fn downsampled_width(width: int, height: int, max_dim: int) -> int {
    if needs_downsample(width, height, max_dim) {
        scaled_side(width, max_dim, longest_side(width, height))
    } else {
        width
    }
}

/// The height of the image after scaling down.
pub open spec fn downsampled_height(width: int, height: int, max_dim: int) -> int {
    if needs_downsample(width, height, max_dim) {
        scaled_side(height, max_dim, longest_side(width, height))
    } else {
        height
    }
}

/// The source row or column that a destination row or column `d` copies
/// (nearest neighbour): d * src / dst, rounded down. It is computed exactly,
/// in integers: where d * src / dst is a whole number, that row or column is
/// taken, where a computation of (d / dst) * src in 32-bit floats can fall
/// just short and take the one before (for a side of 154 scaled to 66,
/// destination row 39 takes source row 91, not 90).
pub open spec fn nearest_source(d: int, dst: int, src: int) -> int {
    d * src / dst
}

/// The RGBA buffer after scaling down by nearest neighbour; the buffer
/// itself when no side exceeds the cap.
pub open spec fn downsampled_pixels(pixels: Seq<u8>, width: int, height: int, max_dim: int) -> Seq<
    u8,
> {
    if needs_downsample(width, height, max_dim) {
        let dw = downsampled_width(width, height, max_dim);
        let dh = downsampled_height(width, height, max_dim);
        Seq::new(
            (dw * dh * 4) as nat,
            |i: int|
                pixels[pixel_offset(
                    width,
                    nearest_source((i / 4) % dw, dw, width),
                    nearest_source((i / 4) / dw, dh, height),
                ) + i % 4],
        )
    } else {
        pixels
    }
}

proof fn lemma_scaled_side_bounds(n: int, max_dim: int, longest: int)
    requires
        0 <= n <= longest,
        1 <= max_dim,
        1 <= longest,
    ensures
        1 <= scaled_side(n, max_dim, longest) <= max_dim,
{
    let a = 2 * n * max_dim + longest;
    assert(0 <= a && a < (2 * longest) * (max_dim + 1)) by (nonlinear_arith)
        requires
            0 <= n <= longest,
            1 <= max_dim,
            1 <= longest,
            a == 2 * n * max_dim + longest,
    ;
    lemma_multiply_divide_lt(a, 2 * longest, max_dim + 1);
}

proof fn lemma_scaled_side_shrinks(n: int, max_dim: int, longest: int)
    requires
        1 <= n <= longest,
        1 <= max_dim < longest,
    ensures
        scaled_side(n, max_dim, longest) <= n,
        scaled_side(longest, max_dim, longest) == max_dim,
{
    let a = 2 * n * max_dim + longest;
    assert(0 <= a && a < (2 * longest) * (n + 1)) by (nonlinear_arith)
        requires
            1 <= n <= longest,
            1 <= max_dim < longest,
            a == 2 * n * max_dim + longest,
    ;
    lemma_multiply_divide_lt(a, 2 * longest, n + 1);
    assert(2 * longest * max_dim + longest == (2 * longest) * max_dim + longest) by (nonlinear_arith);
    lemma_fundamental_div_mod_converse(
        2 * longest * max_dim + longest,
        2 * longest,
        max_dim,
        longest,
    );
}

proof fn lemma_nearest_source_bound(d: int, dst: int, src: int)
    requires
        0 <= d < dst,
        1 <= src,
    ensures
        0 <= nearest_source(d, dst, src) < src,
{
    assert(0 <= d * src && d * src < dst * src) by (nonlinear_arith)
        requires
            0 <= d < dst,
            1 <= src,
    ;
    lemma_div_is_ordered(0, d * src, dst);
    lemma_multiply_divide_lt(d * src, dst, src);
}

proof fn lemma_destination_index(dx: int, dy: int, dw: int, k: int)
    requires
        0 <= dx < dw,
        0 <= dy,
        0 <= k < 4,
    ensures
        ((dy * dw + dx) * 4 + k) / 4 == dy * dw + dx,
        ((dy * dw + dx) * 4 + k) % 4 == k,
        (dy * dw + dx) % dw == dx,
        (dy * dw + dx) / dw == dy,
{
    lemma_fundamental_div_mod_converse((dy * dw + dx) * 4 + k, 4, dy * dw + dx, k);
    lemma_fundamental_div_mod_converse(dy * dw + dx, dw, dy, dx);
}

/// How many pixels, in row-major order, scaling down reaches: up to the
/// last one it copies (the copy of the bottom-right destination pixel).
pub open spec fn source_reach(width: int, height: int, max_dim: int) -> int {
    let dw = downsampled_width(width, height, max_dim);
    let dh = downsampled_height(width, height, max_dim);
    nearest_source(dh - 1, dh, height) * width + nearest_source(dw - 1, dw, width) + 1
}

proof fn lemma_nearest_source_monotone(d1: int, d2: int, dst: int, src: int)
    requires
        0 <= d1 <= d2,
        1 <= dst,
        0 <= src,
    ensures
        nearest_source(d1, dst, src) <= nearest_source(d2, dst, src),
{
    assert(d1 * src <= d2 * src) by (nonlinear_arith)
        requires
            0 <= d1 <= d2,
            0 <= src,
    ;
    lemma_div_is_ordered(d1 * src, d2 * src, dst);
}

proof fn lemma_reach_within_image(width: int, height: int, max_dim: int)
    requires
        1 <= width,
        1 <= height,
        1 <= max_dim,
        needs_downsample(width, height, max_dim),
    ensures
        source_reach(width, height, max_dim) <= width * height,
{
    let longest = longest_side(width, height);
    lemma_scaled_side_bounds(width, max_dim, longest);
    lemma_scaled_side_bounds(height, max_dim, longest);
    let dw = downsampled_width(width, height, max_dim);
    let dh = downsampled_height(width, height, max_dim);
    lemma_nearest_source_bound(dw - 1, dw, width);
    lemma_nearest_source_bound(dh - 1, dh, height);
    let sx = nearest_source(dw - 1, dw, width);
    let sy = nearest_source(dh - 1, dh, height);
    assert(sy * width + sx + 1 <= width * height) by (nonlinear_arith)
        requires
            0 <= sx < width,
            0 <= sy < height,
    ;
}

/// Scaling down keeps the proportions of the image: the longer side
/// becomes the cap, each side is its length times cap / longer side,
/// rounded to the nearest pixel (at least one), and no side grows.
pub proof fn law_scaled_size(width: int, height: int, max_dim: int)
    requires
        1 <= width,
        1 <= height,
        1 <= max_dim,
        needs_downsample(width, height, max_dim),
    ensures
        ({
            let longest = if width >= height {
                width
            } else {
                height
            };
            let dw = downsampled_width(width, height, max_dim);
            let dh = downsampled_height(width, height, max_dim);
            &&& 1 <= dw <= width && dw <= max_dim
            &&& 1 <= dh <= height && dh <= max_dim
            &&& width >= height ==> dw == max_dim
            &&& height >= width ==> dh == max_dim
            &&& (dw == 1 || 2 * dw * longest <= 2 * width * max_dim + longest)
            &&& 2 * width * max_dim + longest < 2 * (dw + 1) * longest
            &&& (dh == 1 || 2 * dh * longest <= 2 * height * max_dim + longest)
            &&& 2 * height * max_dim + longest < 2 * (dh + 1) * longest
        }),
{
    let longest = if width >= height {
        width
    } else {
        height
    };
    lemma_scaled_side_shrinks(width, max_dim, longest);
    lemma_scaled_side_shrinks(height, max_dim, longest);
    lemma_scaled_side_bounds(width, max_dim, longest);
    lemma_scaled_side_bounds(height, max_dim, longest);
    lemma_rounded_side(width, max_dim, longest);
    lemma_rounded_side(height, max_dim, longest);
}

proof fn lemma_rounded_side(n: int, max_dim: int, longest: int)
    requires
        1 <= n <= longest,
        1 <= max_dim,
    ensures
        ({
            let s = scaled_side(n, max_dim, longest);
            &&& (s == 1 || 2 * s * longest <= 2 * n * max_dim + longest)
            &&& 2 * n * max_dim + longest < 2 * (s + 1) * longest
        }),
{
    let x = 2 * n * max_dim + longest;
    let d = 2 * longest;
    lemma_fundamental_div_mod(x, d);
    let q = x / d;
    assert(q * d <= x < (q + 1) * d) by (nonlinear_arith)
        requires
            x == d * q + x % d,
            0 <= x % d < d,
    ;
    assert(2 * q * longest == q * d && 2 * (q + 1) * longest == (q + 1) * d) by (nonlinear_arith)
        requires
            d == 2 * longest,
    ;
    if q < 1 {
        assert(q == 0) by {
            assert(0 <= x) by (nonlinear_arith)
                requires
                    x == 2 * n * max_dim + longest,
                    1 <= n,
                    1 <= max_dim,
                    1 <= longest,
            ;
            lemma_div_is_ordered(0, x, d);
        }
        assert(x < 2 * (1 + 1) * longest) by (nonlinear_arith)
            requires
                q == 0,
                x < (q + 1) * d,
                d == 2 * longest,
                longest >= 1,
        ;
    }
}

/// Scaling down spans the whole image by nearest neighbour: scaled pixel
/// (dx, dy) is a copy of source pixel (sx, sy) where sx is dx * width /
/// scaled width rounded down and sy is dy * height / scaled height rounded
/// down, written here as sx * scaled width <= dx * width < (sx + 1) *
/// scaled width. So the last scaled column copies a column within
/// width / scaled width of the right edge, and every part of the image can
/// be sampled.
pub proof fn law_scaled_pixel_source(
    pixels: Seq<u8>,
    width: int,
    height: int,
    max_dim: int,
    dx: int,
    dy: int,
) -> (source: (int, int))
    requires
        1 <= width,
        1 <= height,
        1 <= max_dim,
        4 * width * height <= pixels.len(),
        needs_downsample(width, height, max_dim),
        0 <= dx < downsampled_width(width, height, max_dim),
        0 <= dy < downsampled_height(width, height, max_dim),
    ensures
        0 <= source.0 < width,
        0 <= source.1 < height,
        source.0 * downsampled_width(width, height, max_dim) <= dx * width < (source.0 + 1)
            * downsampled_width(width, height, max_dim),
        source.1 * downsampled_height(width, height, max_dim) <= dy * height < (source.1 + 1)
            * downsampled_height(width, height, max_dim),
        downsampled_pixels(pixels, width, height, max_dim).subrange(
            (dy * downsampled_width(width, height, max_dim) + dx) * 4,
            (dy * downsampled_width(width, height, max_dim) + dx) * 4 + 4,
        ) == pixels.subrange(
            (source.1 * width + source.0) * 4,
            (source.1 * width + source.0) * 4 + 4,
        ),
{
    let dw = downsampled_width(width, height, max_dim);
    let dh = downsampled_height(width, height, max_dim);
    law_scaled_size(width, height, max_dim);
    let sx = nearest_source(dx, dw, width);
    let sy = nearest_source(dy, dh, height);
    lemma_nearest_source_bound(dx, dw, width);
    lemma_nearest_source_bound(dy, dh, height);
    lemma_fundamental_div_mod(dx * width, dw);
    lemma_fundamental_div_mod(dy * height, dh);
    assert(sx * dw <= dx * width < (sx + 1) * dw) by (nonlinear_arith)
        requires
            dx * width == dw * sx + (dx * width) % dw,
            0 <= (dx * width) % dw < dw,
    ;
    assert(sy * dh <= dy * height < (sy + 1) * dh) by (nonlinear_arith)
        requires
            dy * height == dh * sy + (dy * height) % dh,
            0 <= (dy * height) % dh < dh,
    ;
    let d = downsampled_pixels(pixels, width, height, max_dim);
    let i = (dy * dw + dx) * 4;
    let o = (sy * width + sx) * 4;
    lemma_pixel_in_bounds(width, height, sx, sy);
    assert(i + 4 <= dw * dh * 4) by (nonlinear_arith)
        requires
            0 <= dx < dw,
            0 <= dy < dh,
            i == (dy * dw + dx) * 4,
    ;
    assert(d.subrange(i, i + 4) =~= pixels.subrange(o, o + 4)) by {
        assert forall|k: int| 0 <= k < 4 implies #[trigger] d.subrange(i, i + 4)[k]
            == pixels.subrange(o, o + 4)[k] by {
            lemma_destination_index(dx, dy, dw, k);
            assert((i + k) / 4 == dy * dw + dx);
            assert((i + k) % 4 == k);
            assert(((i + k) / 4) % dw == dx);
            assert(((i + k) / 4) / dw == dy);
            assert(0 <= i + k < d.len());
            assert(d[i + k] == pixels[pixel_offset(width, sx, sy) + k]);
            assert(d[i + k] == pixels[o + k]);
        }
    }
    (sx, sy)
}

/// One side after scaling: round(n * max_dim / longest), at least 1.
fn scale_side(n: u32, max_dim: u32, longest: u32) -> (s: u32)
    requires
        n <= longest,
        1 <= max_dim,
        1 <= longest,
    ensures
        s as int == scaled_side(n as int, max_dim as int, longest as int),
        1 <= s <= max_dim,
{
    proof {
        lemma_scaled_side_bounds(n as int, max_dim as int, longest as int);
        assert(2 * (n as int) * (max_dim as int) <= 2 * 4294967295 * 4294967295)
            by (nonlinear_arith)
            requires
                n <= 4294967295,
                max_dim <= 4294967295,
        ;
    }
    let raw = (2 * (n as u128) * (max_dim as u128) + longest as u128) / (2 * longest as u128);
    if raw < 1 {
        1
    } else {
        raw as u32
    }
}

/// Scales an image down by nearest neighbour until neither side exceeds
/// `max_dim`; an image within the cap is copied as it is.
fn downsample(src: &[u8], src_w: u32, src_h: u32, max_dim: u32) -> (res: (Vec<u8>, u32, u32))
    requires
        4 * src_w * src_h <= src@.len(),
        1 <= max_dim,
        needs_downsample(src_w as int, src_h as int, max_dim as int) ==> 4 * source_reach(
            src_w as int,
            src_h as int,
            max_dim as int,
        ) <= src@.len(),
    ensures
        res.0@ == downsampled_pixels(src@, src_w as int, src_h as int, max_dim as int),
        res.1 as int == downsampled_width(src_w as int, src_h as int, max_dim as int),
        res.2 as int == downsampled_height(src_w as int, src_h as int, max_dim as int),
        res.1 <= max_dim,
        res.2 <= max_dim,
        4 * res.1 * res.2 <= res.0@.len(),
{
    if src_w <= max_dim && src_h <= max_dim {
        return (slice_to_vec(src), src_w, src_h);
    }
    let longest = if src_w >= src_h {
        src_w
    } else {
        src_h
    };
    let dst_w = scale_side(src_w, max_dim, longest);
    let dst_h = scale_side(src_h, max_dim, longest);
    let ghost target = downsampled_pixels(src@, src_w as int, src_h as int, max_dim as int);
    let ghost reach = source_reach(src_w as int, src_h as int, max_dim as int);
    let ghost last_x = nearest_source(dst_w - 1, dst_w as int, src_w as int);
    let ghost last_y = nearest_source(dst_h - 1, dst_h as int, src_h as int);
    let len = src.len();
    proof {
        assert(0 <= last_x && 0 <= last_y) by {
            lemma_div_is_ordered(0, (dst_w - 1) * src_w, dst_w as int);
            lemma_div_is_ordered(0, (dst_h - 1) * src_h, dst_h as int);
            assert(0 <= (dst_w - 1) * src_w && 0 <= (dst_h - 1) * src_h) by (nonlinear_arith)
                requires
                    dst_w >= 1,
                    dst_h >= 1,
            ;
        }
    }
    let mut dst: Vec<u8> = Vec::new();
    let mut dy: u32 = 0;
    while dy < dst_h
        invariant
            1 <= dst_w,
            1 <= dst_h,
            dy <= dst_h,
            len == src@.len(),
            4 * reach <= src@.len(),
            reach == last_y * src_w + last_x + 1,
            0 <= last_x,
            0 <= last_y,
            last_x == nearest_source(dst_w - 1, dst_w as int, src_w as int),
            last_y == nearest_source(dst_h - 1, dst_h as int, src_h as int),
            target == downsampled_pixels(src@, src_w as int, src_h as int, max_dim as int),
            dst_w as int == downsampled_width(src_w as int, src_h as int, max_dim as int),
            dst_h as int == downsampled_height(src_w as int, src_h as int, max_dim as int),
            needs_downsample(src_w as int, src_h as int, max_dim as int),
            target.len() == dst_w * dst_h * 4,
            dst@.len() == dy * dst_w * 4,
            forall|i: int| 0 <= i < dst@.len() ==> dst@[i] == target[i],
        decreases dst_h - dy,
    {
        proof {
            lemma_nearest_source_monotone(dy as int, dst_h - 1, dst_h as int, src_h as int);
            lemma_div_is_ordered(0, (dy as int) * (src_h as int), dst_h as int);
            assert((dy as int) * (src_h as int) <= 4294967295 * 4294967295 && 0 <= (dy as int) * (
            src_h as int)) by (nonlinear_arith)
                requires
                    dy <= 4294967295,
                    src_h <= 4294967295,
            ;
        }
        let sy = (dy as u128) * (src_h as u128) / (dst_h as u128);
        assert(sy as int == nearest_source(dy as int, dst_h as int, src_h as int));
        let mut dx: u32 = 0;
        while dx < dst_w
            invariant
                1 <= dst_w,
                1 <= dst_h,
                dy < dst_h,
                dx <= dst_w,
                len == src@.len(),
                4 * reach <= src@.len(),
                reach == last_y * src_w + last_x + 1,
                0 <= last_x,
                0 <= last_y,
                last_x == nearest_source(dst_w - 1, dst_w as int, src_w as int),
                sy as int == nearest_source(dy as int, dst_h as int, src_h as int),
                0 <= sy <= last_y,
                target == downsampled_pixels(src@, src_w as int, src_h as int, max_dim as int),
                dst_w as int == downsampled_width(src_w as int, src_h as int, max_dim as int),
                dst_h as int == downsampled_height(src_w as int, src_h as int, max_dim as int),
                needs_downsample(src_w as int, src_h as int, max_dim as int),
                target.len() == dst_w * dst_h * 4,
                dst@.len() == (dy * dst_w + dx) * 4,
                forall|i: int| 0 <= i < dst@.len() ==> dst@[i] == target[i],
            decreases dst_w - dx,
        {
            proof {
                lemma_nearest_source_monotone(dx as int, dst_w - 1, dst_w as int, src_w as int);
                lemma_div_is_ordered(0, (dx as int) * (src_w as int), dst_w as int);
                assert((dx as int) * (src_w as int) <= 4294967295 * 4294967295 && 0 <= (dx as int)
                    * (src_w as int)) by (nonlinear_arith)
                    requires
                        dx <= 4294967295,
                        src_w <= 4294967295,
                ;
            }
            let sx = (dx as u128) * (src_w as u128) / (dst_w as u128);
            assert(sx as int == nearest_source(dx as int, dst_w as int, src_w as int));
            proof {
                assert((sy * src_w + sx) * 4 + 4 <= 4 * reach) by (nonlinear_arith)
                    requires
                        0 <= sy <= last_y,
                        0 <= sx <= last_x,
                        reach == last_y * src_w + last_x + 1,
                        src_w >= 0,
                ;
            }
            let idx = ((sy * (src_w as u128) + sx) * 4) as usize;
            let ghost base = dst@.len() as int;
            proof {
                assert(dy * dst_w + dx < dst_w * dst_h) by (nonlinear_arith)
                    requires
                        dy < dst_h,
                        dx < dst_w,
                ;
                assert forall|k: int| 0 <= k < 4 implies #[trigger] target[base + k] == src@[idx + k] by {
                    lemma_destination_index(dx as int, dy as int, dst_w as int, k);
                }
            }
            dst.push(src[idx]);
            dst.push(src[idx + 1]);
            dst.push(src[idx + 2]);
            dst.push(src[idx + 3]);
            proof {
                assert(target[base + 0] == src@[idx + 0]);
                assert(target[base + 1] == src@[idx + 1]);
                assert(target[base + 2] == src@[idx + 2]);
                assert(target[base + 3] == src@[idx + 3]);
                assert forall|i: int| 0 <= i < dst@.len() implies dst@[i] == target[i] by {
                    if i >= base {
                        assert(i == base + (i - base));
                    }
                }
                assert((dy * dst_w + dx + 1) * 4 == base + 4) by (nonlinear_arith)
                    requires
                        base == (dy * dst_w + dx) * 4,
                ;
            }
            dx += 1;
        }
        proof {
            assert((dy * dst_w + dst_w) * 4 == (dy + 1) * dst_w * 4) by (nonlinear_arith);
        }
        dy += 1;
    }
    proof {
        assert(dst_h * dst_w * 4 == dst_w * dst_h * 4) by (nonlinear_arith);
        assert(4 * dst_w * dst_h == dst_w * dst_h * 4) by (nonlinear_arith);
        assert(dst@ =~= target);
    }
    (dst, dst_w, dst_h)
}

/// `c` is the colour of an opaque pixel within [x0, x1) x [y0, y1).
pub open spec fn opaque_colour_in(
    pixels: Seq<u8>,
    width: int,
    x0: int,
    x1: int,
    y0: int,
    y1: int,
    c: RgbColor,
) -> bool {
    exists|x: int, y: int|
        #![trigger pixel_rgb(pixels, width, x, y)]
        x0 <= x < x1 && y0 <= y < y1 && is_opaque(pixels, width, x, y) && pixel_rgb(
            pixels,
            width,
            x,
            y,
        ) == c
}

proof fn lemma_row_members(pixels: Seq<u8>, width: int, y: int, x0: int, x1: int)
    ensures
        forall|k: int|
            0 <= k < row_opaque(pixels, width, y, x0, x1).len() ==> opaque_colour_in(
                pixels,
                width,
                x0,
                x1,
                y,
                y + 1,
                #[trigger] row_opaque(pixels, width, y, x0, x1)[k],
            ),
    decreases x1 - x0,
{
    if x1 > x0 {
        lemma_row_members(pixels, width, y, x0, x1 - 1);
        let prev = row_opaque(pixels, width, y, x0, x1 - 1);
        let row = row_opaque(pixels, width, y, x0, x1);
        assert forall|k: int| 0 <= k < row.len() implies opaque_colour_in(
            pixels,
            width,
            x0,
            x1,
            y,
            y + 1,
            #[trigger] row[k],
        ) by {
            if k < prev.len() {
                assert(row[k] == prev[k]);
                assert(opaque_colour_in(pixels, width, x0, x1 - 1, y, y + 1, prev[k]));
                let (wx, wy) = choose|wx: int, wy: int|
                    #![trigger pixel_rgb(pixels, width, wx, wy)]
                    x0 <= wx < x1 - 1 && y <= wy < y + 1 && is_opaque(pixels, width, wx, wy)
                        && pixel_rgb(pixels, width, wx, wy) == prev[k];
                assert(pixel_rgb(pixels, width, wx, wy) == row[k]);
            } else {
                assert(pixel_rgb(pixels, width, x1 - 1, y) == row[k]);
            }
        }
    }
}

proof fn lemma_cell_members(pixels: Seq<u8>, width: int, x0: int, x1: int, y0: int, y1: int)
    ensures
        forall|k: int|
            0 <= k < cell_opaque(pixels, width, x0, x1, y0, y1).len() ==> opaque_colour_in(
                pixels,
                width,
                x0,
                x1,
                y0,
                y1,
                #[trigger] cell_opaque(pixels, width, x0, x1, y0, y1)[k],
            ),
    decreases y1 - y0,
{
    if y1 > y0 {
        lemma_cell_members(pixels, width, x0, x1, y0, y1 - 1);
        lemma_row_members(pixels, width, y1 - 1, x0, x1);
        let prev = cell_opaque(pixels, width, x0, x1, y0, y1 - 1);
        let row = row_opaque(pixels, width, y1 - 1, x0, x1);
        let cell = cell_opaque(pixels, width, x0, x1, y0, y1);
        assert forall|k: int| 0 <= k < cell.len() implies opaque_colour_in(
            pixels,
            width,
            x0,
            x1,
            y0,
            y1,
            #[trigger] cell[k],
        ) by {
            if k < prev.len() {
                assert(cell[k] == prev[k]);
                assert(opaque_colour_in(pixels, width, x0, x1, y0, y1 - 1, prev[k]));
                let (wx, wy) = choose|wx: int, wy: int|
                    #![trigger pixel_rgb(pixels, width, wx, wy)]
                    x0 <= wx < x1 && y0 <= wy < y1 - 1 && is_opaque(pixels, width, wx, wy)
                        && pixel_rgb(pixels, width, wx, wy) == prev[k];
                assert(pixel_rgb(pixels, width, wx, wy) == cell[k]);
            } else {
                let j = k - prev.len();
                assert(cell[k] == row[j]);
                assert(opaque_colour_in(pixels, width, x0, x1, y1 - 1, y1, row[j]));
                let (wx, wy) = choose|wx: int, wy: int|
                    #![trigger pixel_rgb(pixels, width, wx, wy)]
                    x0 <= wx < x1 && y1 - 1 <= wy < y1 && is_opaque(pixels, width, wx, wy)
                        && pixel_rgb(pixels, width, wx, wy) == row[j];
                assert(pixel_rgb(pixels, width, wx, wy) == cell[k]);
            }
        }
    }
}

proof fn lemma_every_nth_members(s: Seq<RgbColor>, step: int, n: int)
    requires
        n <= s.len(),
    ensures
        forall|k: int|
            0 <= k < every_nth(s, step, n).len() ==> s.contains(#[trigger] every_nth(s, step, n)[k]),
    decreases n,
{
    if n > 0 {
        lemma_every_nth_members(s, step, n - 1);
        let prev = every_nth(s, step, n - 1);
        let cur = every_nth(s, step, n);
        assert forall|k: int| 0 <= k < cur.len() implies s.contains(#[trigger] cur[k]) by {
            if k < prev.len() {
                assert(cur[k] == prev[k]);
            } else {
                assert(cur[k] == s[n - 1]);
            }
        }
    }
}

proof fn lemma_grid_members(
    pixels: Seq<u8>,
    width: int,
    height: int,
    num: int,
    den: int,
    c: int,
)
    requires
        0 <= width,
        0 <= height,
        c <= 1024,
    ensures
        forall|k: int|
            0 <= k < grid_sample(pixels, width, height, num, den, c).len() ==> opaque_colour_in(
                pixels,
                width,
                0,
                width,
                0,
                height,
                #[trigger] grid_sample(pixels, width, height, num, den, c)[k],
            ),
    decreases c,
{
    if c > 0 {
        lemma_grid_members(pixels, width, height, num, den, c - 1);
        let prev = grid_sample(pixels, width, height, num, den, c - 1);
        let cell = grid_cell(pixels, width, height, c - 1);
        let sampled = sample_cell(cell, num, den);
        let cur = grid_sample(pixels, width, height, num, den, c);
        let gy = (c - 1) / 32;
        let gx = (c - 1) % 32;
        let x0 = grid_line(gx, width);
        let x1 = grid_line(gx + 1, width);
        let y0 = grid_line(gy, height);
        let y1 = grid_line(gy + 1, height);
        lemma_grid_lines(gx, width);
        lemma_grid_lines(gy, height);
        lemma_cell_members(pixels, width, x0, x1, y0, y1);
        if cell.len() > 0 {
            lemma_every_nth_members(
                cell,
                cell_step(cell.len() as int, num, den),
                cell.len() as int,
            );
        }
        assert forall|k: int| 0 <= k < cur.len() implies opaque_colour_in(
            pixels,
            width,
            0,
            width,
            0,
            height,
            #[trigger] cur[k],
        ) by {
            if k < prev.len() {
                assert(cur[k] == prev[k]);
            } else {
                let j = k - prev.len();
                assert(cur[k] == sampled[j]);
                assert(cell.contains(sampled[j]));
                let i = choose|i: int| 0 <= i < cell.len() && cell[i] == sampled[j];
                assert(opaque_colour_in(pixels, width, x0, x1, y0, y1, cell[i]));
                let (wx, wy) = choose|wx: int, wy: int|
                    #![trigger pixel_rgb(pixels, width, wx, wy)]
                    x0 <= wx < x1 && y0 <= wy < y1 && is_opaque(pixels, width, wx, wy)
                        && pixel_rgb(pixels, width, wx, wy) == cell[i];
                assert(pixel_rgb(pixels, width, wx, wy) == cur[k]);
            }
        }
    }
}

proof fn lemma_downsample_members(
    pixels: Seq<u8>,
    width: int,
    height: int,
    max_dim: int,
    c: RgbColor,
)
    requires
        needs_downsample(width, height, max_dim),
        1 <= width,
        1 <= height,
        1 <= max_dim,
        opaque_colour_in(
            downsampled_pixels(pixels, width, height, max_dim),
            downsampled_width(width, height, max_dim),
            0,
            downsampled_width(width, height, max_dim),
            0,
            downsampled_height(width, height, max_dim),
            c,
        ),
    ensures
        opaque_colour_in(pixels, width, 0, width, 0, height, c),
{
    let d = downsampled_pixels(pixels, width, height, max_dim);
    let dw = downsampled_width(width, height, max_dim);
    let dh = downsampled_height(width, height, max_dim);
    lemma_scaled_side_bounds(width, max_dim, longest_side(width, height));
    lemma_scaled_side_bounds(height, max_dim, longest_side(width, height));
    let (x, y) = choose|x: int, y: int|
        #![trigger pixel_rgb(d, dw, x, y)]
        0 <= x < dw && 0 <= y < dh && is_opaque(d, dw, x, y) && pixel_rgb(d, dw, x, y) == c;
    let sx = nearest_source(x, dw, width);
    let sy = nearest_source(y, dh, height);
    lemma_nearest_source_bound(x, dw, width);
    lemma_nearest_source_bound(y, dh, height);
    lemma_pixel_in_bounds(dw, dh, x, y);
    assert(4 * dw * dh == dw * dh * 4) by (nonlinear_arith);
    let base = pixel_offset(dw, x, y);
    assert forall|k: int| 0 <= k < 4 implies #[trigger] d[base + k] == pixels[pixel_offset(
        width,
        sx,
        sy,
    ) + k] by {
        lemma_destination_index(x, y, dw, k);
    }
    assert(d[base + 0] == pixels[pixel_offset(width, sx, sy) + 0]);
    assert(d[base + 1] == pixels[pixel_offset(width, sx, sy) + 1]);
    assert(d[base + 2] == pixels[pixel_offset(width, sx, sy) + 2]);
    assert(d[base + 3] == pixels[pixel_offset(width, sx, sy) + 3]);
    assert(pixel_rgb(pixels, width, sx, sy) == c);
}

/// The number of opaque pixels of an image.
pub open spec fn opaque_count(pixels: Seq<u8>, width: int, height: int) -> int {
    cell_opaque(pixels, width, 0, width, 0, height).len() as int
}

proof fn lemma_every_first_is_all(s: Seq<RgbColor>, n: int)
    requires
        0 <= n <= s.len(),
    ensures
        every_nth(s, 1, n) == s.take(n),
    decreases n,
{
    if n > 0 {
        lemma_every_first_is_all(s, n - 1);
        assert(s.take(n) =~= s.take(n - 1) + seq![s[n - 1]]);
    } else {
        assert(s.take(0) =~= Seq::<RgbColor>::empty());
    }
}

proof fn lemma_whole_cell_sample(cell: Seq<RgbColor>)
    ensures
        sample_cell(cell, 1, 1) == cell,
{
    if cell.len() > 0 {
        let n = cell.len() as int;
        assert((n * 1 + 1 - 1) / 1 == n);
        assert(cell_take(n, 1, 1) == n);
        assert(n / n == 1) by {
            lemma_fundamental_div_mod_converse(n, n, 1, 0);
        }
        lemma_every_first_is_all(cell, n);
        assert(cell.take(n) =~= cell);
    } else {
        assert(cell =~= Seq::<RgbColor>::empty());
    }
}

proof fn lemma_row_split(pixels: Seq<u8>, width: int, y: int, x0: int, x1: int, x2: int)
    requires
        x0 <= x1 <= x2,
    ensures
        row_opaque(pixels, width, y, x0, x2).len() == row_opaque(pixels, width, y, x0, x1).len()
            + row_opaque(pixels, width, y, x1, x2).len(),
    decreases x2 - x1,
{
    if x2 > x1 {
        lemma_row_split(pixels, width, y, x0, x1, x2 - 1);
    }
}

proof fn lemma_cell_split_columns(
    pixels: Seq<u8>,
    width: int,
    x0: int,
    x1: int,
    x2: int,
    y0: int,
    y1: int,
)
    requires
        x0 <= x1 <= x2,
    ensures
        cell_opaque(pixels, width, x0, x2, y0, y1).len() == cell_opaque(
            pixels,
            width,
            x0,
            x1,
            y0,
            y1,
        ).len() + cell_opaque(pixels, width, x1, x2, y0, y1).len(),
    decreases y1 - y0,
{
    if y1 > y0 {
        lemma_cell_split_columns(pixels, width, x0, x1, x2, y0, y1 - 1);
        lemma_row_split(pixels, width, y1 - 1, x0, x1, x2);
    }
}

proof fn lemma_cell_split_rows(
    pixels: Seq<u8>,
    width: int,
    x0: int,
    x1: int,
    y0: int,
    y1: int,
    y2: int,
)
    requires
        y0 <= y1 <= y2,
    ensures
        cell_opaque(pixels, width, x0, x1, y0, y2).len() == cell_opaque(
            pixels,
            width,
            x0,
            x1,
            y0,
            y1,
        ).len() + cell_opaque(pixels, width, x0, x1, y1, y2).len(),
    decreases y2 - y1,
{
    if y2 > y1 {
        lemma_cell_split_rows(pixels, width, x0, x1, y0, y1, y2 - 1);
    }
}

proof fn lemma_outer_grid_lines(n: int)
    requires
        0 <= n,
    ensures
        grid_line(0, n) == 0,
        grid_line(32, n) == n,
        grid_line(33, n) >= n,
{
    assert(0 * n == 0 && 32 * n == n * 32 && 32 * n <= 33 * n) by (nonlinear_arith)
        requires
            0 <= n,
    ;
    lemma_fundamental_div_mod_converse(0, 32, 0, 0);
    lemma_fundamental_div_mod_converse(32 * n, 32, n, 0);
    lemma_div_is_ordered(32 * n, 33 * n, 32);
}

proof fn lemma_whole_grid_len(pixels: Seq<u8>, width: int, height: int, c: int)
    requires
        0 <= width,
        0 <= height,
        0 <= c <= 1024,
    ensures
        grid_sample(pixels, width, height, 1, 1, c).len() == grid_prefix_len(
            pixels,
            width,
            height,
            c,
        ),
    decreases c,
{
    if c == 0 {
        lemma_outer_grid_lines(height);
        lemma_outer_grid_lines(width);
        lemma_grid_lines(0, height);
        lemma_cell_len(pixels, width, 0, 0, 0, grid_line(1, height));
    } else {
        lemma_whole_grid_len(pixels, width, height, c - 1);
        lemma_grid_prefix_step(pixels, width, height, c);
        lemma_whole_cell_sample(grid_cell(pixels, width, height, c - 1));
    }
}

proof fn lemma_every_nth_len(s: Seq<RgbColor>, step: int, n: int)
    requires
        0 <= n,
    ensures
        every_nth(s, step, n).len() <= n,
    decreases n,
{
    if n > 0 {
        lemma_every_nth_len(s, step, n - 1);
    }
}

proof fn lemma_sample_cell_len(cell: Seq<RgbColor>, num: int, den: int)
    ensures
        sample_cell(cell, num, den).len() <= cell.len(),
{
    if cell.len() > 0 {
        lemma_every_nth_len(cell, cell_step(cell.len() as int, num, den), cell.len() as int);
    }
}

proof fn lemma_grid_len_bound(
    pixels: Seq<u8>,
    width: int,
    height: int,
    num: int,
    den: int,
    c: int,
)
    requires
        0 <= width,
        0 <= height,
        0 <= c <= 1024,
    ensures
        grid_sample(pixels, width, height, num, den, c).len() <= grid_prefix_len(
            pixels,
            width,
            height,
            c,
        ),
    decreases c,
{
    if c == 0 {
        lemma_outer_grid_lines(height);
        lemma_outer_grid_lines(width);
        lemma_grid_lines(0, height);
        lemma_cell_len(pixels, width, 0, 0, 0, grid_line(1, height));
    } else {
        lemma_grid_len_bound(pixels, width, height, num, den, c - 1);
        lemma_grid_prefix_step(pixels, width, height, c);
        lemma_sample_cell_len(grid_cell(pixels, width, height, c - 1), num, den);
    }
}

/// The opaque pixels of the grid cells before cell `c`, counted as the
/// full rows of cells above it plus the cells to its left.
spec fn grid_prefix_len(pixels: Seq<u8>, width: int, height: int, c: int) -> int {
    (cell_opaque(pixels, width, 0, width, 0, grid_line(c / 32, height)).len() + cell_opaque(
        pixels,
        width,
        0,
        grid_line(c % 32, width),
        grid_line(c / 32, height),
        grid_line(c / 32 + 1, height),
    ).len()) as int
}

proof fn lemma_grid_prefix_step(pixels: Seq<u8>, width: int, height: int, c: int)
    requires
        0 <= width,
        0 <= height,
        1 <= c <= 1024,
    ensures
        grid_prefix_len(pixels, width, height, c) == grid_prefix_len(pixels, width, height, c - 1)
            + grid_cell(pixels, width, height, c - 1).len(),
{
    let p = c - 1;
    let gy = p / 32;
    let gx = p % 32;
    lemma_grid_lines(gx, width);
    lemma_grid_lines(gy, height);
    let y0 = grid_line(gy, height);
    let y1 = grid_line(gy + 1, height);
    lemma_cell_split_columns(
        pixels,
        width,
        0,
        grid_line(gx, width),
        grid_line(gx + 1, width),
        y0,
        y1,
    );
    if gx + 1 < 32 {
        lemma_fundamental_div_mod_converse(c, 32, gy, gx + 1);
    } else {
        lemma_fundamental_div_mod_converse(c, 32, gy + 1, 0);
        lemma_outer_grid_lines(width);
        lemma_outer_grid_lines(height);
        if gy + 1 < 32 {
            lemma_grid_lines(gy + 1, height);
        }
        lemma_cell_split_rows(pixels, width, 0, width, 0, y0, y1);
        lemma_cell_len(pixels, width, 0, 0, y1, grid_line(gy + 2, height));
    }
}

proof fn lemma_every_nth_count(s: Seq<RgbColor>, step: int, n: int)
    requires
        1 <= step,
        0 <= n,
    ensures
        step * every_nth(s, step, n).len() >= n,
        step * every_nth(s, step, n).len() < n + step,
    decreases n,
{
    if n > 0 {
        lemma_every_nth_count(s, step, n - 1);
        let prev = every_nth(s, step, n - 1).len() as int;
        let m = n - 1;
        lemma_fundamental_div_mod(m, step);
        let q = m / step;
        if m % step == 0 {
            assert(prev == q) by (nonlinear_arith)
                requires
                    step * prev >= m,
                    step * prev < m + step,
                    m == step * q,
                    step >= 1,
            ;
            assert(step * (prev + 1) == step * prev + step) by (nonlinear_arith);
        } else if step * prev == m {
            assert(prev * step == m) by (nonlinear_arith)
                requires
                    step * prev == m,
            ;
            lemma_fundamental_div_mod_converse(m, step, prev, 0);
        }
    }
}

proof fn lemma_sample_cell_fraction(cell: Seq<RgbColor>, num: int, den: int)
    requires
        1 <= num <= den,
    ensures
        den * sample_cell(cell, num, den).len() >= num * cell.len(),
{
    let l = cell.len() as int;
    if l > 0 {
        let t = cell_take(l, num, den);
        let step = cell_step(l, num, den);
        lemma_every_nth_count(cell, step, l);
        let count = sample_cell(cell, num, den).len() as int;
        let x = l * num + den - 1;
        assert(x >= 0) by (nonlinear_arith)
            requires
                l >= 1,
                num >= 1,
                den >= 1,
                x == l * num + den - 1,
        ;
        lemma_fundamental_div_mod(x, den);
        assert(den * t >= l * num) by (nonlinear_arith)
            requires
                x == den * (x / den) + x % den,
                x % den < den,
                x == l * num + den - 1,
                t >= x / den,
                den >= 1,
        ;
        if l / t >= 1 {
            lemma_fundamental_div_mod(l, t);
            assert(den * count >= num * l) by (nonlinear_arith)
                requires
                    l == t * (l / t) + l % t,
                    0 <= l % t,
                    step == l / t,
                    step * count >= l,
                    den * t >= l * num,
                    step >= 1,
                    den >= 1,
                    t >= 1,
            ;
        } else {
            assert(den * count >= num * l) by (nonlinear_arith)
                requires
                    step == 1,
                    step * count >= l,
                    den >= num,
                    num >= 1,
                    l >= 1,
            ;
        }
    }
}

proof fn lemma_grid_fraction(
    pixels: Seq<u8>,
    width: int,
    height: int,
    num: int,
    den: int,
    c: int,
)
    requires
        0 <= width,
        0 <= height,
        0 <= c <= 1024,
        1 <= num <= den,
    ensures
        den * grid_sample(pixels, width, height, num, den, c).len() >= num * grid_prefix_len(
            pixels,
            width,
            height,
            c,
        ),
    decreases c,
{
    if c == 0 {
        lemma_outer_grid_lines(height);
        lemma_outer_grid_lines(width);
        lemma_grid_lines(0, height);
        lemma_cell_len(pixels, width, 0, 0, 0, grid_line(1, height));
        lemma_cell_len(pixels, width, 0, width, 0, 0);
        assert(grid_prefix_len(pixels, width, height, 0) == 0);
    } else {
        lemma_grid_fraction(pixels, width, height, num, den, c - 1);
        lemma_grid_prefix_step(pixels, width, height, c);
        let cell = grid_cell(pixels, width, height, c - 1);
        lemma_sample_cell_fraction(cell, num, den);
        let before = grid_sample(pixels, width, height, num, den, c - 1).len() as int;
        let kept = sample_cell(cell, num, den).len() as int;
        assert(grid_sample(pixels, width, height, num, den, c).len() == before + kept);
        let prefix = grid_prefix_len(pixels, width, height, c - 1);
        assert(den * (before + kept) >= num * (prefix + cell.len())) by (nonlinear_arith)
            requires
                den * before >= num * prefix,
                den * kept >= num * cell.len(),
        ;
        assert(grid_prefix_len(pixels, width, height, c) == prefix + cell.len());
    }
}

/// The sample that `sample_pixels` takes: scale the image down to the
/// quality's cap, then take the quality's fraction of each grid cell.
pub open spec fn sampled_pixels(pixels: Seq<u8>, width: int, height: int, quality: Quality) -> Seq<
    RgbColor,
> {
    let max_dim = max_dimension_of(quality);
    let fraction = fraction_of(quality);
    stratified(
        downsampled_pixels(pixels, width, height, max_dim),
        downsampled_width(width, height, max_dim),
        downsampled_height(width, height, max_dim),
        fraction.0,
        fraction.1,
    )
}

/// The opaque pixels of the image that sampling works on: the image scaled
/// down to the quality's cap.
pub open spec fn scaled_opaque_count(pixels: Seq<u8>, width: int, height: int, quality: Quality) -> int {
    let max_dim = max_dimension_of(quality);
    opaque_count(
        downsampled_pixels(pixels, width, height, max_dim),
        downsampled_width(width, height, max_dim),
        downsampled_height(width, height, max_dim),
    )
}

/// The inputs that sampling accepts: the buffer holds four bytes for each
/// pixel, and an image with an empty side is not scaled down.
pub open spec fn can_sample(len: int, width: int, height: int, quality: Quality) -> bool {
    &&& 4 * width * height <= len
    &&& width >= 1 && height >= 1 || scaled_reads_in(len, width, height, quality)
}

/// Scaling down at the quality's cap reads within a buffer of `len` bytes
/// (an image within the cap is not scaled at all).
pub open spec fn scaled_reads_in(len: int, width: int, height: int, quality: Quality) -> bool {
    needs_downsample(width, height, max_dimension_of(quality)) ==> 4 * source_reach(
        width,
        height,
        max_dimension_of(quality),
    ) <= len
}

/// An image with an empty side that is still scaled down, because its
/// other side exceeds the quality's cap: scaling gives it one row or column
/// made of copies of the buffer's first pixels.
pub open spec fn scales_empty_side(width: int, height: int, quality: Quality) -> bool {
    needs_downsample(width, height, max_dimension_of(quality)) && (width == 0 || height == 0)
}

/// Samples the colours of an RGBA image (row-major, four bytes a pixel):
/// scales it down by nearest neighbour until no side exceeds the quality's
/// cap, lays a 32 x 32 grid over it and keeps, from each cell, the
/// quality's fraction of its opaque pixels (alpha at least 128), evenly
/// spaced. The scaled size and the source of each scaled pixel are computed
/// exactly in integers (`scaled_side`, `nearest_source`), not in floats.
/// At least the quality's fraction (a quarter, a half, all) of the
/// opaque pixels of the scaled image is returned. Unless an empty side is
/// scaled (`scales_empty_side`), every colour returned is that of an opaque
/// pixel of the image.
pub fn sample_pixels(pixels: &[u8], width: u32, height: u32, quality: Quality) -> (sampled: Vec<
    RgbColor,
>)
    requires
        can_sample(pixels@.len() as int, width as int, height as int, quality),
    ensures
        sampled@ == sampled_pixels(pixels@, width as int, height as int, quality),
        quality == Quality::Precise && width <= 512 && height <= 512 ==> sampled@.len()
            == opaque_count(pixels@, width as int, height as int),
        fraction_of(quality).1 * sampled@.len() >= fraction_of(quality).0 * scaled_opaque_count(
            pixels@,
            width as int,
            height as int,
            quality,
        ),
        !scales_empty_side(width as int, height as int, quality) ==> sampled@.len() <= width
            * height,
        !scales_empty_side(width as int, height as int, quality) && needs_downsample(
            width as int,
            height as int,
            max_dimension_of(quality),
        ) ==> sampled@.len() < width * height,
        !scales_empty_side(width as int, height as int, quality) ==> forall|i: int|
            0 <= i < sampled@.len() ==> opaque_colour_in(
                pixels@,
                width as int,
                0,
                width as int,
                0,
                height as int,
                #[trigger] sampled@[i],
            ),
{
    let max_dim = quality.max_dimension();
    proof {
        if width >= 1 && height >= 1 && needs_downsample(width as int, height as int, max_dim as int) {
            lemma_reach_within_image(width as int, height as int, max_dim as int);
            assert(4 * source_reach(width as int, height as int, max_dim as int) <= 4 * width
                * height) by (nonlinear_arith)
                requires
                    source_reach(width as int, height as int, max_dim as int) <= width * height,
            ;
        }
    }
    let (ds_pixels, ds_width, ds_height) = downsample(pixels, width, height, max_dim);
    let sampled = stratified_sample(&ds_pixels, ds_width, ds_height, quality.sample_fraction());
    proof {
        let fraction = fraction_of(quality);
        lemma_grid_members(
            ds_pixels@,
            ds_width as int,
            ds_height as int,
            fraction.0,
            fraction.1,
            1024,
        );
        let dw = ds_width as int;
        let dh = ds_height as int;
        lemma_grid_len_bound(ds_pixels@, dw, dh, fraction.0, fraction.1, 1024);
        lemma_grid_fraction(ds_pixels@, dw, dh, fraction.0, fraction.1, 1024);
        lemma_outer_grid_lines(dw);
        lemma_outer_grid_lines(dh);
        lemma_fundamental_div_mod_converse(1024, 32, 32, 0);
        lemma_cell_len(ds_pixels@, dw, 0, 0, dh, grid_line(33, dh));
        lemma_cell_len(ds_pixels@, dw, 0, dw, 0, dh);
        assert(grid_prefix_len(ds_pixels@, dw, dh, 1024) == opaque_count(ds_pixels@, dw, dh));
        assert(sampled@.len() <= dh * dw);
        if scales_empty_side(width as int, height as int, quality) {
        } else if needs_downsample(width as int, height as int, max_dim as int) {
            let w = width as int;
            let h = height as int;
            let longest = if w >= h { w } else { h };
            if w >= h {
                lemma_scaled_side_shrinks(h, max_dim as int, longest);
                lemma_scaled_side_shrinks(w, max_dim as int, longest);
            } else {
                lemma_scaled_side_shrinks(w, max_dim as int, longest);
                lemma_scaled_side_shrinks(h, max_dim as int, longest);
            }
            assert(dh * dw < w * h) by (nonlinear_arith)
                requires
                    1 <= dw <= w,
                    1 <= dh <= h,
                    dw < w || dh < h,
            ;
        } else {
            assert(dh * dw == width * height) by (nonlinear_arith)
                requires
                    dw == width,
                    dh == height,
            ;
        }
        if quality == Quality::Precise && width <= 512 && height <= 512 {
            lemma_whole_grid_len(pixels@, width as int, height as int, 1024);
            lemma_outer_grid_lines(height as int);
            lemma_outer_grid_lines(width as int);
            lemma_fundamental_div_mod_converse(1024, 32, 32, 0);
            lemma_cell_len(pixels@, width as int, 0, 0, height as int, grid_line(33, height as int));
        }
        if needs_downsample(width as int, height as int, max_dim as int) && !scales_empty_side(
            width as int,
            height as int,
            quality,
        ) {
            assert forall|i: int| 0 <= i < sampled@.len() implies opaque_colour_in(
                pixels@,
                width as int,
                0,
                width as int,
                0,
                height as int,
                #[trigger] sampled@[i],
            ) by {
                lemma_downsample_members(
                    pixels@,
                    width as int,
                    height as int,
                    max_dim as int,
                    sampled@[i],
                );
            }
        }
    }
    sampled
}

} // verus!
