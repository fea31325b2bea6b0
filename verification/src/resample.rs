//! The three interpolating resampling kernels: box-filter reduction,
//! bilinear, and bicubic. Each kernel computes one destination pixel from
//! the source buffer; the driving loops append row-major RGBA8 output.
//!
//! The interpolating kernels map destination pixel `x` (for `w > 1`) to the
//! source coordinate `x * sw / (dw - 1)`, an edge-to-edge mapping distinct
//! from the nearest-neighbor mapping; the asymmetry is deliberate and is
//! kept exactly. All sub-pixel arithmetic is exact rational or fixed-point
//! integer arithmetic.

use crate::arith::{lemma_div_mod_split, lemma_mul_le};
use crate::image::{spec_pixel, ImageInfo};
use vstd::arithmetic::div_mod::{
    lemma_div_is_ordered, lemma_div_pos_is_pos, lemma_multiply_divide_lt,
};
use vstd::arithmetic::mul::{lemma_mul_inequality, lemma_mul_nonnegative};
use vstd::prelude::*;

verus! {

/// A coordinate clamped into the column (or row) range of a source image
/// of extent `s`; an empty extent clamps to 0.
pub open spec fn clamp_coord(v: int, s: int) -> int {
    if v < 0 {
        0
    } else if v <= s - 1 {
        v
    } else if s >= 1 {
        s - 1
    } else {
        0
    }
}

/// Low edge of the reduction window of destination index `x`:
/// `floor(x * s / d)`.
pub open spec fn red_lo(x: int, s: int, d: int) -> int {
    x * s / d
}

/// High edge of the reduction window: `ceil((x + 1) * s / d)`, clamped to
/// the last source index.
pub open spec fn red_hi(x: int, s: int, d: int) -> int {
    let hi = ((x + 1) * s + d - 1) / d;
    if hi <= s - 1 {
        hi
    } else if s >= 1 {
        s - 1
    } else {
        0
    }
}

/// Sum of channel `c` over `n` source pixels of row `y` starting at column
/// `x0`.
pub open spec fn red_row_sum(src: Seq<u8>, sw: int, sh: int, y: int, x0: int, n: int, c: int) -> int
    decreases n,
{
    if n <= 0 {
        0
    } else {
        red_row_sum(src, sw, sh, y, x0, n - 1, c) + spec_pixel(src, sw, sh, x0 + (n - 1), y)[c]
    }
}

/// Sum of channel `c` over the window of `nx` columns starting at `x0` and
/// `ny` rows starting at `y0`.
pub open spec fn red_win_sum(
    src: Seq<u8>,
    sw: int,
    sh: int,
    x0: int,
    nx: int,
    y0: int,
    ny: int,
    c: int,
) -> int
    decreases ny,
{
    if ny <= 0 {
        0
    } else {
        red_win_sum(src, sw, sh, x0, nx, y0, ny - 1, c) + red_row_sum(
            src,
            sw,
            sh,
            y0 + (ny - 1),
            x0,
            nx,
            c,
        )
    }
}

/// Channel `c` of destination pixel `(x, y)` under box-filter reduction:
/// the truncated arithmetic mean of the window, or 0 for an empty window.
pub open spec fn red_pixel_byte(
    src: Seq<u8>,
    sw: int,
    sh: int,
    dw: int,
    dh: int,
    x: int,
    y: int,
    c: int,
) -> u8 {
    let lx = red_lo(x, sw, dw);
    let hx = red_hi(x, sw, dw);
    let ly = red_lo(y, sh, dh);
    let hy = red_hi(y, sh, dh);
    if hx <= lx || hy <= ly {
        0u8
    } else {
        (red_win_sum(src, sw, sh, lx, hx - lx, ly, hy - ly, c) / ((hx - lx) * (hy - ly))) as u8
    }
}

/// Byte `i` of the buffer produced by box-filter reduction.
pub open spec fn red_byte(src: Seq<u8>, sw: int, sh: int, dw: int, dh: int, i: int) -> u8 {
    let p = i / 4;
    red_pixel_byte(src, sw, sh, dw, dh, p % dw, p / dw, i % 4)
}

/// The buffer produced by box-filter reduction to `dw` by `dh`.
pub open spec fn spec_scale_reduction(
    src: Seq<u8>,
    sw: int,
    sh: int,
    dw: int,
    dh: int,
) -> Seq<u8> {
    Seq::new((dw * dh * 4) as nat, |i: int| red_byte(src, sw, sh, dw, dh, i))
}

/// A row sum of `n` channel bytes lies in `[0, 255 * n]`.
proof fn lemma_red_row_sum_bound(src: Seq<u8>, sw: int, sh: int, y: int, x0: int, n: int, c: int)
    requires
        0 <= n,
    ensures
        0 <= red_row_sum(src, sw, sh, y, x0, n, c) <= 255 * n,
    decreases n,
{
    if n > 0 {
        lemma_red_row_sum_bound(src, sw, sh, y, x0, n - 1, c);
    }
}

/// A window sum of `nx * ny` channel bytes lies in `[0, 255 * nx * ny]`.
proof fn lemma_red_win_sum_bound(
    src: Seq<u8>,
    sw: int,
    sh: int,
    x0: int,
    nx: int,
    y0: int,
    ny: int,
    c: int,
)
    requires
        0 <= nx,
        0 <= ny,
    ensures
        0 <= red_win_sum(src, sw, sh, x0, nx, y0, ny, c) <= 255 * (nx * ny),
    decreases ny,
{
    if ny <= 0 {
        lemma_mul_nonnegative(nx, ny);
        assert(255 * (nx * ny) >= 0) by (nonlinear_arith)
            requires
                nx * ny >= 0,
        ;
    } else {
        lemma_red_win_sum_bound(src, sw, sh, x0, nx, y0, ny - 1, c);
        lemma_red_row_sum_bound(src, sw, sh, y0 + (ny - 1), x0, nx, c);
        assert(255 * (nx * (ny - 1)) + 255 * nx == 255 * (nx * ny)) by (nonlinear_arith);
    }
}

/// Computes the reduction window edges for one axis: destination index `x`
/// of extent `d` against a source extent of `s`.
fn red_axis(x: u32, s: u32, d: u32) -> (r: (u64, u64))
    requires
        1 <= d,
        x < d,
    ensures
        r.0 == red_lo(x as int, s as int, d as int),
        r.1 == red_hi(x as int, s as int, d as int),
        r.0 <= r.1 <= s,
{
    proof {
        lemma_mul_le(x as int + 1, u32::MAX as int, s as int, u32::MAX as int);
        lemma_mul_nonnegative(x as int, s as int);
        lemma_mul_nonnegative(x as int + 1, s as int);
        lemma_div_pos_is_pos(x as int * s as int, d as int);
        if s >= 1 {
            crate::arith::lemma_scaled_coord_bound(x as int, s as int, d as int);
            assert(x as int * s as int + s as int == (x as int + 1) * s as int)
                by (nonlinear_arith);
            vstd::arithmetic::div_mod::lemma_hoist_over_denominator(
                x as int * s as int,
                1,
                d as nat,
            );
            lemma_div_is_ordered(
                x as int * s as int + 1 * d as int,
                (x as int + 1) * s as int + d as int - 1,
                d as int,
            );
        } else {
            vstd::arithmetic::mul::lemma_mul_by_zero_is_zero(x as int);
            vstd::arithmetic::mul::lemma_mul_by_zero_is_zero(x as int + 1);
            vstd::arithmetic::div_mod::lemma_div_of0(d as int);
            assert((d as int - 1) / d as int == 0) by {
                vstd::arithmetic::div_mod::lemma_basic_div(d as int - 1, d as int);
            }
        }
    }
    let lo: u64 = x as u64 * s as u64 / d as u64;
    let hi_raw: u64 = ((x as u64 + 1) * s as u64 + d as u64 - 1) / d as u64;
    let hi: u64 = if s >= 1 {
        if hi_raw <= s as u64 - 1 {
            hi_raw
        } else {
            s as u64 - 1
        }
    } else {
        0
    };
    (lo, hi)
}

/// Computes one destination pixel of the box-filter reduction.
fn reduction_pixel(info: &ImageInfo, ib: &[u8], x: u32, y: u32, dw: u32, dh: u32) -> (r: [u8; 4])
    requires
        1 <= dw,
        1 <= dh,
        x < dw,
        y < dh,
    ensures
        forall|c: int|
            0 <= c < 4 ==> r@[c] == red_pixel_byte(
                ib@,
                info.width as int,
                info.height as int,
                dw as int,
                dh as int,
                x as int,
                y as int,
                c,
            ),
{
    let sw = info.width;
    let sh = info.height;
    let (lx, hx) = red_axis(x, sw, dw);
    let (ly, hy) = red_axis(y, sh, dh);
    let ghost src = ib@;

    if hx <= lx || hy <= ly {
        let r = [0u8, 0u8, 0u8, 0u8];
        assert(forall|c: int|
            0 <= c < 4 ==> r@[c] == red_pixel_byte(
                src,
                sw as int,
                sh as int,
                dw as int,
                dh as int,
                x as int,
                y as int,
                c,
            ));
        return r;
    }

    let nx: u64 = hx - lx;
    let ny: u64 = hy - ly;
    let mut acc0: u128 = 0;
    let mut acc1: u128 = 0;
    let mut acc2: u128 = 0;
    let mut acc3: u128 = 0;
    let mut sy: u64 = ly;
    while sy < hy
        invariant
            lx == red_lo(x as int, sw as int, dw as int),
            hx == red_hi(x as int, sw as int, dw as int),
            ly == red_lo(y as int, sh as int, dh as int),
            hy == red_hi(y as int, sh as int, dh as int),
            lx < hx <= sw <= u32::MAX,
            ly <= sy <= hy <= sh <= u32::MAX,
            nx == hx - lx,
            src == ib@,
            sw == info.width,
            sh == info.height,
            acc0 == red_win_sum(src, sw as int, sh as int, lx as int, nx as int, ly as int, sy - ly, 0),
            acc1 == red_win_sum(src, sw as int, sh as int, lx as int, nx as int, ly as int, sy - ly, 1),
            acc2 == red_win_sum(src, sw as int, sh as int, lx as int, nx as int, ly as int, sy - ly, 2),
            acc3 == red_win_sum(src, sw as int, sh as int, lx as int, nx as int, ly as int, sy - ly, 3),
        decreases hy - sy,
    {
        let mut sx: u64 = lx;
        while sx < hx
            invariant
                lx < hx <= sw <= u32::MAX,
                ly <= sy < hy <= sh <= u32::MAX,
                lx <= sx <= hx,
                nx == hx - lx,
                src == ib@,
                sw == info.width,
                sh == info.height,
                acc0 == red_win_sum(src, sw as int, sh as int, lx as int, nx as int, ly as int, sy - ly, 0)
                    + red_row_sum(src, sw as int, sh as int, sy as int, lx as int, sx - lx, 0),
                acc1 == red_win_sum(src, sw as int, sh as int, lx as int, nx as int, ly as int, sy - ly, 1)
                    + red_row_sum(src, sw as int, sh as int, sy as int, lx as int, sx - lx, 1),
                acc2 == red_win_sum(src, sw as int, sh as int, lx as int, nx as int, ly as int, sy - ly, 2)
                    + red_row_sum(src, sw as int, sh as int, sy as int, lx as int, sx - lx, 2),
                acc3 == red_win_sum(src, sw as int, sh as int, lx as int, nx as int, ly as int, sy - ly, 3)
                    + red_row_sum(src, sw as int, sh as int, sy as int, lx as int, sx - lx, 3),
            decreases hx - sx,
        {
            let pix = info.get_pixel(sx as u32, sy as u32, ib);
            proof {
                lemma_red_win_sum_bound(src, sw as int, sh as int, lx as int, nx as int, ly as int, sy - ly, 0);
                lemma_red_win_sum_bound(src, sw as int, sh as int, lx as int, nx as int, ly as int, sy - ly, 1);
                lemma_red_win_sum_bound(src, sw as int, sh as int, lx as int, nx as int, ly as int, sy - ly, 2);
                lemma_red_win_sum_bound(src, sw as int, sh as int, lx as int, nx as int, ly as int, sy - ly, 3);
                lemma_red_row_sum_bound(src, sw as int, sh as int, sy as int, lx as int, sx - lx, 0);
                lemma_red_row_sum_bound(src, sw as int, sh as int, sy as int, lx as int, sx - lx, 1);
                lemma_red_row_sum_bound(src, sw as int, sh as int, sy as int, lx as int, sx - lx, 2);
                lemma_red_row_sum_bound(src, sw as int, sh as int, sy as int, lx as int, sx - lx, 3);
                lemma_mul_le(nx as int, 0x1_0000_0000, sy - ly, 0x1_0000_0000);
            }
            acc0 = acc0 + pix[0] as u128;
            acc1 = acc1 + pix[1] as u128;
            acc2 = acc2 + pix[2] as u128;
            acc3 = acc3 + pix[3] as u128;
            sx = sx + 1;
        }
        sy = sy + 1;
    }

    proof {
        lemma_red_win_sum_bound(src, sw as int, sh as int, lx as int, nx as int, ly as int, ny as int, 0);
        lemma_red_win_sum_bound(src, sw as int, sh as int, lx as int, nx as int, ly as int, ny as int, 1);
        lemma_red_win_sum_bound(src, sw as int, sh as int, lx as int, nx as int, ly as int, ny as int, 2);
        lemma_red_win_sum_bound(src, sw as int, sh as int, lx as int, nx as int, ly as int, ny as int, 3);
        lemma_mul_le(nx as int, 0x1_0000_0000, ny as int, 0x1_0000_0000);
        vstd::arithmetic::mul::lemma_mul_strictly_positive(nx as int, ny as int);
    }
    let count: u128 = nx as u128 * ny as u128;
    proof {
        lemma_avg_in_byte_range(acc0 as int, count as int);
        lemma_avg_in_byte_range(acc1 as int, count as int);
        lemma_avg_in_byte_range(acc2 as int, count as int);
        lemma_avg_in_byte_range(acc3 as int, count as int);
    }
    let r = [
        (acc0 / count) as u8,
        (acc1 / count) as u8,
        (acc2 / count) as u8,
        (acc3 / count) as u8,
    ];
    assert(forall|c: int|
        0 <= c < 4 ==> r@[c] == red_pixel_byte(
            src,
            sw as int,
            sh as int,
            dw as int,
            dh as int,
            x as int,
            y as int,
            c,
        ));
    r
}

/// The truncated mean of a sum of `count` bytes is itself a byte value.
proof fn lemma_avg_in_byte_range(sum: int, count: int)
    requires
        0 < count,
        0 <= sum <= 255 * count,
    ensures
        0 <= sum / count <= 255,
{
    lemma_div_pos_is_pos(sum, count);
    lemma_div_is_ordered(sum, 255 * count, count);
    vstd::arithmetic::mul::lemma_mul_is_commutative(255, count);
    vstd::arithmetic::div_mod::lemma_div_by_multiple(255, count);
}

/// Appends the box-filter reduction of `ib` to `ob`, producing a `width`
/// by `height` image. Meant for a pure shrink; defined for any extents.
pub fn scale_reduction(info: &ImageInfo, ib: &[u8], ob: &mut Vec<u8>, width: u32, height: u32)
    ensures
        final(ob)@ == old(ob)@ + spec_scale_reduction(
            ib@,
            info.width as int,
            info.height as int,
            width as int,
            height as int,
        ),
{
    let ghost base = ob@.len() as int;
    let ghost src = ib@;
    let mut dy: u32 = 0;
    while dy < height
        invariant
            src == ib@,
            dy <= height,
            ob@.len() == base + (dy as int * width as int) * 4,
            0 <= base,
            forall|i: int| 0 <= i < base ==> ob@[i] == old(ob)@[i],
            base == old(ob)@.len(),
            forall|j: int|
                0 <= j < ob@.len() - base ==> ob@[base + j] == red_byte(
                    src,
                    info.width as int,
                    info.height as int,
                    width as int,
                    height as int,
                    j,
                ),
        decreases height - dy,
    {
        let mut dx: u32 = 0;
        while dx < width
            invariant
                src == ib@,
                dy < height,
                dx <= width,
                ob@.len() == base + (dy as int * width as int + dx as int) * 4,
                0 <= base,
                forall|i: int| 0 <= i < base ==> ob@[i] == old(ob)@[i],
                base == old(ob)@.len(),
                forall|j: int|
                    0 <= j < ob@.len() - base ==> ob@[base + j] == red_byte(
                        src,
                        info.width as int,
                        info.height as int,
                        width as int,
                        height as int,
                        j,
                    ),
            decreases width - dx,
        {
            let pix = reduction_pixel(info, ib, dx, dy, width, height);
            ob.push(pix[0]);
            ob.push(pix[1]);
            ob.push(pix[2]);
            ob.push(pix[3]);
            proof {
                let p = dy as int * width as int + dx as int;
                lemma_div_mod_split(dy as int, dx as int, width as int);
                lemma_div_mod_split(p, 0, 4);
                lemma_div_mod_split(p, 1, 4);
                lemma_div_mod_split(p, 2, 4);
                lemma_div_mod_split(p, 3, 4);
                assert(forall|j: int|
                    p * 4 <= j < p * 4 + 4 ==> ob@[base + j] == red_byte(
                        src,
                        info.width as int,
                        info.height as int,
                        width as int,
                        height as int,
                        j,
                    ));
            }
            dx += 1;
        }
        proof {
            assert((dy as int + 1) * width as int == dy as int * width as int + width as int)
                by (nonlinear_arith);
        }
        dy += 1;
    }
    proof {
        assert(height as int * width as int == width as int * height as int) by (nonlinear_arith);
        assert(ob@ =~= old(ob)@ + spec_scale_reduction(
            src,
            info.width as int,
            info.height as int,
            width as int,
            height as int,
        ));
    }
}


/// Denominator of the edge-to-edge axis mapping with the half-pixel shift:
/// `2 * (d - 1)`, or 1 where a single destination column leaves no span.
pub open spec fn lin_den(d: int) -> int {
    if d <= 1 {
        1
    } else {
        2 * (d - 1)
    }
}

/// Numerator of the shifted bilinear source coordinate of destination
/// index `x`, clamped at zero: `max(2 * x * s - (d - 1), 0)`.
pub open spec fn lin_num(x: int, s: int, d: int) -> int {
    if d <= 1 {
        0
    } else {
        let n = 2 * x * s - (d - 1);
        if n < 0 {
            0
        } else {
            n
        }
    }
}

/// Whole part of the shifted bilinear source coordinate.
pub open spec fn lin_lo(x: int, s: int, d: int) -> int {
    lin_num(x, s, d) / lin_den(d)
}

/// Fractional part of the shifted bilinear source coordinate, as a
/// numerator over `lin_den(d)`.
pub open spec fn lin_frac(x: int, s: int, d: int) -> int {
    lin_num(x, s, d) % lin_den(d)
}

/// The bilinear blend of a 2 by 2 neighborhood with area weights, as a
/// single channel: an exact rational weighted average, truncated.
pub open spec fn lin_mix(
    a: int,
    b: int,
    c: int,
    d: int,
    fx: int,
    dx: int,
    fy: int,
    dy: int,
) -> int {
    (a * ((dx - fx) * (dy - fy)) + b * (fx * (dy - fy)) + c * ((dx - fx) * fy) + d * (fx * fy)) / (
    dx * dy)
}

/// Channel `c` of destination pixel `(x, y)` under bilinear interpolation.
pub open spec fn lin_pixel_byte(
    src: Seq<u8>,
    sw: int,
    sh: int,
    dw: int,
    dh: int,
    x: int,
    y: int,
    c: int,
) -> u8 {
    let dx = lin_den(dw);
    let dyd = lin_den(dh);
    let fx = lin_frac(x, sw, dw);
    let fy = lin_frac(y, sh, dh);
    let lx = lin_lo(x, sw, dw);
    let ly = lin_lo(y, sh, dh);
    let hx = clamp_coord(lx + 1, sw);
    let hy = clamp_coord(ly + 1, sh);
    let vll = spec_pixel(src, sw, sh, lx, ly)[c];
    let vhl = spec_pixel(src, sw, sh, hx, ly)[c];
    let vlh = spec_pixel(src, sw, sh, lx, hy)[c];
    let vhh = spec_pixel(src, sw, sh, hx, hy)[c];
    lin_mix(vll as int, vhl as int, vlh as int, vhh as int, fx, dx, fy, dyd) as u8
}

/// Byte `i` of the buffer produced by bilinear interpolation.
pub open spec fn lin_byte(src: Seq<u8>, sw: int, sh: int, dw: int, dh: int, i: int) -> u8 {
    let p = i / 4;
    lin_pixel_byte(src, sw, sh, dw, dh, p % dw, p / dw, i % 4)
}

/// The buffer produced by bilinear interpolation to `dw` by `dh`.
pub open spec fn spec_scale_linear(src: Seq<u8>, sw: int, sh: int, dw: int, dh: int) -> Seq<u8> {
    Seq::new((dw * dh * 4) as nat, |i: int| lin_byte(src, sw, sh, dw, dh, i))
}

/// The four bilinear area weights add up to the full denominator.
proof fn lemma_lin_weights(dx: int, fx: int, dy: int, fy: int)
    requires
        0 <= fx <= dx,
        0 <= fy <= dy,
    ensures
        (dx - fx) * (dy - fy) + fx * (dy - fy) + (dx - fx) * fy + fx * fy == dx * dy,
        (dx - fx) * (dy - fy) >= 0,
        fx * (dy - fy) >= 0,
        (dx - fx) * fy >= 0,
        fx * fy >= 0,
{
    assert((dx - fx) * (dy - fy) + fx * (dy - fy) + (dx - fx) * fy + fx * fy == dx * dy)
        by (nonlinear_arith);
    lemma_mul_nonnegative(dx - fx, dy - fy);
    lemma_mul_nonnegative(fx, dy - fy);
    lemma_mul_nonnegative(dx - fx, fy);
    lemma_mul_nonnegative(fx, fy);
}

/// Computes the axis mapping of the bilinear kernel: whole part,
/// fractional numerator, and denominator.
fn lin_axis(x: u32, s: u32, d: u32) -> (r: (u64, u64, u64))
    requires
        1 <= d,
        x < d,
    ensures
        r.0 == lin_lo(x as int, s as int, d as int),
        r.1 == lin_frac(x as int, s as int, d as int),
        r.2 == lin_den(d as int),
        r.0 <= u32::MAX,
        r.1 < r.2,
        1 <= r.2 <= 0x2_0000_0000,
{
    if d <= 1 {
        proof {
            vstd::arithmetic::div_mod::lemma_basic_div(0, 1);
            vstd::arithmetic::div_mod::lemma_small_mod(0, 1);
        }
        return (0, 0, 1);
    }
    let den: u64 = 2 * (d as u64 - 1);
    proof {
        lemma_mul_le(2 * x as int, 2 * u32::MAX as int, s as int, u32::MAX as int);
    }
    let nraw: u128 = 2 * (x as u128) * (s as u128);
    let m: u128 = (d - 1) as u128;
    let num: u128 = if nraw <= m {
        0
    } else {
        nraw - m
    };
    proof {
        vstd::arithmetic::div_mod::lemma_mod_division_less_than_divisor(
            num as int,
            den as int,
        );
        lemma_div_pos_is_pos(num as int, den as int);
        if s >= 1 {
            if nraw <= m {
                vstd::arithmetic::mul::lemma_mul_strictly_positive(den as int, s as int);
            } else {
                assert((num as int) < (den as int) * (s as int)) by (nonlinear_arith)
                    requires
                        num as int == 2 * (x as int) * (s as int) - (d as int - 1),
                        den as int == 2 * (d as int - 1),
                        (x as int) < d as int,
                        1 <= s,
                        2 <= d,
                ;
            }
            lemma_multiply_divide_lt(num as int, den as int, s as int);
        } else {
            assert(nraw == 0) by (nonlinear_arith)
                requires
                    nraw == 2 * (x as int) * (s as int),
                    s == 0,
            ;
            vstd::arithmetic::div_mod::lemma_div_of0(den as int);
            vstd::arithmetic::div_mod::lemma_small_mod(0, den as nat);
        }
    }
    let lo: u64 = (num / den as u128) as u64;
    let fr: u64 = (num % den as u128) as u64;
    (lo, fr, den)
}

/// Clamps a possibly negative source coordinate into the extent `s`.
fn clamp_exec(v: i128, s: u32) -> (r: u32)
    requires
        -0x80_0000_0000_0000_0000 <= v <= 0x80_0000_0000_0000_0000,
    ensures
        r == clamp_coord(v as int, s as int),
{
    if v < 0 {
        0
    } else if s >= 1 {
        if v <= s as i128 - 1 {
            v as u32
        } else {
            s - 1
        }
    } else {
        0
    }
}

/// One channel of the bilinear blend, computed exactly over `u128`.
fn lin_blend_channel(a: u8, b: u8, c: u8, d: u8, fx: u64, dx: u64, fy: u64, dy: u64) -> (r: u8)
    requires
        fx < dx,
        fy < dy,
        1 <= dx <= 0x2_0000_0000,
        1 <= dy <= 0x2_0000_0000,
    ensures
        r == lin_mix(a as int, b as int, c as int, d as int, fx as int, dx as int, fy as int,
            dy as int) as u8,
        r == lin_mix(a as int, b as int, c as int, d as int, fx as int, dx as int, fy as int,
            dy as int),
{
    proof {
        lemma_lin_weights(dx as int, fx as int, dy as int, fy as int);
        lemma_mul_le(dx as int - fx as int, 0x2_0000_0000, dy as int - fy as int, 0x2_0000_0000);
        lemma_mul_le(fx as int, 0x2_0000_0000, dy as int - fy as int, 0x2_0000_0000);
        lemma_mul_le(dx as int - fx as int, 0x2_0000_0000, fy as int, 0x2_0000_0000);
        lemma_mul_le(fx as int, 0x2_0000_0000, fy as int, 0x2_0000_0000);
        lemma_mul_le(dx as int, 0x2_0000_0000, dy as int, 0x2_0000_0000);
        let w1 = (dx as int - fx as int) * (dy as int - fy as int);
        let w2 = fx as int * (dy as int - fy as int);
        let w3 = (dx as int - fx as int) * fy as int;
        let w4 = fx as int * fy as int;
        lemma_mul_le(a as int, 255, w1, w1);
        lemma_mul_le(b as int, 255, w2, w2);
        lemma_mul_le(c as int, 255, w3, w3);
        lemma_mul_le(d as int, 255, w4, w4);
        lemma_mul_inequality(a as int, 255, w1);
        lemma_mul_inequality(b as int, 255, w2);
        lemma_mul_inequality(c as int, 255, w3);
        lemma_mul_inequality(d as int, 255, w4);
        assert(255 * w1 + 255 * w2 + 255 * w3 + 255 * w4 == 255 * (w1 + w2 + w3 + w4))
            by (nonlinear_arith);
        vstd::arithmetic::mul::lemma_mul_strictly_positive(dx as int, dy as int);
        lemma_avg_in_byte_range(
            a as int * w1 + b as int * w2 + c as int * w3 + d as int * w4,
            dx as int * dy as int,
        );
        lemma_mul_nonnegative(a as int, w1);
        lemma_mul_nonnegative(b as int, w2);
        lemma_mul_nonnegative(c as int, w3);
        lemma_mul_nonnegative(d as int, w4);
    }
    let num: u128 = a as u128 * ((dx as u128 - fx as u128) * (dy as u128 - fy as u128)) + b
        as u128 * (fx as u128 * (dy as u128 - fy as u128)) + c as u128 * ((dx as u128 - fx
        as u128) * fy as u128) + d as u128 * (fx as u128 * fy as u128);
    let q: u128 = num / (dx as u128 * dy as u128);
    q as u8
}

/// Computes one destination pixel of the bilinear kernel.
fn linear_pixel(info: &ImageInfo, ib: &[u8], x: u32, y: u32, dw: u32, dh: u32) -> (r: [u8; 4])
    requires
        1 <= dw,
        1 <= dh,
        x < dw,
        y < dh,
    ensures
        forall|c: int|
            0 <= c < 4 ==> r@[c] == lin_pixel_byte(
                ib@,
                info.width as int,
                info.height as int,
                dw as int,
                dh as int,
                x as int,
                y as int,
                c,
            ),
{
    let sw = info.width;
    let sh = info.height;
    let (lx, fx, denx) = lin_axis(x, sw, dw);
    let (ly, fy, deny) = lin_axis(y, sh, dh);
    let hx = clamp_exec(lx as i128 + 1, sw);
    let hy = clamp_exec(ly as i128 + 1, sh);
    proof {
        assert(clamp_coord(lin_lo(x as int, sw as int, dw as int) + 1, sw as int) <= u32::MAX);
    }
    let vll = info.get_pixel(lx as u32, ly as u32, ib);
    let vhl = info.get_pixel(hx, ly as u32, ib);
    let vlh = info.get_pixel(lx as u32, hy, ib);
    let vhh = info.get_pixel(hx, hy, ib);
    let r = [
        lin_blend_channel(vll[0], vhl[0], vlh[0], vhh[0], fx, denx, fy, deny),
        lin_blend_channel(vll[1], vhl[1], vlh[1], vhh[1], fx, denx, fy, deny),
        lin_blend_channel(vll[2], vhl[2], vlh[2], vhh[2], fx, denx, fy, deny),
        lin_blend_channel(vll[3], vhl[3], vlh[3], vhh[3], fx, denx, fy, deny),
    ];
    assert(forall|c: int|
        0 <= c < 4 ==> r@[c] == lin_pixel_byte(
            ib@,
            info.width as int,
            info.height as int,
            dw as int,
            dh as int,
            x as int,
            y as int,
            c,
        ));
    r
}

/// Appends the bilinear interpolation of `ib` to `ob`, producing a `width`
/// by `height` image.
pub fn scale_linear(info: &ImageInfo, ib: &[u8], ob: &mut Vec<u8>, width: u32, height: u32)
    ensures
        final(ob)@ == old(ob)@ + spec_scale_linear(
            ib@,
            info.width as int,
            info.height as int,
            width as int,
            height as int,
        ),
{
    let ghost base = ob@.len() as int;
    let ghost src = ib@;
    let mut dy: u32 = 0;
    while dy < height
        invariant
            src == ib@,
            dy <= height,
            ob@.len() == base + (dy as int * width as int) * 4,
            0 <= base,
            forall|i: int| 0 <= i < base ==> ob@[i] == old(ob)@[i],
            base == old(ob)@.len(),
            forall|j: int|
                0 <= j < ob@.len() - base ==> ob@[base + j] == lin_byte(
                    src,
                    info.width as int,
                    info.height as int,
                    width as int,
                    height as int,
                    j,
                ),
        decreases height - dy,
    {
        let mut dx: u32 = 0;
        while dx < width
            invariant
                src == ib@,
                dy < height,
                dx <= width,
                ob@.len() == base + (dy as int * width as int + dx as int) * 4,
                0 <= base,
                forall|i: int| 0 <= i < base ==> ob@[i] == old(ob)@[i],
                base == old(ob)@.len(),
                forall|j: int|
                    0 <= j < ob@.len() - base ==> ob@[base + j] == lin_byte(
                        src,
                        info.width as int,
                        info.height as int,
                        width as int,
                        height as int,
                        j,
                    ),
            decreases width - dx,
        {
            let pix = linear_pixel(info, ib, dx, dy, width, height);
            ob.push(pix[0]);
            ob.push(pix[1]);
            ob.push(pix[2]);
            ob.push(pix[3]);
            proof {
                let p = dy as int * width as int + dx as int;
                lemma_div_mod_split(dy as int, dx as int, width as int);
                lemma_div_mod_split(p, 0, 4);
                lemma_div_mod_split(p, 1, 4);
                lemma_div_mod_split(p, 2, 4);
                lemma_div_mod_split(p, 3, 4);
                assert(forall|j: int|
                    p * 4 <= j < p * 4 + 4 ==> ob@[base + j] == lin_byte(
                        src,
                        info.width as int,
                        info.height as int,
                        width as int,
                        height as int,
                        j,
                    ));
            }
            dx += 1;
        }
        proof {
            assert((dy as int + 1) * width as int == dy as int * width as int + width as int)
                by (nonlinear_arith);
        }
        dy += 1;
    }
    proof {
        assert(height as int * width as int == width as int * height as int) by (nonlinear_arith);
        assert(ob@ =~= old(ob)@ + spec_scale_linear(
            src,
            info.width as int,
            info.height as int,
            width as int,
            height as int,
        ));
    }
}


/// Numerator of the shifted bicubic source coordinate of destination
/// index `x`: `2 * x * s - (d - 1)`, which may be negative (the bicubic
/// kernel does not clamp the shifted point at zero).
pub open spec fn cub_num(x: int, s: int, d: int) -> int {
    if d <= 1 {
        0
    } else {
        2 * x * s - (d - 1)
    }
}

/// Whole (floor) part of the shifted bicubic source coordinate.
pub open spec fn cub_lo(x: int, s: int, d: int) -> int {
    cub_num(x, s, d) / lin_den(d)
}

/// Fractional part of the shifted bicubic source coordinate, as a 16-bit
/// fixed-point value in `[0, 65536)`.
pub open spec fn cub_t16(x: int, s: int, d: int) -> int {
    (cub_num(x, s, d) % lin_den(d)) * 65536 / lin_den(d)
}

/// Numerator of the Catmull-Rom cubic Hermite convolution of four taps at
/// parameter `t / 65536`, over the denominator `2 * 65536^3`.
pub open spec fn hermite_num(a: int, b: int, c: int, d: int, t: int) -> int {
    (-a + 3 * b - 3 * c + d) * (t * t * t) + (2 * a - 5 * b + 4 * c - d) * (t * t) * 65536 + (c
        - a) * t * (65536 * 65536) + 2 * b * (65536 * 65536 * 65536)
}

/// Scales a second-stage Hermite numerator back to a channel value and
/// clamps it into the byte range, truncating toward zero.
pub open spec fn cub_clamp(q: int) -> u8 {
    if q <= 0 {
        0u8
    } else {
        let v = q / 0x4_0000_0000_0000_0000_0000_0000;
        if v >= 255 {
            255u8
        } else {
            v as u8
        }
    }
}

/// One channel of the bicubic kernel: a Hermite convolution along x for
/// each of the 4 gathered rows, then one along y across the row results.
pub open spec fn cub_mix(
    p00: u8, p10: u8, p20: u8, p30: u8,
    p01: u8, p11: u8, p21: u8, p31: u8,
    p02: u8, p12: u8, p22: u8, p32: u8,
    p03: u8, p13: u8, p23: u8, p33: u8,
    tx: int, ty: int,
) -> u8 {
    let n0 = hermite_num(p00 as int, p10 as int, p20 as int, p30 as int, tx);
    let n1 = hermite_num(p01 as int, p11 as int, p21 as int, p31 as int, tx);
    let n2 = hermite_num(p02 as int, p12 as int, p22 as int, p32 as int, tx);
    let n3 = hermite_num(p03 as int, p13 as int, p23 as int, p33 as int, tx);
    cub_clamp(hermite_num(n0, n1, n2, n3, ty))
}

/// Channel `c` of destination pixel `(x, y)` under bicubic interpolation:
/// the 4 by 4 neighborhood of the shifted source point, each coordinate
/// clamped into range.
pub open spec fn cub_pixel_byte(
    src: Seq<u8>,
    sw: int,
    sh: int,
    dw: int,
    dh: int,
    x: int,
    y: int,
    c: int,
) -> u8 {
    let lx = cub_lo(x, sw, dw);
    let ly = cub_lo(y, sh, dh);
    let tx = cub_t16(x, sw, dw);
    let ty = cub_t16(y, sh, dh);
    let x0 = clamp_coord(lx - 1, sw);
    let x1 = clamp_coord(lx, sw);
    let x2 = clamp_coord(lx + 1, sw);
    let x3 = clamp_coord(lx + 2, sw);
    let y0 = clamp_coord(ly - 1, sh);
    let y1 = clamp_coord(ly, sh);
    let y2 = clamp_coord(ly + 1, sh);
    let y3 = clamp_coord(ly + 2, sh);
    cub_mix(
        spec_pixel(src, sw, sh, x0, y0)[c], spec_pixel(src, sw, sh, x1, y0)[c],
        spec_pixel(src, sw, sh, x2, y0)[c], spec_pixel(src, sw, sh, x3, y0)[c],
        spec_pixel(src, sw, sh, x0, y1)[c], spec_pixel(src, sw, sh, x1, y1)[c],
        spec_pixel(src, sw, sh, x2, y1)[c], spec_pixel(src, sw, sh, x3, y1)[c],
        spec_pixel(src, sw, sh, x0, y2)[c], spec_pixel(src, sw, sh, x1, y2)[c],
        spec_pixel(src, sw, sh, x2, y2)[c], spec_pixel(src, sw, sh, x3, y2)[c],
        spec_pixel(src, sw, sh, x0, y3)[c], spec_pixel(src, sw, sh, x1, y3)[c],
        spec_pixel(src, sw, sh, x2, y3)[c], spec_pixel(src, sw, sh, x3, y3)[c],
        tx, ty,
    )
}

/// Byte `i` of the buffer produced by bicubic interpolation.
pub open spec fn cub_byte(src: Seq<u8>, sw: int, sh: int, dw: int, dh: int, i: int) -> u8 {
    let p = i / 4;
    cub_pixel_byte(src, sw, sh, dw, dh, p % dw, p / dw, i % 4)
}

/// The buffer produced by bicubic interpolation to `dw` by `dh`.
pub open spec fn spec_scale_cubic(src: Seq<u8>, sw: int, sh: int, dw: int, dh: int) -> Seq<u8> {
    Seq::new((dw * dh * 4) as nat, |i: int| cub_byte(src, sw, sh, dw, dh, i))
}

/// Computes a Hermite convolution numerator exactly in `i128`. The ghost
/// bound `m` on the taps gives the bound on the result.
fn hermite_fixed(a: i128, b: i128, c: i128, d: i128, t: i128, Ghost(m): Ghost<int>) -> (r: i128)
    requires
        0 < m <= 0x4000_0000_0000_0000,
        -m <= a as int <= m,
        -m <= b as int <= m,
        -m <= c as int <= m,
        -m <= d as int <= m,
        0 <= t < 65536,
    ensures
        r == hermite_num(a as int, b as int, c as int, d as int, t as int),
        -24 * 0x1_0000_0000_0000 * m <= r as int <= 24 * 0x1_0000_0000_0000 * m,
{
    proof {
        assert(0 <= (t as int) * (t as int) * (t as int) < 0x1_0000_0000_0000
            && 0 <= (t as int) * (t as int) <= 0xFFFF_FFFF) by (nonlinear_arith)
            requires
                0 <= t < 65536,
        ;
        assert((-8 * m) * 0x1_0000_0000_0000 <= (-(a as int) + 3 * (b as int) - 3 * (c as int) + (
        d as int)) * ((t as int) * (t as int) * (t as int)) <= (8 * m) * 0x1_0000_0000_0000)
            by (nonlinear_arith)
            requires
                -m <= a as int <= m,
                -m <= b as int <= m,
                -m <= c as int <= m,
                -m <= d as int <= m,
                0 < m,
                0 <= (t as int) * (t as int) * (t as int) < 0x1_0000_0000_0000,
        ;
        assert((-12 * m) * 0x1_0000_0000_0000 <= (2 * (a as int) - 5 * (b as int) + 4 * (c as int)
            - (d as int)) * ((t as int) * (t as int)) * 65536 <= (12 * m) * 0x1_0000_0000_0000
            && (-12 * m) * 0xFFFF_FFFF <= (2 * (a as int) - 5 * (b as int) + 4 * (c as int) - (
        d as int)) * ((t as int) * (t as int)) <= (12 * m) * 0xFFFF_FFFF) by (nonlinear_arith)
            requires
                -m <= a as int <= m,
                -m <= b as int <= m,
                -m <= c as int <= m,
                -m <= d as int <= m,
                0 < m,
                0 <= (t as int) * (t as int) <= 0xFFFF_FFFF,
        ;
        assert((-2 * m) * 0x1_0000_0000_0000 <= ((c as int) - (a as int)) * (t as int) * (65536
            * 65536) <= (2 * m) * 0x1_0000_0000_0000 && (-2 * m) * 65536 <= ((c as int) - (
        a as int)) * (t as int) <= (2 * m) * 65536 && (-2 * m) * 0x1_0000_0000_0000 <= 2 * (
        b as int) * (65536 * 65536 * 65536) <= (2 * m) * 0x1_0000_0000_0000)
            by (nonlinear_arith)
            requires
                -m <= a as int <= m,
                -m <= b as int <= m,
                -m <= c as int <= m,
                0 < m,
                0 <= t < 65536,
        ;
        assert((-24 * m) * 0x1_0000_0000_0000 == -24 * 0x1_0000_0000_0000 * m && (24 * m)
            * 0x1_0000_0000_0000 == 24 * 0x1_0000_0000_0000 * m) by (nonlinear_arith);
    }
    let t3: i128 = t * t * t;
    let t2: i128 = t * t;
    (-a + 3 * b - 3 * c + d) * t3 + (2 * a - 5 * b + 4 * c - d) * t2 * 65536 + (c - a) * t * (
    65536 * 65536) + 2 * b * (65536 * 65536 * 65536)
}

/// Floor division of a possibly negative numerator by a positive divisor.
fn floor_div_i128(n: i128, d: i128) -> (q: i128)
    requires
        1 <= d <= 0x2_0000_0000,
        -0x80_0000_0000_0000_0000 <= n <= 0x80_0000_0000_0000_0000,
    ensures
        q == n as int / d as int,
{
    if n >= 0 {
        let m: u128 = n as u128;
        (m / d as u128) as i128
    } else {
        proof {
            let qq = n as int / d as int;
            let rr = n as int % d as int;
            vstd::arithmetic::div_mod::lemma_fundamental_div_mod(n as int, d as int);
            vstd::arithmetic::div_mod::lemma_mod_division_less_than_divisor(n as int, d as int);
            vstd::arithmetic::mul::lemma_mul_unary_negation(d as int, qq);
            vstd::arithmetic::div_mod::lemma_div_pos_is_pos(-(n as int), d as int);
            // bound the magnitude of the quotient so the negation fits
            vstd::arithmetic::div_mod::lemma_div_nonincreasing(
                -(n as int) + d as int - 1,
                d as int,
            );
            assert((d as int) * (-qq) == -((d as int) * qq)) by (nonlinear_arith);
            if rr == 0 {
                vstd::arithmetic::div_mod::lemma_div_multiples_vanish_fancy(
                    -qq,
                    d as int - 1,
                    d as int,
                );
            } else {
                vstd::arithmetic::div_mod::lemma_div_multiples_vanish_fancy(
                    -qq,
                    d as int - rr - 1,
                    d as int,
                );
            }
        }
        let m: u128 = (-n) as u128;
        let mag: u128 = (m + d as u128 - 1) / d as u128;
        -(mag as i128)
    }
}

/// Computes the axis mapping of the bicubic kernel: floor coordinate and
/// 16-bit fixed-point fraction.
fn cub_axis(x: u32, s: u32, d: u32) -> (r: (i128, i128))
    requires
        1 <= d,
        x < d,
    ensures
        r.0 == cub_lo(x as int, s as int, d as int),
        r.1 == cub_t16(x as int, s as int, d as int),
        -1 <= r.0 <= s,
        0 <= r.1 < 65536,
{
    if d <= 1 {
        proof {
            vstd::arithmetic::div_mod::lemma_basic_div(0, 1);
            vstd::arithmetic::div_mod::lemma_small_mod(0, 1);
        }
        return (0, 0);
    }
    let den: i128 = 2 * (d as i128 - 1);
    proof {
        lemma_mul_le(2 * x as int, 2 * u32::MAX as int, s as int, u32::MAX as int);
    }
    let num: i128 = 2 * (x as i128) * (s as i128) - (d as i128 - 1);
    let lo: i128 = floor_div_i128(num, den);
    proof {
        vstd::arithmetic::div_mod::lemma_fundamental_div_mod(num as int, den as int);
        vstd::arithmetic::div_mod::lemma_mod_division_less_than_divisor(num as int, den as int);
        // -1 <= lo <= s
        vstd::arithmetic::div_mod::lemma_div_is_ordered(-(den as int), num as int, den as int);
        assert(-(den as int) / den as int == -1) by {
            vstd::arithmetic::div_mod::lemma_div_multiples_vanish_fancy(-1, 0, den as int);
            assert((den as int) * -1 == -(den as int)) by (nonlinear_arith);
        }
        assert(num as int <= (den as int) * (s as int)) by (nonlinear_arith)
            requires
                num as int == 2 * (x as int) * (s as int) - (d as int - 1),
                den as int == 2 * (d as int - 1),
                (x as int) < d as int,
                2 <= d,
                0 <= s,
        ;
        vstd::arithmetic::div_mod::lemma_div_is_ordered(
            num as int,
            (den as int) * (s as int),
            den as int,
        );
        vstd::arithmetic::mul::lemma_mul_is_commutative(den as int, s as int);
        vstd::arithmetic::div_mod::lemma_div_by_multiple(s as int, den as int);
    }
    proof {
        assert(-(den as int) <= (lo as int) * (den as int) <= 0x1_0000_0000 * (den as int))
            by (nonlinear_arith)
            requires
                -1 <= lo as int <= 0x1_0000_0000,
                1 <= den as int,
        ;
    }
    let rem: i128 = num - lo * den;
    proof {
        vstd::arithmetic::mul::lemma_mul_is_commutative(den as int, lo as int);
        vstd::arithmetic::div_mod::lemma_mod_division_less_than_divisor(
            (rem as int) * 65536,
            den as int,
        );
        assert((rem as int) * 65536 < (den as int) * 65536) by (nonlinear_arith)
            requires
                0 <= (rem as int) < (den as int),
        ;
        lemma_multiply_divide_lt((rem as int) * 65536, den as int, 65536);
        vstd::arithmetic::mul::lemma_mul_nonnegative(rem as int, 65536);
        vstd::arithmetic::div_mod::lemma_div_pos_is_pos((rem as int) * 65536, den as int);
        lemma_mul_le(rem as int, 0x2_0000_0000, 65536, 65536);
    }
    let t16: i128 = ((rem as u128) * 65536 / den as u128) as i128;
    (lo, t16)
}

/// Computes one destination pixel of the bicubic kernel.
#[verifier::rlimit(60)]
fn cubic_pixel(info: &ImageInfo, ib: &[u8], x: u32, y: u32, dw: u32, dh: u32) -> (r: [u8; 4])
    requires
        1 <= dw,
        1 <= dh,
        x < dw,
        y < dh,
    ensures
        forall|c: int|
            0 <= c < 4 ==> r@[c] == cub_pixel_byte(
                ib@,
                info.width as int,
                info.height as int,
                dw as int,
                dh as int,
                x as int,
                y as int,
                c,
            ),
{
    let sw = info.width;
    let sh = info.height;
    let (lx, tx) = cub_axis(x, sw, dw);
    let (ly, ty) = cub_axis(y, sh, dh);
    let x0 = clamp_exec(lx - 1, sw);
    let x1 = clamp_exec(lx, sw);
    let x2 = clamp_exec(lx + 1, sw);
    let x3 = clamp_exec(lx + 2, sw);
    let y0 = clamp_exec(ly - 1, sh);
    let y1 = clamp_exec(ly, sh);
    let y2 = clamp_exec(ly + 1, sh);
    let y3 = clamp_exec(ly + 2, sh);
    let p00 = info.get_pixel(x0, y0, ib);
    let p10 = info.get_pixel(x1, y0, ib);
    let p20 = info.get_pixel(x2, y0, ib);
    let p30 = info.get_pixel(x3, y0, ib);
    let p01 = info.get_pixel(x0, y1, ib);
    let p11 = info.get_pixel(x1, y1, ib);
    let p21 = info.get_pixel(x2, y1, ib);
    let p31 = info.get_pixel(x3, y1, ib);
    let p02 = info.get_pixel(x0, y2, ib);
    let p12 = info.get_pixel(x1, y2, ib);
    let p22 = info.get_pixel(x2, y2, ib);
    let p32 = info.get_pixel(x3, y2, ib);
    let p03 = info.get_pixel(x0, y3, ib);
    let p13 = info.get_pixel(x1, y3, ib);
    let p23 = info.get_pixel(x2, y3, ib);
    let p33 = info.get_pixel(x3, y3, ib);
    let r = [
        cubic_sample(
            p00[0], p10[0], p20[0], p30[0], p01[0], p11[0], p21[0], p31[0],
            p02[0], p12[0], p22[0], p32[0], p03[0], p13[0], p23[0], p33[0], tx, ty),
        cubic_sample(
            p00[1], p10[1], p20[1], p30[1], p01[1], p11[1], p21[1], p31[1],
            p02[1], p12[1], p22[1], p32[1], p03[1], p13[1], p23[1], p33[1], tx, ty),
        cubic_sample(
            p00[2], p10[2], p20[2], p30[2], p01[2], p11[2], p21[2], p31[2],
            p02[2], p12[2], p22[2], p32[2], p03[2], p13[2], p23[2], p33[2], tx, ty),
        cubic_sample(
            p00[3], p10[3], p20[3], p30[3], p01[3], p11[3], p21[3], p31[3],
            p02[3], p12[3], p22[3], p32[3], p03[3], p13[3], p23[3], p33[3], tx, ty),
    ];
    assert(forall|c: int|
        0 <= c < 4 ==> r@[c] == cub_pixel_byte(
            ib@,
            info.width as int,
            info.height as int,
            dw as int,
            dh as int,
            x as int,
            y as int,
            c,
        ));
    r
}

/// One channel of the bicubic kernel over the 16 gathered taps.
fn cubic_sample(
    p00: u8, p10: u8, p20: u8, p30: u8,
    p01: u8, p11: u8, p21: u8, p31: u8,
    p02: u8, p12: u8, p22: u8, p32: u8,
    p03: u8, p13: u8, p23: u8, p33: u8,
    tx: i128, ty: i128,
) -> (r: u8)
    requires
        0 <= tx < 65536,
        0 <= ty < 65536,
    ensures
        r == cub_mix(
            p00, p10, p20, p30, p01, p11, p21, p31, p02, p12, p22, p32, p03, p13, p23, p33,
            tx as int, ty as int),
{
    let n0 = hermite_fixed(p00 as i128, p10 as i128, p20 as i128, p30 as i128, tx, Ghost(255));
    let n1 = hermite_fixed(p01 as i128, p11 as i128, p21 as i128, p31 as i128, tx, Ghost(255));
    let n2 = hermite_fixed(p02 as i128, p12 as i128, p22 as i128, p32 as i128, tx, Ghost(255));
    let n3 = hermite_fixed(p03 as i128, p13 as i128, p23 as i128, p33 as i128, tx, Ghost(255));
    let q = hermite_fixed(n0, n1, n2, n3, ty, Ghost(24int * 0x1_0000_0000_0000 * 255));
    if q <= 0 {
        0
    } else {
        let v: u128 = (q as u128) / 0x4_0000_0000_0000_0000_0000_0000u128;
        if v >= 255 {
            255
        } else {
            proof {
                vstd::arithmetic::div_mod::lemma_div_pos_is_pos(
                    q as int,
                    0x4_0000_0000_0000_0000_0000_0000,
                );
            }
            v as u8
        }
    }
}

/// Appends the bicubic interpolation of `ib` to `ob`, producing a `width`
/// by `height` image.
pub fn scale_cubic(info: &ImageInfo, ib: &[u8], ob: &mut Vec<u8>, width: u32, height: u32)
    ensures
        final(ob)@ == old(ob)@ + spec_scale_cubic(
            ib@,
            info.width as int,
            info.height as int,
            width as int,
            height as int,
        ),
{
    let ghost base = ob@.len() as int;
    let ghost src = ib@;
    let mut dy: u32 = 0;
    while dy < height
        invariant
            src == ib@,
            dy <= height,
            ob@.len() == base + (dy as int * width as int) * 4,
            0 <= base,
            forall|i: int| 0 <= i < base ==> ob@[i] == old(ob)@[i],
            base == old(ob)@.len(),
            forall|j: int|
                0 <= j < ob@.len() - base ==> ob@[base + j] == cub_byte(
                    src,
                    info.width as int,
                    info.height as int,
                    width as int,
                    height as int,
                    j,
                ),
        decreases height - dy,
    {
        let mut dx: u32 = 0;
        while dx < width
            invariant
                src == ib@,
                dy < height,
                dx <= width,
                ob@.len() == base + (dy as int * width as int + dx as int) * 4,
                0 <= base,
                forall|i: int| 0 <= i < base ==> ob@[i] == old(ob)@[i],
                base == old(ob)@.len(),
                forall|j: int|
                    0 <= j < ob@.len() - base ==> ob@[base + j] == cub_byte(
                        src,
                        info.width as int,
                        info.height as int,
                        width as int,
                        height as int,
                        j,
                    ),
            decreases width - dx,
        {
            let pix = cubic_pixel(info, ib, dx, dy, width, height);
            ob.push(pix[0]);
            ob.push(pix[1]);
            ob.push(pix[2]);
            ob.push(pix[3]);
            proof {
                let p = dy as int * width as int + dx as int;
                lemma_div_mod_split(dy as int, dx as int, width as int);
                lemma_div_mod_split(p, 0, 4);
                lemma_div_mod_split(p, 1, 4);
                lemma_div_mod_split(p, 2, 4);
                lemma_div_mod_split(p, 3, 4);
                assert(forall|j: int|
                    p * 4 <= j < p * 4 + 4 ==> ob@[base + j] == cub_byte(
                        src,
                        info.width as int,
                        info.height as int,
                        width as int,
                        height as int,
                        j,
                    ));
            }
            dx += 1;
        }
        proof {
            assert((dy as int + 1) * width as int == dy as int * width as int + width as int)
                by (nonlinear_arith);
        }
        dy += 1;
    }
    proof {
        assert(height as int * width as int == width as int * height as int) by (nonlinear_arith);
        assert(ob@ =~= old(ob)@ + spec_scale_cubic(
            src,
            info.width as int,
            info.height as int,
            width as int,
            height as int,
        ));
    }
}

} // verus!
