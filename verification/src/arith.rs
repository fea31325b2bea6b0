//! Small arithmetic lemmas shared by the buffer and kernel proofs.

use vstd::arithmetic::div_mod::{
    lemma_div_by_multiple, lemma_div_is_ordered, lemma_div_multiples_vanish_fancy,
    lemma_div_pos_is_pos,
};
use vstd::arithmetic::mul::{lemma_mul_inequality, lemma_mul_nonnegative};
use vstd::prelude::*;

verus! {

/// A product of nonnegative factors is bounded by the product of bounds.
pub proof fn lemma_mul_le(a: int, ab: int, b: int, bb: int)
    requires
        0 <= a <= ab,
        0 <= b <= bb,
    ensures
        a * b <= ab * bb,
{
    assert(a * b <= ab * bb) by (nonlinear_arith)
        requires
            0 <= a <= ab,
            0 <= b <= bb,
    ;
}

/// Exact quotient of a multiple of the divisor plus a small remainder.
pub proof fn lemma_div_exact(q: int, r: int, d: int)
    requires
        0 < d,
        0 <= r < d,
    ensures
        (d * q + r) / d == q,
{
    lemma_div_multiples_vanish_fancy(q, r, d);
}

/// Quotient and remainder of `q * d + r` when `r` is already reduced.
pub proof fn lemma_div_mod_split(q: int, r: int, d: int)
    requires
        0 < d,
        0 <= q,
        0 <= r < d,
    ensures
        (q * d + r) / d == q,
        (q * d + r) % d == r,
{
    vstd::arithmetic::mul::lemma_mul_is_commutative(q, d);
    lemma_div_multiples_vanish_fancy(q, r, d);
    vstd::arithmetic::div_mod::lemma_fundamental_div_mod(q * d + r, d);
}

/// The flat byte offset of an in-range pixel lies inside the buffer of a
/// `w` by `h` image.
pub proof fn lemma_pixel_in_bounds(px: int, py: int, w: int, h: int)
    requires
        0 <= px < w,
        0 <= py < h,
    ensures
        0 <= (px + py * w) * 4,
        (px + py * w) * 4 + 4 <= w * h * 4,
{
    assert((px + py * w) * 4 >= 0 && (px + py * w) * 4 + 4 <= w * h * 4) by (nonlinear_arith)
        requires
            0 <= px < w,
            0 <= py < h,
    ;
}

/// A source coordinate scaled by `s / d` stays below `s`.
pub proof fn lemma_scaled_coord_bound(x: int, s: int, d: int)
    requires
        0 <= x < d,
        0 < s,
        0 < d,
    ensures
        0 <= x * s / d < s,
{
    assert(x * s < d * s) by (nonlinear_arith)
        requires
            0 <= x < d,
            0 < s,
    ;
    vstd::arithmetic::div_mod::lemma_multiply_divide_lt(x * s, d, s);
    vstd::arithmetic::mul::lemma_mul_nonnegative(x, s);
    vstd::arithmetic::div_mod::lemma_div_pos_is_pos(x * s, d);
}

/// A weighted average of values out of `[0, bound]` stays in `[0, bound]`.
pub proof fn lemma_weighted_avg_le(l: int, r: int, la: int, ra: int, bound: int)
    requires
        0 <= l <= bound,
        0 <= r <= bound,
        0 <= la,
        0 <= ra,
        0 < la + ra,
    ensures
        0 <= (l * la + r * ra) / (la + ra) <= bound,
{
    let sa = la + ra;
    lemma_mul_nonnegative(l, la);
    lemma_mul_nonnegative(r, ra);
    lemma_div_pos_is_pos(l * la + r * ra, sa);
    lemma_mul_inequality(l, bound, la);
    lemma_mul_inequality(r, bound, ra);
    assert(bound * la + bound * ra == bound * (la + ra)) by (nonlinear_arith);
    lemma_div_is_ordered(l * la + r * ra, bound * sa, sa);
    lemma_div_by_multiple(bound, sa);
    assert(bound * sa / sa == bound);
}

} // verus!
