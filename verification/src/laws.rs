//! The engine's cross-operation laws, stated over the model transitions
//! that the operations' own contracts use, and proved once and for all.

use crate::arith::lemma_div_mod_split;
use crate::codec::{expand_alpha, rgb_of};
use crate::color::{grayscale_transition, poster_entry, GrayScaleMode};
use crate::geometry::{crop_byte, crop_transition, scale_transition, spec_crop, ScaleMode};
use crate::image::spec_blend;
use crate::session::{alpha_at, derived_transparency, StoreModel};
use vstd::arithmetic::div_mod::{
    lemma_div_is_ordered, lemma_div_pos_is_pos, lemma_fundamental_div_mod,
    lemma_mod_division_less_than_divisor,
};
use vstd::arithmetic::mul::lemma_mul_left_inequality;
use vstd::prelude::*;

verus! {

/// One editing step of the live image, as the operations' contracts model
/// it; none of these touches the snapshot slot.
pub enum EditOp {
    Crop(u32, u32, u32, u32),
    Scale(u32, u32, ScaleMode),
    Gray(GrayScaleMode),
}

/// The model transition of one editing step.
pub open spec fn apply_edit(s: StoreModel, op: EditOp) -> StoreModel {
    match op {
        EditOp::Crop(x, y, w, h) => crop_transition(s, x, y, w, h),
        EditOp::Scale(w, h, m) => scale_transition(s, w, h, m),
        EditOp::Gray(m) => grayscale_transition(s, m),
    }
}

/// The model transition of a whole chain of editing steps.
pub open spec fn apply_edits(s: StoreModel, ops: Seq<EditOp>) -> StoreModel
    decreases ops.len(),
{
    if ops.len() == 0 {
        s
    } else {
        apply_edits(apply_edit(s, ops[0]), ops.drop_first())
    }
}

/// The model transition of `snapshot_restore`: the checkpoint replaces
/// the live image and the call reports whether one was held.
pub open spec fn restore_transition(store: StoreModel, snapshot: Option<StoreModel>) -> (
    StoreModel,
    bool,
) {
    match snapshot {
        Some(c) => (c, true),
        None => (store, false),
    }
}

/// A buffer freshly loaded from raw bytes reports an alpha channel
/// exactly when some pixel's alpha byte is not 255. `set_image_buffer`
/// commits `derived_transparency` over the loaded pixels, so this pins
/// the meaning of `image_has_alpha` after a raw load.
pub proof fn lemma_raw_load_alpha_flag(data: Seq<u8>, pixels: int)
    ensures
        (derived_transparency(data, pixels) is Translucent) <==> exists|j: int|
            0 <= j < pixels && alpha_at(data, j) != 255,
{
}

/// A stream known to carry a decodable image -- as `encode` guarantees of
/// every QOI stream it emits -- is accepted by `decode`, which commits
/// exactly the encoded header and pixels. Together with the contracts of
/// `encode` and `decode` this states the encode-then-decode round trip:
/// for a translucent image the committed buffer is the encoded pixel
/// bytes unchanged.
pub proof fn lemma_qoi_round_trip_decodes(w: u32, h: u32, alpha: bool, px: Seq<u8>, bytes: Seq<u8>)
    requires
        1 <= w,
        1 <= h,
        px.len() == w as int * h as int * (if alpha {
            4int
        } else {
            3int
        }),
        w as int * h as int * 4 <= usize::MAX,
        crate::codec::qoi_decoding(bytes) == Some((w, h, alpha, px)),
    ensures
        crate::codec::decode_accepted(bytes),
        crate::codec::decoded_info(bytes) == (crate::image::ImageInfo {
            width: w,
            height: h,
            is_grayscale: false,
            transparency: if alpha {
                crate::image::Transparency::Translucent
            } else {
                crate::image::Transparency::Opaque
            },
        }),
        crate::codec::decoded_data(bytes) == (if alpha {
            px
        } else {
            expand_alpha(px)
        }),
{
}

/// The opaque half of the encode-then-decode round trip: a fully opaque
/// image encodes to a 3-channel stream, and decoding that stream commits
/// the image byte for byte, every alpha byte back at 255.
pub proof fn lemma_qoi_round_trip_opaque(w: u32, h: u32, buffer: Seq<u8>, bytes: Seq<u8>)
    requires
        1 <= w,
        1 <= h,
        buffer.len() == w as int * h as int * 4,
        w as int * h as int * 4 <= usize::MAX,
        forall|j: int| 0 <= j < w as int * h as int ==> alpha_at(buffer, j) == 255,
        crate::codec::qoi_decoding(bytes) == Some((w, h, false, rgb_of(buffer))),
    ensures
        crate::codec::decode_accepted(bytes),
        crate::codec::decoded_data(bytes) == buffer,
        crate::codec::decoded_info(bytes).width == w,
        crate::codec::decoded_info(bytes).height == h,
        crate::codec::decoded_info(bytes).transparency is Opaque,
{
    lemma_div_mod_split(w as int * h as int, 0, 4);
    lemma_qoi_round_trip_decodes(w, h, false, rgb_of(buffer), bytes);
    lemma_opaque_round_trip(buffer, w as int * h as int);
}

/// Stripping the alpha channel of a fully opaque RGBA8 buffer and
/// expanding the result back to RGBA8 reproduces the buffer byte for
/// byte. With the codec round trip assumed of the QOI crate, this is the
/// verified half of the encode-then-decode law for opaque images; for
/// translucent images the pixel bytes travel verbatim.
pub proof fn lemma_opaque_round_trip(px: Seq<u8>, n: int)
    requires
        0 <= n,
        px.len() == n * 4,
        forall|j: int| 0 <= j < n ==> alpha_at(px, j) == 255,
    ensures
        expand_alpha(rgb_of(px)) == px,
{
    lemma_div_mod_split(n, 0, 4);
    lemma_div_mod_split(3 * n, 0, 3);
    assert(rgb_of(px).len() == 3 * n);
    assert(expand_alpha(rgb_of(px)).len() == n * 4);
    assert forall|i: int| 0 <= i < n * 4 implies expand_alpha(rgb_of(px))[i] == px[i] by {
        let p = i / 4;
        let c = i % 4;
        lemma_fundamental_div_mod(i, 4);
        lemma_div_pos_is_pos(i, 4);
        lemma_mod_division_less_than_divisor(i, 4);
        lemma_div_is_ordered(i, n * 4 - 1, 4);
        lemma_div_mod_split(n, 3, 4);
        assert(p < n) by {
            assert((n * 4 - 1) / 4 == n - 1) by {
                assert(n * 4 - 1 == (n - 1) * 4 + 3) by (nonlinear_arith);
                lemma_div_mod_split(n - 1, 3, 4);
            }
        }
        if c == 3 {
            assert(alpha_at(px, p) == 255);
        } else {
            lemma_div_mod_split(p, c, 3);
            lemma_div_mod_split(p, c, 4);
        }
    }
    assert(expand_alpha(rgb_of(px)) =~= px);
}

/// Cropping the full rectangle of the image copies the buffer byte for
/// byte.
pub proof fn lemma_full_crop_identity(src: Seq<u8>, w: int, h: int)
    requires
        0 <= w,
        0 <= h,
        src.len() == w * h * 4,
    ensures
        spec_crop(src, w, 0, 0, w, h) == src,
{
    assert forall|i: int| 0 <= i < src.len() implies crop_byte(src, w, 0, 0, w, i) == src[i] by {
        let p = i / 4;
        let c = i % 4;
        lemma_fundamental_div_mod(i, 4);
        lemma_div_pos_is_pos(i, 4);
        lemma_mod_division_less_than_divisor(i, 4);
        lemma_fundamental_div_mod(p, w);
        lemma_mod_division_less_than_divisor(p, w);
        lemma_div_pos_is_pos(p, w);
        assert(((p % w) + (p / w) * w) * 4 + c == i) by (nonlinear_arith)
            requires
                p == w * (p / w) + p % w,
                i == 4 * p + c,
        ;
    }
    assert(spec_crop(src, w, 0, 0, w, h) =~= src);
}

/// Every quantization table entry is a byte value.
pub proof fn lemma_poster_entry_bound(levels: int, i: int)
    requires
        2 <= levels,
        0 <= i < 256,
    ensures
        0 <= poster_entry(levels, i) <= 255,
        crate::color::poster_table(levels)[i] == poster_entry(levels, i),
{
    assert(levels * i < levels * 256) by (nonlinear_arith)
        requires
            0 <= i < 256,
            2 <= levels,
    ;
    vstd::arithmetic::mul::lemma_mul_nonnegative(levels, i);
    vstd::arithmetic::div_mod::lemma_div_pos_is_pos(levels * i, 256);
    vstd::arithmetic::mul::lemma_mul_is_commutative(levels, 256);
    vstd::arithmetic::div_mod::lemma_multiply_divide_lt(levels * i, 256, levels);
    let q = levels * i / 256;
    vstd::arithmetic::div_mod::lemma_div_pos_is_pos(255 * q + (levels - 2), levels - 1);
    lemma_div_is_ordered(255 * q + (levels - 2), (levels - 1) * 255 + (levels - 2), levels - 1);
    lemma_div_mod_split(255, levels - 2, levels - 1);
}

/// With 2 levels per channel the quantization table maps every input byte
/// to the table's extreme entries, 0 or 255.
pub proof fn lemma_poster_table_two_levels(i: int)
    requires
        0 <= i < 256,
    ensures
        crate::color::poster_table(2)[i] == 0 || crate::color::poster_table(2)[i] == 255,
        i < 128 ==> crate::color::poster_table(2)[i] == 0,
        i >= 128 ==> crate::color::poster_table(2)[i] == 255,
{
    lemma_poster_entry_bound(2, i);
    lemma_div_mod_split(255 * (2 * i / 256), 0, 1);
    if i < 128 {
        vstd::arithmetic::div_mod::lemma_basic_div(2 * i, 256);
    } else {
        lemma_div_mod_split(1, 2 * i - 256, 256);
    }
}

/// Each quantization table is monotonically non-decreasing in the input
/// byte.
pub proof fn lemma_poster_table_monotone(levels: int, i: int, j: int)
    requires
        2 <= levels,
        0 <= i <= j < 256,
    ensures
        poster_entry(levels, i) <= poster_entry(levels, j),
        crate::color::poster_table(levels)[i] <= crate::color::poster_table(levels)[j],
{
    lemma_mul_left_inequality(levels, i, j);
    lemma_div_is_ordered(levels * i, levels * j, 256);
    let qi = levels * i / 256;
    let qj = levels * j / 256;
    lemma_div_is_ordered(255 * qi + (levels - 2), 255 * qj + (levels - 2), levels - 1);
    lemma_poster_entry_bound(levels, i);
    lemma_poster_entry_bound(levels, j);
}

/// The grayscale conversion is idempotent: a second call, under any
/// model, leaves the image exactly as the first call left it.
pub proof fn lemma_grayscale_idempotent(s: StoreModel, m1: GrayScaleMode, m2: GrayScaleMode)
    ensures
        grayscale_transition(grayscale_transition(s, m1), m2) == grayscale_transition(s, m1),
{
}

/// The snapshot checkpoint survives any chain of edits: every editing
/// step acts on the live image alone (each operation's contract keeps
/// the snapshot fields unchanged), so restoring after the chain brings
/// back exactly the image that was saved.
pub proof fn lemma_checkpoint_round_trip(s0: StoreModel, ops: Seq<EditOp>)
    ensures
        restore_transition(apply_edits(s0, ops), Some(s0)) == (s0, true),
        restore_transition(apply_edits(s0, ops), Some(s0)).0 == s0,
{
}

/// Compositing onto an opaque background yields an opaque pixel: the
/// blended alpha byte is always 255.
pub proof fn lemma_blend_opaque_background(lhs: Seq<u8>, rhs: Seq<u8>)
    requires
        lhs.len() == 4,
        rhs.len() == 4,
        lhs[3] == 255,
    ensures
        spec_blend(lhs, rhs)[3] == 255,
{
    let ra = rhs[3] as int;
    if ra != 255 && ra != 0 {
        assert(255 * (256 - ra) == 256 * (255 - ra) + ra);
        lemma_div_mod_split(255 - ra, ra, 256);
    }
}

/// Flattening a buffer onto an opaque background makes every pixel's
/// alpha byte 255; the color bytes are the documented integer blend.
pub proof fn lemma_flatten_all_opaque(data: Seq<u8>, bg: Seq<u8>)
    requires
        bg.len() == 4,
        bg[3] == 255,
    ensures
        forall|i: int|
            0 <= i < data.len() && i % 4 == 3 ==> crate::color::spec_flatten(data, bg)[i] == 255,
{
    assert forall|i: int|
        0 <= i < data.len() && i % 4 == 3 implies crate::color::spec_flatten(data, bg)[i]
        == 255 by {
        let p = i / 4;
        lemma_blend_opaque_background(
            bg,
            seq![data[p * 4], data[p * 4 + 1], data[p * 4 + 2], data[p * 4 + 3]],
        );
    }
}

} // verus!
