//! Recoloring of the live image: grayscale conversion, the
//! luminance-weighted darkness test, and background compositing.

use crate::image::{spec_blend, spec_luminance, ImageInfo, Transparency};
use crate::session::EditorSession;
use vstd::prelude::*;

verus! {

/// The three luminance models of the grayscale conversion.
#[derive(Debug, Clone, Copy, PartialEq, Eq, Structural)]
pub enum GrayScaleMode {
    Average,
    Brightness,
    Luminance,
}

/// The single gray value that replaces the three color channels of a
/// pixel under the given model.
pub open spec fn gray_value(mode: GrayScaleMode, r: u8, g: u8, b: u8) -> u8 {
    match mode {
        GrayScaleMode::Average => ((r + g + b) / 3) as u8,
        GrayScaleMode::Brightness => {
            let m = if r >= g {
                r
            } else {
                g
            };
            if m >= b {
                m
            } else {
                b
            }
        },
        GrayScaleMode::Luminance => spec_luminance(r, g, b),
    }
}

/// Byte `i` of the grayscale conversion of `data`: alpha bytes survive,
/// color bytes take the pixel's gray value.
pub open spec fn gray_byte(data: Seq<u8>, mode: GrayScaleMode, i: int) -> u8 {
    let p = i / 4;
    if i % 4 == 3 {
        data[i]
    } else {
        gray_value(mode, data[p * 4], data[p * 4 + 1], data[p * 4 + 2])
    }
}

/// The buffer after grayscale conversion.
pub open spec fn spec_grayscale(data: Seq<u8>, mode: GrayScaleMode) -> Seq<u8> {
    Seq::new(data.len(), |i: int| gray_byte(data, mode, i))
}

/// Sum of the luminances of the first `n` pixels whose alpha byte exceeds
/// `ta`.
pub open spec fn lum_sum(data: Seq<u8>, n: int, ta: int) -> int
    decreases n,
{
    if n <= 0 {
        0
    } else {
        lum_sum(data, n - 1, ta) + if data[(n - 1) * 4 + 3] > ta {
            spec_luminance(data[(n - 1) * 4], data[(n - 1) * 4 + 1], data[(n - 1) * 4 + 2]) as int
        } else {
            0
        }
    }
}

/// Sum of `t` over the first `n` pixels whose alpha byte exceeds `ta`.
pub open spec fn thr_sum(data: Seq<u8>, n: int, ta: int, t: int) -> int
    decreases n,
{
    if n <= 0 {
        0
    } else {
        thr_sum(data, n - 1, ta, t) + if data[(n - 1) * 4 + 3] > ta {
            t
        } else {
            0
        }
    }
}

/// The darkness verdict on a buffer of `n` pixels: the seeded luminance
/// sum falls strictly below the seeded threshold sum.
pub open spec fn spec_is_dark(data: Seq<u8>, n: int, iv: int, t: int, ta: int) -> bool {
    iv + lum_sum(data, n, ta) < t + thr_sum(data, n, ta, t)
}

/// The flat background pixel that `make_opaque` composites onto: white
/// for a dark image, black otherwise.
pub open spec fn spec_background(data: Seq<u8>, n: int) -> Seq<u8> {
    if spec_is_dark(data, n, 255, 192, 64) {
        seq![255u8, 255u8, 255u8, 255u8]
    } else {
        seq![0u8, 0u8, 0u8, 255u8]
    }
}

/// Byte `i` of the buffer after compositing every pixel onto `bg`.
pub open spec fn flatten_byte(data: Seq<u8>, bg: Seq<u8>, i: int) -> u8 {
    let p = i / 4;
    spec_blend(bg, seq![data[p * 4], data[p * 4 + 1], data[p * 4 + 2], data[p * 4 + 3]])[i % 4]
}

/// The buffer after compositing onto `bg`.
pub open spec fn spec_flatten(data: Seq<u8>, bg: Seq<u8>) -> Seq<u8> {
    Seq::new(data.len(), |i: int| flatten_byte(data, bg, i))
}

proof fn lemma_lum_sum_bound(data: Seq<u8>, n: int, ta: int)
    requires
        0 <= n,
    ensures
        0 <= lum_sum(data, n, ta) <= 255 * n,
    decreases n,
{
    if n > 0 {
        lemma_lum_sum_bound(data, n - 1, ta);
    }
}

proof fn lemma_thr_sum_bound(data: Seq<u8>, n: int, ta: int, t: int)
    requires
        0 <= n,
        0 <= t <= 255,
    ensures
        0 <= thr_sum(data, n, ta, t) <= 255 * n,
    decreases n,
{
    if n > 0 {
        lemma_thr_sum_bound(data, n - 1, ta, t);
    }
}

/// The effect of `grayscale` on the live image as a model transition:
/// the identity once the grayscale flag is set, else the converted buffer
/// with the flag raised.
pub open spec fn grayscale_transition(
    s: crate::session::StoreModel,
    mode: GrayScaleMode,
) -> crate::session::StoreModel {
    if s.info.is_grayscale {
        s
    } else {
        crate::session::StoreModel {
            info: ImageInfo { is_grayscale: true, ..s.info },
            data: spec_grayscale(s.data, mode),
        }
    }
}

impl EditorSession {
    /// Replaces each pixel's color channels by one gray value of the
    /// chosen model; once the grayscale flag is set, further calls do
    /// nothing (the conversion is idempotent).
    pub fn grayscale(&mut self, mode: GrayScaleMode)
        requires
            old(self).wf(),
        ensures
            final(self).wf(),
            old(self).info.is_grayscale ==> *final(self) == *old(self),
            !old(self).info.is_grayscale ==> final(self).info == (ImageInfo {
                is_grayscale: true,
                ..old(self).info
            }),
            !old(self).info.is_grayscale ==> final(self).buffer@ == spec_grayscale(
                old(self).buffer@,
                mode,
            ),
            final(self).snapshot_info == old(self).snapshot_info,
            final(self).snapshot_buffer == old(self).snapshot_buffer,
            final(self).store() == grayscale_transition(old(self).store(), mode),
    {
        if self.info.is_grayscale {
            return;
        }
        self.info.is_grayscale = true;
        let len = self.buffer.len();
        let npix = len / 4;
        let ghost src = old(self).buffer@;
        let mut p: usize = 0;
        while p < npix
            invariant
                old(self).wf(),
                npix == len / 4,
                len == self.buffer@.len(),
                len == src.len(),
                len == old(self).info.spec_size(),
                p <= npix,
                self.info == (ImageInfo { is_grayscale: true, ..old(self).info }),
                self.snapshot_info == old(self).snapshot_info,
                self.snapshot_buffer == old(self).snapshot_buffer,
                forall|i: int| p * 4 <= i < len ==> self.buffer@[i] == src[i],
                forall|i: int|
                    0 <= i < p * 4 ==> self.buffer@[i] == gray_byte(src, mode, i),
            decreases npix - p,
        {
            proof {
                crate::arith::lemma_div_mod_split(p as int, 0, 4);
                crate::arith::lemma_div_mod_split(p as int, 1, 4);
                crate::arith::lemma_div_mod_split(p as int, 2, 4);
                crate::arith::lemma_div_mod_split(p as int, 3, 4);
            }
            let off = p * 4;
            let r = self.buffer[off];
            let g = self.buffer[off + 1];
            let b = self.buffer[off + 2];
            let gray: u8 = match mode {
                GrayScaleMode::Average => ((r as usize + g as usize + b as usize) / 3) as u8,
                GrayScaleMode::Brightness => {
                    let m = if r >= g {
                        r
                    } else {
                        g
                    };
                    if m >= b {
                        m
                    } else {
                        b
                    }
                },
                GrayScaleMode::Luminance => ((r as usize * 77 + g as usize * 150 + b as usize * 29)
                    / 256) as u8,
            };
            self.buffer[off] = gray;
            self.buffer[off + 1] = gray;
            self.buffer[off + 2] = gray;
            p += 1;
        }
        proof {
            assert(self.buffer@ =~= spec_grayscale(src, mode));
        }
    }

    /// The darkness test: sums the luminance of every pixel whose alpha
    /// byte exceeds `threshold_alpha`, seeded with `iv`, against a running
    /// sum of `threshold_bw` seeded with itself, and reports whether the
    /// luminance side stays strictly smaller.
    pub fn image_is_dark(&self, iv: u8, threshold_bw: u8, threshold_alpha: u8) -> (r: bool)
        requires
            self.wf(),
        ensures
            r == spec_is_dark(
                self.buffer@,
                self.info.spec_pixels(),
                iv as int,
                threshold_bw as int,
                threshold_alpha as int,
            ),
    {
        let len = self.buffer.len();
        let npix = len / 4;
        proof {
            assert(npix == self.info.spec_pixels()) by {
                crate::arith::lemma_div_mod_split(
                    self.info.width as int * self.info.height as int,
                    0,
                    4,
                );
            }
        }
        let mut lhs: u128 = iv as u128;
        let mut rhs: u128 = threshold_bw as u128;
        let mut p: usize = 0;
        while p < npix
            invariant
                self.wf(),
                npix * 4 <= len,
                len == self.buffer@.len(),
                p <= npix,
                lhs == iv + lum_sum(self.buffer@, p as int, threshold_alpha as int),
                rhs == threshold_bw + thr_sum(
                    self.buffer@,
                    p as int,
                    threshold_alpha as int,
                    threshold_bw as int,
                ),
            decreases npix - p,
        {
            proof {
                lemma_lum_sum_bound(self.buffer@, p as int, threshold_alpha as int);
                lemma_thr_sum_bound(
                    self.buffer@,
                    p as int,
                    threshold_alpha as int,
                    threshold_bw as int,
                );
                crate::arith::lemma_mul_le(255, 255, p as int, usize::MAX as int);
            }
            let off = p * 4;
            let a = self.buffer[off + 3];
            if a > threshold_alpha {
                let r = self.buffer[off];
                let g = self.buffer[off + 1];
                let b = self.buffer[off + 2];
                let l: u8 = ((r as usize * 77 + g as usize * 150 + b as usize * 29) / 256) as u8;
                lhs = lhs + l as u128;
                rhs = rhs + threshold_bw as u128;
            }
            p += 1;
        }
        lhs < rhs
    }

    /// Composites every pixel onto a flat background -- white when the
    /// image is dark, black otherwise -- and marks the image opaque. An
    /// already opaque image is left untouched.
    pub fn make_opaque(&mut self)
        requires
            old(self).wf(),
        ensures
            final(self).wf(),
            old(self).info.transparency is Opaque ==> *final(self) == *old(self),
            !(old(self).info.transparency is Opaque) ==> final(self).info == (ImageInfo {
                transparency: Transparency::Opaque,
                ..old(self).info
            }),
            !(old(self).info.transparency is Opaque) ==> final(self).buffer@ == spec_flatten(
                old(self).buffer@,
                spec_background(old(self).buffer@, old(self).info.spec_pixels()),
            ),
            final(self).snapshot_info == old(self).snapshot_info,
            final(self).snapshot_buffer == old(self).snapshot_buffer,
    {
        if self.is_opaque_now() {
            return;
        }
        let dark = self.image_is_dark(0xFF, 0xC0, 64);
        let bg: [u8; 4] = if dark {
            [0xFF, 0xFF, 0xFF, 0xFF]
        } else {
            [0u8, 0u8, 0u8, 0xFF]
        };
        self.info.transparency = Transparency::Opaque;
        let ghost src = old(self).buffer@;
        let len = self.buffer.len();
        let npix = len / 4;
        let mut p: usize = 0;
        while p < npix
            invariant
                old(self).wf(),
                npix == len / 4,
                len == self.buffer@.len(),
                len == src.len(),
                p <= npix,
                bg@ == spec_background(src, old(self).info.spec_pixels()),
                self.info == (ImageInfo { transparency: Transparency::Opaque, ..old(self).info }),
                self.snapshot_info == old(self).snapshot_info,
                self.snapshot_buffer == old(self).snapshot_buffer,
                forall|i: int| p * 4 <= i < len ==> self.buffer@[i] == src[i],
                forall|i: int| 0 <= i < p * 4 ==> self.buffer@[i] == flatten_byte(src, bg@, i),
            decreases npix - p,
        {
            proof {
                crate::arith::lemma_div_mod_split(p as int, 0, 4);
                crate::arith::lemma_div_mod_split(p as int, 1, 4);
                crate::arith::lemma_div_mod_split(p as int, 2, 4);
                crate::arith::lemma_div_mod_split(p as int, 3, 4);
            }
            let off = p * 4;
            let pixel = [
                self.buffer[off],
                self.buffer[off + 1],
                self.buffer[off + 2],
                self.buffer[off + 3],
            ];
            let blended = crate::image::blend(bg, pixel);
            self.buffer[off] = blended[0];
            self.buffer[off + 1] = blended[1];
            self.buffer[off + 2] = blended[2];
            self.buffer[off + 3] = blended[3];
            p += 1;
        }
        proof {
            assert(self.buffer@ =~= spec_flatten(src, bg@));
        }
    }

    /// True when the transparency flag says opaque (private shorthand so
    /// `make_opaque` can branch before mutating).
    fn is_opaque_now(&self) -> (r: bool)
        ensures
            r == (self.info.transparency is Opaque),
    {
        match self.info.transparency {
            Transparency::Opaque => true,
            Transparency::Translucent => false,
        }
    }
}


/// Entry `i` of the quantization table for `levels` output levels per
/// channel: `ceil((255 / (levels - 1)) * floor(levels * i / 256))`, as an
/// exact integer.
pub open spec fn poster_entry(levels: int, i: int) -> int {
    let q = levels * i / 256;
    (255 * q + (levels - 2)) / (levels - 1)
}

/// The full 256-entry quantization table for `levels` output levels.
pub open spec fn poster_table(levels: int) -> Seq<u8> {
    Seq::new(256, |i: int| poster_entry(levels, i) as u8)
}

/// Byte `i` of the plain (undithered) posterization: each color byte is
/// replaced by its table entry, alpha bytes survive.
pub open spec fn poster_byte(data: Seq<u8>, tr: Seq<u8>, tg: Seq<u8>, tb: Seq<u8>, i: int) -> u8 {
    let c = i % 4;
    if c == 0 {
        tr[data[i] as int]
    } else if c == 1 {
        tg[data[i] as int]
    } else if c == 2 {
        tb[data[i] as int]
    } else {
        data[i]
    }
}

/// The buffer after plain posterization.
pub open spec fn spec_posterize_plain(
    data: Seq<u8>,
    tr: Seq<u8>,
    tg: Seq<u8>,
    tb: Seq<u8>,
) -> Seq<u8> {
    Seq::new(data.len(), |i: int| poster_byte(data, tr, tg, tb, i))
}

/// The signed error value held in one byte of the error buffer.
pub open spec fn err_val(b: u8) -> int {
    if b >= 128 {
        b - 256
    } else {
        b as int
    }
}

/// A signed error clamped into `[-127, 127]` and stored back into a byte.
pub open spec fn err_store(v: int) -> u8 {
    let c = if v < -127 {
        -127
    } else if v > 127 {
        127
    } else {
        v
    };
    if c < 0 {
        (c + 256) as u8
    } else {
        c as u8
    }
}

/// A channel sum clamped into the byte range for the table lookup.
pub open spec fn clamp255(v: int) -> int {
    if v < 0 {
        0
    } else if v > 255 {
        255
    } else {
        v
    }
}

/// Truncating (toward zero) division by 16 of a signed residual share.
pub open spec fn tdiv16(v: int) -> int {
    if v >= 0 {
        v / 16
    } else {
        -((-v) / 16)
    }
}

/// The error buffer after distributing one weighted residual share to the
/// neighbor `(x, y)`; a neighbor outside the image is skipped.
pub open spec fn diffuse_one(
    eb: Seq<u8>,
    w: int,
    h: int,
    x: int,
    y: int,
    er: int,
    eg: int,
    ebv: int,
    delta: int,
) -> Seq<u8> {
    if 0 <= x && x < w && y < h {
        let p = crate::image::spec_pixel(eb, w, h, x, y);
        let v = seq![
            err_store(err_val(p[0]) + tdiv16(er * delta)),
            err_store(err_val(p[1]) + tdiv16(eg * delta)),
            err_store(err_val(p[2]) + tdiv16(ebv * delta)),
            p[3],
        ];
        crate::image::spec_set_pixel(eb, w, h, x, y, v)
    } else {
        eb
    }
}

/// One step of the error-diffusion pass: quantizes pixel `(x, y)` after
/// adding its accumulated error, and distributes the residual to the four
/// not-yet-processed neighbors with weights 7, 3, 5, 1 over 16.
pub open spec fn dither_pixel(
    ib: Seq<u8>,
    eb: Seq<u8>,
    w: int,
    h: int,
    tr: Seq<u8>,
    tg: Seq<u8>,
    tb: Seq<u8>,
    x: int,
    y: int,
) -> (Seq<u8>, Seq<u8>) {
    let px = crate::image::spec_pixel(ib, w, h, x, y);
    let ep = crate::image::spec_pixel(eb, w, h, x, y);
    let lr = px[0] + err_val(ep[0]);
    let lg = px[1] + err_val(ep[1]);
    let lb = px[2] + err_val(ep[2]);
    let nr = tr[clamp255(lr)];
    let ng = tg[clamp255(lg)];
    let nb = tb[clamp255(lb)];
    let ib2 = crate::image::spec_set_pixel(ib, w, h, x, y, seq![nr, ng, nb, px[3]]);
    let er = lr - nr;
    let eg = lg - ng;
    let ebv = lb - nb;
    if er != 0 || eg != 0 || ebv != 0 {
        let e1 = diffuse_one(eb, w, h, x + 1, y, er, eg, ebv, 7);
        let e2 = diffuse_one(e1, w, h, x - 1, y + 1, er, eg, ebv, 3);
        let e3 = diffuse_one(e2, w, h, x, y + 1, er, eg, ebv, 5);
        let e4 = diffuse_one(e3, w, h, x + 1, y + 1, er, eg, ebv, 1);
        (ib2, e4)
    } else {
        (ib2, eb)
    }
}

/// The pixel and error buffers after the first `k` row-major steps of the
/// error-diffusion pass; the error buffer starts zeroed.
pub open spec fn dither_state(
    ib0: Seq<u8>,
    w: int,
    h: int,
    tr: Seq<u8>,
    tg: Seq<u8>,
    tb: Seq<u8>,
    k: int,
) -> (Seq<u8>, Seq<u8>)
    decreases k,
{
    if k <= 0 {
        (ib0, Seq::new(ib0.len(), |i: int| 0u8))
    } else {
        let prev = dither_state(ib0, w, h, tr, tg, tb, k - 1);
        dither_pixel(prev.0, prev.1, w, h, tr, tg, tb, (k - 1) % w, (k - 1) / w)
    }
}

/// The buffer after the full error-diffusion pass over `w * h` pixels.
pub open spec fn spec_posterize_dither(
    data: Seq<u8>,
    w: int,
    h: int,
    tr: Seq<u8>,
    tg: Seq<u8>,
    tb: Seq<u8>,
) -> Seq<u8> {
    dither_state(data, w, h, tr, tg, tb, w * h).0
}

/// The error-diffusion pass never changes the length of either buffer.
#[verifier::rlimit(60)]
proof fn lemma_dither_state_len(
    ib0: Seq<u8>,
    w: int,
    h: int,
    tr: Seq<u8>,
    tg: Seq<u8>,
    tb: Seq<u8>,
    k: int,
)
    ensures
        dither_state(ib0, w, h, tr, tg, tb, k).0.len() == ib0.len(),
        dither_state(ib0, w, h, tr, tg, tb, k).1.len() == ib0.len(),
    decreases k,
{
    if k > 0 {
        lemma_dither_state_len(ib0, w, h, tr, tg, tb, k - 1);
    }
}

/// Builds the 256-entry quantization table for `max_level` output levels.
pub fn make_table(max_level: u8) -> (t: Vec<u8>)
    requires
        max_level >= 2,
    ensures
        t@ == poster_table(max_level as int),
        t@.len() == 256,
{
    let levels: u32 = max_level as u32;
    let mut t: Vec<u8> = Vec::new();
    let mut i: u32 = 0;
    while i < 256
        invariant
            2 <= levels <= 255,
            levels == max_level,
            i <= 256,
            t@.len() == i,
            forall|j: int| 0 <= j < i ==> t@[j] == poster_entry(levels as int, j) as u8,
        decreases 256 - i,
    {
        proof {
            crate::arith::lemma_mul_le(levels as int, 255, i as int, 255);
            assert((levels as int) * (i as int) < (levels as int) * 256) by (nonlinear_arith)
                requires
                    i < 256,
                    2 <= levels,
            ;
            vstd::arithmetic::div_mod::lemma_multiply_divide_lt(
                (levels as int) * (i as int),
                levels as int,
                256,
            );
            vstd::arithmetic::mul::lemma_mul_is_commutative(levels as int, 256);
            vstd::arithmetic::div_mod::lemma_multiply_divide_lt(
                (levels as int) * (i as int),
                256,
                levels as int,
            );
            vstd::arithmetic::mul::lemma_mul_nonnegative(levels as int, i as int);
            vstd::arithmetic::div_mod::lemma_div_pos_is_pos((levels as int) * (i as int), 256);
        }
        let q: u32 = levels * i / 256;
        proof {
            let l = levels as int;
            let qq = q as int;
            vstd::arithmetic::div_mod::lemma_div_pos_is_pos(255 * qq + (l - 2), l - 1);
            vstd::arithmetic::div_mod::lemma_div_is_ordered(
                255 * qq + (l - 2),
                (l - 1) * 255 + (l - 2),
                l - 1,
            );
            crate::arith::lemma_div_mod_split(255, l - 2, l - 1);
        }
        let v: u32 = (255 * q + levels - 2) / (levels - 1);
        t.push(v as u8);
        i += 1;
    }
    proof {
        assert(t@ =~= poster_table(max_level as int));
    }
    t
}

/// Adds a signed stored error to a channel byte: the unclamped sum drives
/// the residual, the clamped sum drives the table lookup.
fn error_add(lhs: u8, rhs: u8) -> (r: (u8, i64))
    ensures
        r.1 == lhs as int + err_val(rhs),
        r.0 as int == clamp255(r.1 as int),
{
    let e: i64 = if rhs >= 128 {
        rhs as i64 - 256
    } else {
        rhs as i64
    };
    let long: i64 = lhs as i64 + e;
    let short: u8 = if long < 0 {
        0
    } else if long > 255 {
        255
    } else {
        long as u8
    };
    (short, long)
}

/// Applies one weighted residual share to one stored error byte.
fn err_update(b: u8, e: i64, delta: i64) -> (r: u8)
    requires
        -400 <= e <= 400,
        1 <= delta <= 7,
    ensures
        r == err_store(err_val(b) + tdiv16(e * delta)),
{
    let cur: i64 = if b >= 128 {
        b as i64 - 256
    } else {
        b as i64
    };
    proof {
        assert(-2800 <= (e as int) * (delta as int) <= 2800) by (nonlinear_arith)
            requires
                -400 <= e <= 400,
                1 <= delta <= 7,
        ;
    }
    let prod: i64 = e * delta;
    let d16: i64 = if prod >= 0 {
        ((prod as u64) / 16) as i64
    } else {
        -((((-prod) as u64) / 16) as i64)
    };
    proof {
        if prod >= 0 {
            vstd::arithmetic::div_mod::lemma_div_nonincreasing(prod as int, 16);
            vstd::arithmetic::div_mod::lemma_div_pos_is_pos(prod as int, 16);
        } else {
            vstd::arithmetic::div_mod::lemma_div_nonincreasing(-(prod as int), 16);
            vstd::arithmetic::div_mod::lemma_div_pos_is_pos(-(prod as int), 16);
        }
    }
    let val: i64 = cur + d16;
    let clamped: i64 = if val < -127 {
        -127
    } else if val > 127 {
        127
    } else {
        val
    };
    if clamped < 0 {
        (clamped + 256) as u8
    } else {
        clamped as u8
    }
}

/// Distributes one residual share to the error pixel at `(x, y)` where
/// that neighbor lies inside the image.
fn diffuse_one_exec(
    info: &ImageInfo,
    errors: &mut Vec<u8>,
    x: i64,
    y: i64,
    er: i64,
    eg: i64,
    eb: i64,
    delta: i64,
)
    requires
        -0x1_0000_0000 <= x <= 0x1_0000_0000,
        0 <= y <= 0x1_0000_0000,
        -400 <= er <= 400,
        -400 <= eg <= 400,
        -400 <= eb <= 400,
        1 <= delta <= 7,
    ensures
        final(errors)@ == diffuse_one(
            old(errors)@,
            info.width as int,
            info.height as int,
            x as int,
            y as int,
            er as int,
            eg as int,
            eb as int,
            delta as int,
        ),
{
    if x < 0 || x >= info.width as i64 || y >= info.height as i64 {
        return;
    }
    let xu: u32 = x as u32;
    let yu: u32 = y as u32;
    let p = info.get_pixel(xu, yu, errors.as_slice());
    let v0 = err_update(p[0], er, delta);
    let v1 = err_update(p[1], eg, delta);
    let v2 = err_update(p[2], eb, delta);
    info.set_pixel(xu, yu, errors, [v0, v1, v2, p[3]]);
    proof {
        assert(final(errors)@ =~= diffuse_one(
            old(errors)@,
            info.width as int,
            info.height as int,
            x as int,
            y as int,
            er as int,
            eg as int,
            eb as int,
            delta as int,
        ));
    }
}

impl EditorSession {
    /// Reduces each color channel to a fixed number of quantized levels,
    /// directly or with Floyd-Steinberg error diffusion; fewer than 2
    /// levels on any channel fails with no change. The metadata and the
    /// snapshot are untouched.
    #[verifier::rlimit(80)]
    pub fn posterize(&mut self, fsd: bool, red: u8, green: u8, blue: u8) -> (r: bool)
        requires
            old(self).wf(),
        ensures
            final(self).wf(),
            r == (red >= 2 && green >= 2 && blue >= 2),
            !r ==> *final(self) == *old(self),
            r ==> final(self).info == old(self).info,
            (r && !fsd) ==> final(self).buffer@ == spec_posterize_plain(
                old(self).buffer@,
                poster_table(red as int),
                poster_table(green as int),
                poster_table(blue as int),
            ),
            (r && fsd) ==> final(self).buffer@ == spec_posterize_dither(
                old(self).buffer@,
                old(self).info.width as int,
                old(self).info.height as int,
                poster_table(red as int),
                poster_table(green as int),
                poster_table(blue as int),
            ),
            final(self).snapshot_info == old(self).snapshot_info,
            final(self).snapshot_buffer == old(self).snapshot_buffer,
    {
        if red < 2 || green < 2 || blue < 2 {
            return false;
        }
        let tr = make_table(red);
        let tg = make_table(green);
        let tb = make_table(blue);
        let ghost src = old(self).buffer@;

        if fsd {
            let w = self.info.width;
            let h = self.info.height;
            let len = self.buffer.len();
            let mut errors: Vec<u8> = vec![0u8; len];
            proof {
                assert(errors@ =~= Seq::new(src.len(), |i: int| 0u8));
                assert(dither_state(src, w as int, h as int, tr@, tg@, tb@, 0) == (
                    self.buffer@,
                    errors@,
                ));
            }
            let mut y: u32 = 0;
            while y < h
                invariant
                    old(self).wf(),
                    w == self.info.width,
                    h == self.info.height,
                    self.info == old(self).info,
                    self.snapshot_info == old(self).snapshot_info,
                    self.snapshot_buffer == old(self).snapshot_buffer,
                    y <= h,
                    tr@ == poster_table(red as int),
                    tg@ == poster_table(green as int),
                    tb@ == poster_table(blue as int),
                    tr@.len() == 256,
                    tg@.len() == 256,
                    tb@.len() == 256,
                    (self.buffer@, errors@) == dither_state(
                        src,
                        w as int,
                        h as int,
                        tr@,
                        tg@,
                        tb@,
                        y as int * w as int,
                    ),
                decreases h - y,
            {
                let mut x: u32 = 0;
                while x < w
                    invariant
                        old(self).wf(),
                        w == self.info.width,
                        h == self.info.height,
                        self.info == old(self).info,
                        self.snapshot_info == old(self).snapshot_info,
                        self.snapshot_buffer == old(self).snapshot_buffer,
                        y < h,
                        x <= w,
                        tr@ == poster_table(red as int),
                        tg@ == poster_table(green as int),
                        tb@ == poster_table(blue as int),
                        tr@.len() == 256,
                        tg@.len() == 256,
                        tb@.len() == 256,
                        (self.buffer@, errors@) == dither_state(
                            src,
                            w as int,
                            h as int,
                            tr@,
                            tg@,
                            tb@,
                            y as int * w as int + x as int,
                        ),
                    decreases w - x,
                {
                    let ghost ib_prev = self.buffer@;
                    let ghost eb_prev = errors@;
                    let pix = self.info.get_pixel(x, y, self.buffer.as_slice());
                    let ep = self.info.get_pixel(x, y, errors.as_slice());
                    let (sr, lr) = error_add(pix[0], ep[0]);
                    let (sg, lg) = error_add(pix[1], ep[1]);
                    let (sb, lb) = error_add(pix[2], ep[2]);
                    let nr = tr[sr as usize];
                    let ng = tg[sg as usize];
                    let nb = tb[sb as usize];
                    self.info.set_pixel(x, y, &mut self.buffer, [nr, ng, nb, pix[3]]);
                    let er: i64 = lr - nr as i64;
                    let eg: i64 = lg - ng as i64;
                    let eb: i64 = lb - nb as i64;
                    if er != 0 || eg != 0 || eb != 0 {
                        diffuse_one_exec(
                            &self.info,
                            &mut errors,
                            x as i64 + 1,
                            y as i64,
                            er,
                            eg,
                            eb,
                            7,
                        );
                        diffuse_one_exec(
                            &self.info,
                            &mut errors,
                            x as i64 - 1,
                            y as i64 + 1,
                            er,
                            eg,
                            eb,
                            3,
                        );
                        diffuse_one_exec(
                            &self.info,
                            &mut errors,
                            x as i64,
                            y as i64 + 1,
                            er,
                            eg,
                            eb,
                            5,
                        );
                        diffuse_one_exec(
                            &self.info,
                            &mut errors,
                            x as i64 + 1,
                            y as i64 + 1,
                            er,
                            eg,
                            eb,
                            1,
                        );
                    }
                    proof {
                        assert((self.buffer@, errors@) == dither_pixel(
                            ib_prev,
                            eb_prev,
                            w as int,
                            h as int,
                            tr@,
                            tg@,
                            tb@,
                            x as int,
                            y as int,
                        ));
                        let k = y as int * w as int + x as int;
                        crate::arith::lemma_div_mod_split(y as int, x as int, w as int);
                        assert(dither_state(src, w as int, h as int, tr@, tg@, tb@, k + 1)
                            == dither_pixel(ib_prev, eb_prev, w as int, h as int, tr@, tg@, tb@,
                            x as int, y as int));
                    }
                    x += 1;
                }
                proof {
                    assert((y as int + 1) * w as int == y as int * w as int + w as int)
                        by (nonlinear_arith);
                }
                y += 1;
            }
            proof {
                assert(h as int * w as int == w as int * h as int) by (nonlinear_arith);
                lemma_dither_state_len(
                    src,
                    w as int,
                    h as int,
                    tr@,
                    tg@,
                    tb@,
                    w as int * h as int,
                );
            }
        } else {
            let len = self.buffer.len();
            let npix = len / 4;
            let mut p: usize = 0;
            while p < npix
                invariant
                    old(self).wf(),
                    npix == len / 4,
                    len == self.buffer@.len(),
                    len == src.len(),
                    p <= npix,
                    self.info == old(self).info,
                    self.snapshot_info == old(self).snapshot_info,
                    self.snapshot_buffer == old(self).snapshot_buffer,
                    tr@ == poster_table(red as int),
                    tg@ == poster_table(green as int),
                    tb@ == poster_table(blue as int),
                    tr@.len() == 256,
                    tg@.len() == 256,
                    tb@.len() == 256,
                    forall|i: int| p * 4 <= i < len ==> self.buffer@[i] == src[i],
                    forall|i: int|
                        0 <= i < p * 4 ==> self.buffer@[i] == poster_byte(src, tr@, tg@, tb@, i),
                decreases npix - p,
            {
                proof {
                    crate::arith::lemma_div_mod_split(p as int, 0, 4);
                    crate::arith::lemma_div_mod_split(p as int, 1, 4);
                    crate::arith::lemma_div_mod_split(p as int, 2, 4);
                    crate::arith::lemma_div_mod_split(p as int, 3, 4);
                }
                let off = p * 4;
                let r0 = self.buffer[off];
                let g0 = self.buffer[off + 1];
                let b0 = self.buffer[off + 2];
                self.buffer[off] = tr[r0 as usize];
                self.buffer[off + 1] = tg[g0 as usize];
                self.buffer[off + 2] = tb[b0 as usize];
                p += 1;
            }
            proof {
                assert(self.buffer@ =~= spec_posterize_plain(
                    src,
                    poster_table(red as int),
                    poster_table(green as int),
                    poster_table(blue as int),
                ));
            }
        }
        true
    }
}

} // verus!
