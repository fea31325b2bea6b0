//! Geometric transforms of the live image: sub-rectangle extraction and
//! resampling to a new resolution.

use crate::arith::{lemma_div_mod_split, lemma_mul_le, lemma_pixel_in_bounds, lemma_scaled_coord_bound};
use crate::image::{spec_pixel, ImageInfo};
use crate::session::{committed_info, EditorSession, StoreModel};
use vstd::prelude::*;

verus! {

/// Whether the rectangle `(x, y, w, h)` lies inside an image of `info`'s
/// dimensions and is at least one pixel each way.
pub open spec fn crop_valid(info: ImageInfo, x: u32, y: u32, w: u32, h: u32) -> bool {
    &&& 1 <= w
    &&& 1 <= h
    &&& x < info.width
    &&& y < info.height
    &&& x + w <= info.width
    &&& y + h <= info.height
}

/// Byte `i` of the cropped buffer: the byte of the source pixel that the
/// destination pixel `i / 4` came from.
pub open spec fn crop_byte(src: Seq<u8>, sw: int, x: int, y: int, w: int, i: int) -> u8 {
    let p = i / 4;
    let c = i % 4;
    let dx = p % w;
    let dy = p / w;
    src[((x + dx) + (y + dy) * sw) * 4 + c]
}

/// The buffer of the `w` by `h` sub-rectangle of `src` at `(x, y)`.
pub open spec fn spec_crop(src: Seq<u8>, sw: int, x: int, y: int, w: int, h: int) -> Seq<u8> {
    Seq::new((w * h * 4) as nat, |i: int| crop_byte(src, sw, x, y, w, i))
}

/// Destination byte `i` under the nearest-neighbor mapping, which sends
/// destination pixel `x` to source column `x * sw / dw` (and rows alike).
pub open spec fn nn_byte(src: Seq<u8>, sw: int, sh: int, dw: int, dh: int, i: int) -> u8 {
    let p = i / 4;
    let c = i % 4;
    let dx = p % dw;
    let dy = p / dw;
    spec_pixel(src, sw, sh, dx * sw / dw, dy * sh / dh)[c]
}

/// The buffer produced by nearest-neighbor resampling to `dw` by `dh`.
pub open spec fn spec_scale_nn(src: Seq<u8>, sw: int, sh: int, dw: int, dh: int) -> Seq<u8> {
    Seq::new((dw * dh * 4) as nat, |i: int| nn_byte(src, sw, sh, dw, dh, i))
}

impl EditorSession {
    /// Replaces the live image with its `width` by `height` sub-rectangle at
    /// `(x, y)`, deriving fresh metadata; any rectangle that leaves the
    /// image fails with no change. The snapshot survives.
    pub fn crop(&mut self, x: u32, y: u32, width: u32, height: u32) -> (r: bool)
        requires
            old(self).wf(),
        ensures
            final(self).wf(),
            r == crop_valid(old(self).info, x, y, width, height),
            r ==> final(self).store() == (StoreModel {
                info: committed_info(
                    width,
                    height,
                    spec_crop(
                        old(self).buffer@,
                        old(self).info.width as int,
                        x as int,
                        y as int,
                        width as int,
                        height as int,
                    ),
                ),
                data: spec_crop(
                    old(self).buffer@,
                    old(self).info.width as int,
                    x as int,
                    y as int,
                    width as int,
                    height as int,
                ),
            }),
            final(self).snapshot_info == old(self).snapshot_info,
            final(self).snapshot_buffer == old(self).snapshot_buffer,
            !r ==> *final(self) == *old(self),
            final(self).store() == crop_transition(old(self).store(), x, y, width, height),
    {
        let sw = self.info.width;
        let sh = self.info.height;
        if x >= sw || width < 1 || (x as u64 + width as u64) > sw as u64 || y >= sh || height < 1
            || (y as u64 + height as u64) > sh as u64 {
            return false;
        }

        let ghost src = self.buffer@;
        let mut ob: Vec<u8> = Vec::new();
        let mut dy: u32 = 0;
        while dy < height
            invariant
                old(self).wf(),
                *self == *old(self),
                src == self.buffer@,
                sw == self.info.width,
                sh == self.info.height,
                crop_valid(old(self).info, x, y, width, height),
                dy <= height,
                ob@.len() == (dy as int * width as int) * 4,
                forall|i: int|
                    0 <= i < ob@.len() ==> ob@[i] == crop_byte(
                        src,
                        sw as int,
                        x as int,
                        y as int,
                        width as int,
                        i,
                    ),
            decreases height - dy,
        {
            let mut dx: u32 = 0;
            while dx < width
                invariant
                    old(self).wf(),
                    *self == *old(self),
                    src == self.buffer@,
                    sw == self.info.width,
                    sh == self.info.height,
                    crop_valid(old(self).info, x, y, width, height),
                    dy < height,
                    dx <= width,
                    ob@.len() == (dy as int * width as int + dx as int) * 4,
                    forall|i: int|
                        0 <= i < ob@.len() ==> ob@[i] == crop_byte(
                            src,
                            sw as int,
                            x as int,
                            y as int,
                            width as int,
                            i,
                        ),
                decreases width - dx,
            {
                let pix = self.info.get_pixel(x + dx, y + dy, self.buffer.as_slice());
                proof {
                    lemma_pixel_in_bounds(
                        x as int + dx as int,
                        y as int + dy as int,
                        sw as int,
                        sh as int,
                    );
                    lemma_mul_le(sw as int, u32::MAX as int, sh as int, u32::MAX as int);
                }
                ob.push(pix[0]);
                ob.push(pix[1]);
                ob.push(pix[2]);
                ob.push(pix[3]);
                proof {
                    let p = dy as int * width as int + dx as int;
                    lemma_div_mod_split(dy as int, dx as int, width as int);
                    lemma_div_mod_split(p, 0, 4);
                    lemma_div_mod_split(p, 1, 4);
                    lemma_div_mod_split(p, 2, 4);
                    lemma_div_mod_split(p, 3, 4);
                    assert(forall|i: int|
                        p * 4 <= i < p * 4 + 4 ==> ob@[i] == crop_byte(
                            src,
                            sw as int,
                            x as int,
                            y as int,
                            width as int,
                            i,
                        ));
                }
                dx += 1;
            }
            proof {
                assert((dy as int + 1) * width as int == dy as int * width as int + width as int)
                    by (nonlinear_arith);
            }
            dy += 1;
        }
        proof {
            assert(height as int * width as int == width as int * height as int)
                by (nonlinear_arith);
            assert(ob@ =~= spec_crop(
                src,
                sw as int,
                x as int,
                y as int,
                width as int,
                height as int,
            ));
        }
        self.commit_buffer(ob, width, height);
        true
    }

    /// Resamples the live image to `width` by `height` with the
    /// nearest-neighbor kernel; equal dimensions succeed without any
    /// change, and a zero dimension fails with no change. The snapshot
    /// survives.
    pub fn scale_nn(&mut self, width: u32, height: u32) -> (r: bool)
        requires
            old(self).wf(),
        ensures
            final(self).wf(),
            r == (
                (old(self).info.width == width && old(self).info.height == height)
                || (width >= 1 && height >= 1)
            ),
            (old(self).info.width == width && old(self).info.height == height) ==> *final(self)
                == *old(self),
            !r ==> *final(self) == *old(self),
            (r && !(old(self).info.width == width && old(self).info.height == height))
                ==> final(self).store() == (StoreModel {
                info: committed_info(
                    width,
                    height,
                    spec_scale_nn(
                        old(self).buffer@,
                        old(self).info.width as int,
                        old(self).info.height as int,
                        width as int,
                        height as int,
                    ),
                ),
                data: spec_scale_nn(
                    old(self).buffer@,
                    old(self).info.width as int,
                    old(self).info.height as int,
                    width as int,
                    height as int,
                ),
            }),
            final(self).snapshot_info == old(self).snapshot_info,
            final(self).snapshot_buffer == old(self).snapshot_buffer,
    {
        let sw = self.info.width;
        let sh = self.info.height;
        if sw == width && sh == height {
            return true;
        }
        if width < 1 || height < 1 {
            return false;
        }

        let ghost src = self.buffer@;
        let mut ob: Vec<u8> = Vec::new();
        let mut dy: u32 = 0;
        while dy < height
            invariant
                old(self).wf(),
                *self == *old(self),
                src == self.buffer@,
                sw == self.info.width,
                sh == self.info.height,
                width >= 1,
                height >= 1,
                dy <= height,
                ob@.len() == (dy as int * width as int) * 4,
                forall|i: int|
                    0 <= i < ob@.len() ==> ob@[i] == nn_byte(
                        src,
                        sw as int,
                        sh as int,
                        width as int,
                        height as int,
                        i,
                    ),
            decreases height - dy,
        {
            proof {
                lemma_mul_le(dy as int, u32::MAX as int, sh as int, u32::MAX as int);
                if sh >= 1 {
                    lemma_scaled_coord_bound(dy as int, sh as int, height as int);
                } else {
                    vstd::arithmetic::mul::lemma_mul_by_zero_is_zero(dy as int);
                    vstd::arithmetic::div_mod::lemma_div_of0(height as int);
                }
            }
            let vy: u64 = dy as u64 * sh as u64 / height as u64;
            let mut dx: u32 = 0;
            while dx < width
                invariant
                    old(self).wf(),
                    *self == *old(self),
                    src == self.buffer@,
                    sw == self.info.width,
                    sh == self.info.height,
                    width >= 1,
                    height >= 1,
                    dy < height,
                    dx <= width,
                    vy == dy as int * sh as int / height as int,
                    vy <= u32::MAX,
                    ob@.len() == (dy as int * width as int + dx as int) * 4,
                    forall|i: int|
                        0 <= i < ob@.len() ==> ob@[i] == nn_byte(
                            src,
                            sw as int,
                            sh as int,
                            width as int,
                            height as int,
                            i,
                        ),
                decreases width - dx,
            {
                proof {
                    lemma_mul_le(dx as int, u32::MAX as int, sw as int, u32::MAX as int);
                    if sw >= 1 {
                        lemma_scaled_coord_bound(dx as int, sw as int, width as int);
                    } else {
                        vstd::arithmetic::mul::lemma_mul_by_zero_is_zero(dx as int);
                        vstd::arithmetic::div_mod::lemma_div_of0(width as int);
                    }
                }
                let vx: u64 = dx as u64 * sw as u64 / width as u64;
                let pix = self.info.get_pixel(vx as u32, vy as u32, self.buffer.as_slice());
                ob.push(pix[0]);
                ob.push(pix[1]);
                ob.push(pix[2]);
                ob.push(pix[3]);
                proof {
                    let p = dy as int * width as int + dx as int;
                    lemma_div_mod_split(dy as int, dx as int, width as int);
                    lemma_div_mod_split(p, 0, 4);
                    lemma_div_mod_split(p, 1, 4);
                    lemma_div_mod_split(p, 2, 4);
                    lemma_div_mod_split(p, 3, 4);
                    assert(forall|i: int|
                        p * 4 <= i < p * 4 + 4 ==> ob@[i] == nn_byte(
                            src,
                            sw as int,
                            sh as int,
                            width as int,
                            height as int,
                            i,
                        ));
                }
                dx += 1;
            }
            proof {
                assert((dy as int + 1) * width as int == dy as int * width as int + width as int)
                    by (nonlinear_arith);
            }
            dy += 1;
        }
        proof {
            assert(height as int * width as int == width as int * height as int)
                by (nonlinear_arith);
            assert(ob@ =~= spec_scale_nn(
                src,
                sw as int,
                sh as int,
                width as int,
                height as int,
            ));
        }
        self.commit_buffer(ob, width, height);
        true
    }
}


/// The resampling strategy requested by the host.
#[derive(Debug, Clone, Copy, PartialEq, Eq, Structural)]
pub enum ScaleMode {
    NearstNeighbor,
    Bilinear,
    Bicubic,
}

/// The buffer that `scale` commits for a request of `dw` by `dh` in the
/// given mode: a pure shrink under an interpolating mode uses the
/// box-filter reduction, anything else the requested kernel.
pub open spec fn spec_scale_buffer(
    src: Seq<u8>,
    sw: int,
    sh: int,
    dw: int,
    dh: int,
    mode: ScaleMode,
) -> Seq<u8> {
    match mode {
        ScaleMode::NearstNeighbor => spec_scale_nn(src, sw, sh, dw, dh),
        ScaleMode::Bilinear => if sw > dw && sh > dh {
            crate::resample::spec_scale_reduction(src, sw, sh, dw, dh)
        } else {
            crate::resample::spec_scale_linear(src, sw, sh, dw, dh)
        },
        ScaleMode::Bicubic => if sw > dw && sh > dh {
            crate::resample::spec_scale_reduction(src, sw, sh, dw, dh)
        } else {
            crate::resample::spec_scale_cubic(src, sw, sh, dw, dh)
        },
    }
}

/// The effect of `crop` on the live image as a model transition: the
/// committed sub-rectangle on a valid request, the image unchanged
/// otherwise.
pub open spec fn crop_transition(s: StoreModel, x: u32, y: u32, w: u32, h: u32) -> StoreModel {
    if crop_valid(s.info, x, y, w, h) {
        let data = spec_crop(s.data, s.info.width as int, x as int, y as int, w as int, h as int);
        StoreModel { info: committed_info(w, h, data), data }
    } else {
        s
    }
}

/// The effect of `scale` on the live image as a model transition: the
/// identity on equal dimensions, the image unchanged on a zero dimension,
/// the committed resampling otherwise.
pub open spec fn scale_transition(s: StoreModel, w: u32, h: u32, mode: ScaleMode) -> StoreModel {
    if s.info.width == w && s.info.height == h {
        s
    } else if w < 1 || h < 1 {
        s
    } else {
        let data = spec_scale_buffer(
            s.data,
            s.info.width as int,
            s.info.height as int,
            w as int,
            h as int,
            mode,
        );
        StoreModel { info: committed_info(w, h, data), data }
    }
}

impl EditorSession {
    /// Resamples the live image to `width` by `height` with the strategy
    /// `mode`; a pure shrink under an interpolating mode uses box-filter
    /// reduction instead, trading sharpness for anti-aliasing. Equal
    /// dimensions succeed without any change, and a zero dimension fails
    /// with no change. The snapshot survives.
    pub fn scale(&mut self, width: u32, height: u32, mode: ScaleMode) -> (r: bool)
        requires
            old(self).wf(),
        ensures
            final(self).wf(),
            r == ((old(self).info.width == width && old(self).info.height == height) || (width
                >= 1 && height >= 1)),
            (old(self).info.width == width && old(self).info.height == height) ==> *final(self)
                == *old(self),
            !r ==> *final(self) == *old(self),
            (r && !(old(self).info.width == width && old(self).info.height == height))
                ==> final(self).store() == (StoreModel {
                info: committed_info(
                    width,
                    height,
                    spec_scale_buffer(
                        old(self).buffer@,
                        old(self).info.width as int,
                        old(self).info.height as int,
                        width as int,
                        height as int,
                        mode,
                    ),
                ),
                data: spec_scale_buffer(
                    old(self).buffer@,
                    old(self).info.width as int,
                    old(self).info.height as int,
                    width as int,
                    height as int,
                    mode,
                ),
            }),
            final(self).snapshot_info == old(self).snapshot_info,
            final(self).snapshot_buffer == old(self).snapshot_buffer,
            final(self).store() == scale_transition(old(self).store(), width, height, mode),
    {
        let sw = self.info.width;
        let sh = self.info.height;
        if sw == width && sh == height {
            return true;
        }
        if width < 1 || height < 1 {
            return false;
        }
        let mut ob: Vec<u8> = Vec::new();
        match mode {
            ScaleMode::NearstNeighbor => {
                scale_nn(&self.info, self.buffer.as_slice(), &mut ob, width, height);
            },
            ScaleMode::Bilinear => {
                if sw > width && sh > height {
                    crate::resample::scale_reduction(
                        &self.info,
                        self.buffer.as_slice(),
                        &mut ob,
                        width,
                        height,
                    );
                } else {
                    crate::resample::scale_linear(
                        &self.info,
                        self.buffer.as_slice(),
                        &mut ob,
                        width,
                        height,
                    );
                }
            },
            ScaleMode::Bicubic => {
                if sw > width && sh > height {
                    crate::resample::scale_reduction(
                        &self.info,
                        self.buffer.as_slice(),
                        &mut ob,
                        width,
                        height,
                    );
                } else {
                    crate::resample::scale_cubic(
                        &self.info,
                        self.buffer.as_slice(),
                        &mut ob,
                        width,
                        height,
                    );
                }
            },
        }
        proof {
            vstd::arithmetic::mul::lemma_mul_nonnegative(width as int, height as int);
            assert(ob@ =~= spec_scale_buffer(
                old(self).buffer@,
                old(self).info.width as int,
                old(self).info.height as int,
                width as int,
                height as int,
                mode,
            ));
        }
        self.commit_buffer(ob, width, height);
        true
    }

    /// Resamples with the bilinear kernel regardless of direction; the
    /// checks and commit behave as in `scale`.
    pub fn scale_linear(&mut self, width: u32, height: u32) -> (r: bool)
        requires
            old(self).wf(),
        ensures
            final(self).wf(),
            r == ((old(self).info.width == width && old(self).info.height == height) || (width
                >= 1 && height >= 1)),
            (old(self).info.width == width && old(self).info.height == height) ==> *final(self)
                == *old(self),
            !r ==> *final(self) == *old(self),
            (r && !(old(self).info.width == width && old(self).info.height == height))
                ==> final(self).store() == (StoreModel {
                info: committed_info(
                    width,
                    height,
                    crate::resample::spec_scale_linear(
                        old(self).buffer@,
                        old(self).info.width as int,
                        old(self).info.height as int,
                        width as int,
                        height as int,
                    ),
                ),
                data: crate::resample::spec_scale_linear(
                    old(self).buffer@,
                    old(self).info.width as int,
                    old(self).info.height as int,
                    width as int,
                    height as int,
                ),
            }),
            final(self).snapshot_info == old(self).snapshot_info,
            final(self).snapshot_buffer == old(self).snapshot_buffer,
    {
        let sw = self.info.width;
        let sh = self.info.height;
        if sw == width && sh == height {
            return true;
        }
        if width < 1 || height < 1 {
            return false;
        }
        let mut ob: Vec<u8> = Vec::new();
        crate::resample::scale_linear(&self.info, self.buffer.as_slice(), &mut ob, width, height);
        proof {
            vstd::arithmetic::mul::lemma_mul_nonnegative(width as int, height as int);
            assert(ob@ =~= crate::resample::spec_scale_linear(
                old(self).buffer@,
                old(self).info.width as int,
                old(self).info.height as int,
                width as int,
                height as int,
            ));
        }
        self.commit_buffer(ob, width, height);
        true
    }

    /// Resamples with the bicubic kernel regardless of direction; the
    /// checks and commit behave as in `scale`.
    pub fn scale_cubic(&mut self, width: u32, height: u32) -> (r: bool)
        requires
            old(self).wf(),
        ensures
            final(self).wf(),
            r == ((old(self).info.width == width && old(self).info.height == height) || (width
                >= 1 && height >= 1)),
            (old(self).info.width == width && old(self).info.height == height) ==> *final(self)
                == *old(self),
            !r ==> *final(self) == *old(self),
            (r && !(old(self).info.width == width && old(self).info.height == height))
                ==> final(self).store() == (StoreModel {
                info: committed_info(
                    width,
                    height,
                    crate::resample::spec_scale_cubic(
                        old(self).buffer@,
                        old(self).info.width as int,
                        old(self).info.height as int,
                        width as int,
                        height as int,
                    ),
                ),
                data: crate::resample::spec_scale_cubic(
                    old(self).buffer@,
                    old(self).info.width as int,
                    old(self).info.height as int,
                    width as int,
                    height as int,
                ),
            }),
            final(self).snapshot_info == old(self).snapshot_info,
            final(self).snapshot_buffer == old(self).snapshot_buffer,
    {
        let sw = self.info.width;
        let sh = self.info.height;
        if sw == width && sh == height {
            return true;
        }
        if width < 1 || height < 1 {
            return false;
        }
        let mut ob: Vec<u8> = Vec::new();
        crate::resample::scale_cubic(&self.info, self.buffer.as_slice(), &mut ob, width, height);
        proof {
            vstd::arithmetic::mul::lemma_mul_nonnegative(width as int, height as int);
            assert(ob@ =~= crate::resample::spec_scale_cubic(
                old(self).buffer@,
                old(self).info.width as int,
                old(self).info.height as int,
                width as int,
                height as int,
            ));
        }
        self.commit_buffer(ob, width, height);
        true
    }
}

/// Appends the nearest-neighbor resampling of `ib` to `ob`, producing a
/// `width` by `height` image.
pub fn scale_nn(info: &ImageInfo, ib: &[u8], ob: &mut Vec<u8>, width: u32, height: u32)
    ensures
        final(ob)@ == old(ob)@ + spec_scale_nn(
            ib@,
            info.width as int,
            info.height as int,
            width as int,
            height as int,
        ),
{
    let sw = info.width;
    let sh = info.height;
    let ghost base = ob@.len() as int;
    let ghost src = ib@;
    let mut dy: u32 = 0;
    while dy < height
        invariant
            src == ib@,
            sw == info.width,
            sh == info.height,
            dy <= height,
            ob@.len() == base + (dy as int * width as int) * 4,
            0 <= base,
            forall|i: int| 0 <= i < base ==> ob@[i] == old(ob)@[i],
            base == old(ob)@.len(),
            forall|j: int|
                0 <= j < ob@.len() - base ==> ob@[base + j] == nn_byte(
                    src,
                    sw as int,
                    sh as int,
                    width as int,
                    height as int,
                    j,
                ),
        decreases height - dy,
    {
        proof {
            crate::arith::lemma_mul_le(dy as int, u32::MAX as int, sh as int, u32::MAX as int);
            if sh >= 1 {
                lemma_scaled_coord_bound(dy as int, sh as int, height as int);
            } else {
                vstd::arithmetic::mul::lemma_mul_by_zero_is_zero(dy as int);
                vstd::arithmetic::div_mod::lemma_div_of0(height as int);
            }
        }
        let vy: u64 = dy as u64 * sh as u64 / height as u64;
        let mut dx: u32 = 0;
        while dx < width
            invariant
                src == ib@,
                sw == info.width,
                sh == info.height,
                dy < height,
                dx <= width,
                vy == dy as int * sh as int / height as int,
                vy <= u32::MAX,
                ob@.len() == base + (dy as int * width as int + dx as int) * 4,
                0 <= base,
                forall|i: int| 0 <= i < base ==> ob@[i] == old(ob)@[i],
                base == old(ob)@.len(),
                forall|j: int|
                    0 <= j < ob@.len() - base ==> ob@[base + j] == nn_byte(
                        src,
                        sw as int,
                        sh as int,
                        width as int,
                        height as int,
                        j,
                    ),
            decreases width - dx,
        {
            proof {
                crate::arith::lemma_mul_le(dx as int, u32::MAX as int, sw as int, u32::MAX as int);
                if sw >= 1 {
                    lemma_scaled_coord_bound(dx as int, sw as int, width as int);
                } else {
                    vstd::arithmetic::mul::lemma_mul_by_zero_is_zero(dx as int);
                    vstd::arithmetic::div_mod::lemma_div_of0(width as int);
                }
            }
            let vx: u64 = dx as u64 * sw as u64 / width as u64;
            let pix = info.get_pixel(vx as u32, vy as u32, ib);
            ob.push(pix[0]);
            ob.push(pix[1]);
            ob.push(pix[2]);
            ob.push(pix[3]);
            proof {
                let p = dy as int * width as int + dx as int;
                lemma_div_mod_split(dy as int, dx as int, width as int);
                lemma_div_mod_split(p, 0, 4);
                lemma_div_mod_split(p, 1, 4);
                lemma_div_mod_split(p, 2, 4);
                lemma_div_mod_split(p, 3, 4);
                assert(forall|j: int|
                    p * 4 <= j < p * 4 + 4 ==> ob@[base + j] == nn_byte(
                        src,
                        sw as int,
                        sh as int,
                        width as int,
                        height as int,
                        j,
                    ));
            }
            dx += 1;
        }
        proof {
            assert((dy as int + 1) * width as int == dy as int * width as int + width as int)
                by (nonlinear_arith);
        }
        dy += 1;
    }
    proof {
        assert(height as int * width as int == width as int * height as int) by (nonlinear_arith);
        assert(ob@ =~= old(ob)@ + spec_scale_nn(
            src,
            sw as int,
            sh as int,
            width as int,
            height as int,
        ));
    }
}

} // verus!
