//! The pixel-buffer data model: image metadata, pixel access into a flat
//! RGBA8 byte buffer, and the integer luminance and blending formulas.

use vstd::prelude::*;

verus! {

/// Whether the image may contain a pixel whose alpha byte is below 255.
#[derive(Debug, Clone, Copy, PartialEq, Eq, Structural)]
pub enum Transparency {
    Opaque,
    Translucent,
}

/// Metadata of the live image: dimensions and the two color flags.
#[derive(Debug, Clone, Copy, PartialEq, Eq, Structural)]
pub struct ImageInfo {
    pub width: u32,
    pub height: u32,
    pub is_grayscale: bool,
    pub transparency: Transparency,
}

impl ImageInfo {
    /// Number of bytes a buffer for this image must hold: 4 per pixel.
    pub open spec fn spec_size(self) -> int {
        self.width as int * self.height as int * 4
    }

    pub open spec fn spec_pixels(self) -> int {
        self.width as int * self.height as int
    }

    pub fn empty() -> (r: Self)
        ensures
            r == (ImageInfo {
                width: 0,
                height: 0,
                is_grayscale: false,
                transparency: Transparency::Opaque,
            }),
    {
        ImageInfo { width: 0, height: 0, is_grayscale: false, transparency: Transparency::Opaque }
    }

    pub fn new(width: u32, height: u32, transparency: Transparency) -> (r: Self)
        ensures
            r == (ImageInfo { width, height, is_grayscale: false, transparency }),
    {
        ImageInfo { width, height, is_grayscale: false, transparency }
    }

    pub fn number_of_pixels(&self) -> (r: usize)
        requires
            self.spec_pixels() <= usize::MAX,
        ensures
            r == self.spec_pixels(),
    {
        self.width as usize * self.height as usize
    }

    pub fn image_size(&self) -> (r: usize)
        requires
            self.spec_size() <= usize::MAX,
        ensures
            r == self.spec_size(),
    {
        self.width as usize * self.height as usize * 4
    }

    pub fn is_translucent(&self) -> (r: bool)
        ensures
            r == (self.transparency is Translucent),
    {
        match self.transparency {
            Transparency::Translucent => true,
            Transparency::Opaque => false,
        }
    }

    pub fn is_opaque(&self) -> (r: bool)
        ensures
            r == (self.transparency is Opaque),
    {
        match self.transparency {
            Transparency::Opaque => true,
            Transparency::Translucent => false,
        }
    }

    /// Reads the 4 bytes of pixel `(x, y)`; a coordinate outside the
    /// image's dimensions, or one whose chunk lies beyond the end of
    /// `data`, reads as transparent black.
    pub fn get_pixel(&self, x: u32, y: u32, data: &[u8]) -> (r: [u8; 4])
        ensures
            r@ == spec_pixel(data@, self.width as int, self.height as int, x as int, y as int),
    {
        proof {
            crate::arith::lemma_mul_le(y as int, u32::MAX as int, self.width as int, u32::MAX as int);
        }
        let len: usize = data.len();
        if x < self.width && y < self.height {
            let idx: u64 = x as u64 + y as u64 * self.width as u64;
            if idx as u128 * 4 + 4 <= len as u128 {
                let off: usize = (idx as u128 * 4) as usize;
                let r = [data[off], data[off + 1], data[off + 2], data[off + 3]];
                proof {
                    assert(r@ =~= spec_pixel(
                        data@,
                        self.width as int,
                        self.height as int,
                        x as int,
                        y as int,
                    ));
                }
                return r;
            }
        }
        let r = [0u8, 0u8, 0u8, 0u8];
        proof {
            assert(r@ =~= spec_pixel(
                data@,
                self.width as int,
                self.height as int,
                x as int,
                y as int,
            ));
        }
        r
    }

    /// Overwrites the 4 bytes of pixel `(x, y)`; a coordinate outside the
    /// image's dimensions, or one whose chunk lies beyond the end of
    /// `data`, writes nothing.
    pub fn set_pixel(&self, x: u32, y: u32, data: &mut Vec<u8>, value: [u8; 4])
        ensures
            final(data)@ == spec_set_pixel(
                old(data)@,
                self.width as int,
                self.height as int,
                x as int,
                y as int,
                value@,
            ),
    {
        proof {
            crate::arith::lemma_mul_le(y as int, u32::MAX as int, self.width as int, u32::MAX as int);
        }
        let len: usize = data.len();
        if x < self.width && y < self.height {
            let idx: u64 = x as u64 + y as u64 * self.width as u64;
            if idx as u128 * 4 + 4 <= len as u128 {
                let off: usize = (idx as u128 * 4) as usize;
                data[off] = value[0];
                data[off + 1] = value[1];
                data[off + 2] = value[2];
                data[off + 3] = value[3];
            }
        }
    }
}

impl Default for Transparency {
    fn default() -> (r: Self)
        ensures
            r is Opaque,
    {
        Transparency::Opaque
    }
}

impl Default for ImageInfo {
    fn default() -> (r: Self)
        ensures
            r == (ImageInfo {
                width: 0,
                height: 0,
                is_grayscale: false,
                transparency: Transparency::Opaque,
            }),
    {
        ImageInfo::empty()
    }
}

/// The 4-byte chunk of pixel `(x, y)` in a flat row-major RGBA8 buffer of
/// `width` by `height` pixels; an out-of-range coordinate, or one whose
/// chunk does not fit in `data`, reads as transparent black.
pub open spec fn spec_pixel(data: Seq<u8>, width: int, height: int, x: int, y: int) -> Seq<u8> {
    let off = (x + y * width) * 4;
    if 0 <= x < width && 0 <= y < height && 0 <= off && off + 4 <= data.len() {
        seq![data[off], data[off + 1], data[off + 2], data[off + 3]]
    } else {
        seq![0u8, 0u8, 0u8, 0u8]
    }
}

/// `data` with the 4-byte chunk of pixel `(x, y)` replaced by `v`;
/// unchanged for an out-of-range coordinate or one whose chunk does not
/// fit.
pub open spec fn spec_set_pixel(
    data: Seq<u8>,
    width: int,
    height: int,
    x: int,
    y: int,
    v: Seq<u8>,
) -> Seq<u8> {
    let off = (x + y * width) * 4;
    if 0 <= x < width && 0 <= y < height && 0 <= off && off + 4 <= data.len() {
        data.update(off, v[0]).update(off + 1, v[1]).update(off + 2, v[2]).update(off + 3, v[3])
    } else {
        data
    }
}

/// Fixed-point luminance weighting of the first three bytes of a pixel.
pub open spec fn spec_luminance(r: u8, g: u8, b: u8) -> u8 {
    ((r * 77 + g * 150 + b * 29) / 256) as u8
}

/// Integer luminance of an RGB(A) chunk; fewer than 3 bytes read as black.
pub fn luminance(rgb: &[u8]) -> (lum: u8)
    ensures
        lum == if rgb@.len() >= 3 {
            spec_luminance(rgb@[0], rgb@[1], rgb@[2])
        } else {
            0u8
        },
{
    if rgb.len() < 3 {
        return 0;
    }
    let r = rgb[0] as usize;
    let g = rgb[1] as usize;
    let b = rgb[2] as usize;
    ((r * 77 + g * 150 + b * 29) / 256) as u8
}

/// The blended channel values of `rhs` over `lhs`, as a 4-element sequence.
pub open spec fn spec_blend(lhs: Seq<u8>, rhs: Seq<u8>) -> Seq<u8> {
    let ra = rhs[3] as int;
    if ra == 255 {
        rhs
    } else if ra == 0 {
        lhs
    } else {
        let la = lhs[3] as int * (256 - ra) / 256;
        let sa = ra + la;
        if sa > 0 {
            seq![
                ((lhs[0] * la + rhs[0] * ra) / sa) as u8,
                ((lhs[1] * la + rhs[1] * ra) / sa) as u8,
                ((lhs[2] * la + rhs[2] * ra) / sa) as u8,
                sa as u8,
            ]
        } else {
            seq![0u8, 0u8, 0u8, 0u8]
        }
    }
}

/// Integer alpha blending of pixel `rhs` over background `lhs`, with the
/// fixed-point divisor 256.
pub fn blend(lhs: [u8; 4], rhs: [u8; 4]) -> (out: [u8; 4])
    ensures
        out@ == spec_blend(lhs@, rhs@),
{
    let ra = rhs[3];
    if ra == 255 {
        proof {
            assert(rhs@ =~= spec_blend(lhs@, rhs@));
        }
        return rhs;
    } else if ra == 0 {
        proof {
            assert(lhs@ =~= spec_blend(lhs@, rhs@));
        }
        return lhs;
    }

    let ra = ra as usize;
    proof {
        crate::arith::lemma_mul_le(lhs@[3] as int, 255, 256 - ra as int, 256 - ra as int);
        assert(255 * (256 - ra as int) == 256 * (255 - ra as int) + ra as int);
        crate::arith::lemma_div_exact(255 - ra as int, ra as int, 256);
        vstd::arithmetic::div_mod::lemma_div_is_ordered(
            lhs@[3] as int * (256 - ra as int),
            255 * (256 - ra as int),
            256,
        );
        vstd::arithmetic::mul::lemma_mul_nonnegative(lhs@[3] as int, 256 - ra as int);
        vstd::arithmetic::div_mod::lemma_div_pos_is_pos(lhs@[3] as int * (256 - ra as int), 256);
    }
    let la = (lhs[3] as usize) * (256 - ra) / 256;
    let sa = ra + la;

    if sa > 0 {
        proof {
            crate::arith::lemma_weighted_avg_le(lhs@[0] as int, rhs@[0] as int, la as int, ra as int, 255);
            crate::arith::lemma_weighted_avg_le(lhs@[1] as int, rhs@[1] as int, la as int, ra as int, 255);
            crate::arith::lemma_weighted_avg_le(lhs@[2] as int, rhs@[2] as int, la as int, ra as int, 255);
            crate::arith::lemma_mul_le(lhs@[0] as int, 255, la as int, 256);
            crate::arith::lemma_mul_le(lhs@[1] as int, 255, la as int, 256);
            crate::arith::lemma_mul_le(lhs@[2] as int, 255, la as int, 256);
            crate::arith::lemma_mul_le(rhs@[0] as int, 255, ra as int, 256);
            crate::arith::lemma_mul_le(rhs@[1] as int, 255, ra as int, 256);
            crate::arith::lemma_mul_le(rhs@[2] as int, 255, ra as int, 256);
        }
        let out = [
            ((lhs[0] as usize * la + rhs[0] as usize * ra) / sa) as u8,
            ((lhs[1] as usize * la + rhs[1] as usize * ra) / sa) as u8,
            ((lhs[2] as usize * la + rhs[2] as usize * ra) / sa) as u8,
            sa as u8,
        ];
        proof {
            assert(out@ =~= spec_blend(lhs@, rhs@));
        }
        out
    } else {
        let out = [0u8, 0u8, 0u8, 0u8];
        proof {
            assert(out@ =~= spec_blend(lhs@, rhs@));
        }
        out
    }
}

} // verus!
