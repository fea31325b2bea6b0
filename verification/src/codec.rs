//! Loading and saving the live image: format dispatch on decode, and
//! per-format channel-layout extraction on encode.
//!
//! The bitstream work of the underlying formats is done by outside codec
//! crates; what they compute is named and assumed in the trusted items
//! below, and everything around those calls -- validation, channel
//! expansion and extraction, and the store commit -- is verified.

use crate::image::{ImageInfo, Transparency};
use crate::session::{EditorSession, StoreModel};
use rapid_qoi::{Colors, Qoi};
use vstd::prelude::*;

verus! {

/// The serialized image formats the engine recognizes.
#[derive(Debug, Clone, Copy, PartialEq, Eq, Structural)]
pub enum ImageType {
    Qoi,
    Mpic,
    Png,
}

/// The lower-case tag of a format.
pub fn image_type_to_string(val: ImageType) -> (r: String)
    ensures
        r@ == match val {
            ImageType::Qoi => "qoi"@,
            ImageType::Mpic => "mpic"@,
            ImageType::Png => "png"@,
        },
{
    match val {
        ImageType::Qoi => "qoi".to_owned(),
        ImageType::Mpic => "mpic".to_owned(),
        ImageType::Png => "png".to_owned(),
    }
}

/// What the QOI decoder yields on a byte stream: `None` on any stream it
/// rejects, else the header fields (width, height, alpha flag) and the
/// raw pixel bytes, 4 per pixel with alpha or 3 without.
pub uninterp spec fn qoi_decoding(bytes: Seq<u8>) -> Option<(u32, u32, bool, Seq<u8>)>;

/// What the QOI encoder emits for a header and an exact-size pixel
/// buffer.
pub uninterp spec fn qoi_encoding(width: u32, height: u32, alpha: bool, px: Seq<u8>) -> Seq<u8>;

/// What the png encoder emits for a header and payload in one of its
/// four 8-bit channel layouts, at maximum compression -- or `None` where
/// any stage of its writer fails.
pub uninterp spec fn png_encoding(
    width: u32,
    height: u32,
    gray: bool,
    alpha: bool,
    data: Seq<u8>,
) -> Option<Seq<u8>>;

/// Relies on rapid_qoi's `Qoi::decode_header` and `Qoi::decode_alloc`:
/// the decoded header and pixel bytes are a function of the input bytes
/// alone. A header whose decoded pixel size does not fit in `usize` is
/// rejected up front: handed such a stream, `decode_alloc` itself would
/// compute the size with a wrap and can panic on the misaligned buffer.
#[verifier::external_body]
fn qoi_decode_bytes(bytes: &[u8]) -> (r: Option<(u32, u32, bool, Vec<u8>)>)
    ensures
        match r {
            Some((w, h, a, px)) => qoi_decoding(bytes@) == Some((w, h, a, px@)),
            None => qoi_decoding(bytes@) is None,
        },
{
    let Ok(header) = Qoi::decode_header(bytes) else { return None };
    let size = header.width as u128 * header.height as u128 * header.colors.channels() as u128;
    if size > usize::MAX as u128 {
        return None;
    }
    match Qoi::decode_alloc(bytes) {
        Ok((qoi, px)) => {
            let alpha = matches!(qoi.colors, Colors::Rgba | Colors::SrgbLinA);
            Some((qoi.width, qoi.height, alpha, px))
        }
        Err(_) => None,
    }
}

/// Relies on rapid_qoi's `Qoi::encode_alloc`: on a pixel buffer of the
/// exact size, with the worst-case output size representable, encoding
/// succeeds and is a function of its arguments alone; decoding the
/// emitted stream gives back the same header and pixels (the format is
/// lossless).
#[verifier::external_body]
fn qoi_encode_bytes(width: u32, height: u32, alpha: bool, px: &[u8]) -> (r: Vec<u8>)
    requires
        px@.len() == width as int * height as int * (if alpha {
            4int
        } else {
            3int
        }),
        width as int * height as int * 5 + 22 <= usize::MAX,
    ensures
        r@ == qoi_encoding(width, height, alpha, px@),
        qoi_decoding(r@) == Some((width, height, alpha, px@)),
{
    let colors = if alpha { Colors::Rgba } else { Colors::Rgb };
    let qoi = Qoi { width, height, colors };
    match qoi.encode_alloc(px) {
        Ok(v) => v,
        // never reached: the buffer length matches the header exactly
        Err(_) => Vec::new(),
    }
}

/// Relies on the png crate's streaming encoder, `Encoder::new` through
/// `Writer::finish`: the emitted stream is a function of the header
/// fields and payload alone; a failure at any stage yields `None`.
#[verifier::external_body]
fn png_encode_bytes(width: u32, height: u32, gray: bool, alpha: bool, data: &[u8]) -> (r: Option<
    Vec<u8>,
>)
    ensures
        match r {
            Some(v) => png_encoding(width, height, gray, alpha, data@) == Some(v@),
            None => png_encoding(width, height, gray, alpha, data@) is None,
        },
{
    let color = match (gray, alpha) {
        (false, false) => png::ColorType::Rgb,
        (false, true) => png::ColorType::Rgba,
        (true, false) => png::ColorType::Grayscale,
        (true, true) => png::ColorType::GrayscaleAlpha,
    };
    let mut ob = Vec::new();
    let mut encoder = png::Encoder::new(&mut ob, width, height);
    encoder.set_depth(png::BitDepth::Eight);
    encoder.set_color(color);
    encoder.set_compression(png::Compression::Best);
    let Ok(mut writer) = encoder.write_header() else { return None };
    if writer.write_image_data(data).is_err() { return None }
    if writer.finish().is_err() { return None }
    Some(ob)
}

/// A 3-byte-per-pixel buffer expanded to RGBA8 with every alpha byte
/// forced to 255.
pub open spec fn expand_alpha(px: Seq<u8>) -> Seq<u8> {
    Seq::new((px.len() / 3 * 4) as nat, |i: int|
        if i % 4 == 3 {
            255u8
        } else {
            px[(i / 4) * 3 + i % 4]
        })
}

/// The RGB bytes of an RGBA8 buffer, alpha stripped.
pub open spec fn rgb_of(data: Seq<u8>) -> Seq<u8> {
    Seq::new((data.len() / 4 * 3) as nat, |i: int| data[(i / 3) * 4 + i % 3])
}

/// The first channel of each pixel of an RGBA8 buffer.
pub open spec fn gray_of(data: Seq<u8>) -> Seq<u8> {
    Seq::new((data.len() / 4) as nat, |i: int| data[i * 4])
}

/// The first channel and the alpha of each pixel of an RGBA8 buffer.
pub open spec fn gray_alpha_of(data: Seq<u8>) -> Seq<u8> {
    Seq::new((data.len() / 4 * 2) as nat, |i: int|
        if i % 2 == 0 {
            data[(i / 2) * 4]
        } else {
            data[(i / 2) * 4 + 3]
        })
}

/// The payload handed to the png encoder for each of the four channel
/// layouts chosen from the grayscale and transparency flags.
pub open spec fn png_payload(gray: bool, alpha: bool, data: Seq<u8>) -> Seq<u8> {
    if !gray && !alpha {
        rgb_of(data)
    } else if !gray && alpha {
        data
    } else if gray && !alpha {
        gray_of(data)
    } else {
        gray_alpha_of(data)
    }
}

/// Whether a byte stream decodes to an image the store can hold: the
/// recognized header carries nonzero dimensions, the pixel bytes have
/// exactly the promised size, and the RGBA8 buffer fits in memory.
pub open spec fn decode_accepted(bytes: Seq<u8>) -> bool {
    match qoi_decoding(bytes) {
        Some((w, h, a, px)) => {
            &&& w >= 1
            &&& h >= 1
            &&& px.len() == w as int * h as int * (if a {
                4int
            } else {
                3int
            })
            &&& w as int * h as int * 4 <= usize::MAX
        },
        None => false,
    }
}

/// The metadata a successful decode commits: dimensions and alpha flag
/// straight from the codec header, grayscale reset.
pub open spec fn decoded_info(bytes: Seq<u8>) -> ImageInfo {
    let (w, h, a, px) = qoi_decoding(bytes).unwrap();
    ImageInfo {
        width: w,
        height: h,
        is_grayscale: false,
        transparency: if a {
            Transparency::Translucent
        } else {
            Transparency::Opaque
        },
    }
}

/// The RGBA8 buffer a successful decode commits: the decoded bytes as
/// they are with alpha, expanded with opaque alpha without.
pub open spec fn decoded_data(bytes: Seq<u8>) -> Seq<u8> {
    let (w, h, a, px) = qoi_decoding(bytes).unwrap();
    if a {
        px
    } else {
        expand_alpha(px)
    }
}

/// Expands a 3-byte-per-pixel buffer to RGBA8 with opaque alpha.
fn expand_alpha_exec(px: &Vec<u8>, npix: usize) -> (r: Vec<u8>)
    requires
        px@.len() == npix as int * 3,
        npix as int * 4 <= usize::MAX,
    ensures
        r@ == expand_alpha(px@),
{
    let mut ob: Vec<u8> = Vec::new();
    let mut p: usize = 0;
    while p < npix
        invariant
            px@.len() == npix as int * 3,
            npix as int * 4 <= usize::MAX,
            p <= npix,
            ob@.len() == p as int * 4,
            forall|i: int|
                0 <= i < p * 4 ==> ob@[i] == (if i % 4 == 3 {
                    255u8
                } else {
                    px@[(i / 4) * 3 + i % 4]
                }),
        decreases npix - p,
    {
        proof {
            crate::arith::lemma_div_mod_split(p as int, 0, 4);
            crate::arith::lemma_div_mod_split(p as int, 1, 4);
            crate::arith::lemma_div_mod_split(p as int, 2, 4);
            crate::arith::lemma_div_mod_split(p as int, 3, 4);
            crate::arith::lemma_div_mod_split(p as int, 0, 3);
            crate::arith::lemma_div_mod_split(p as int, 1, 3);
            crate::arith::lemma_div_mod_split(p as int, 2, 3);
        }
        let off = p * 3;
        ob.push(px[off]);
        ob.push(px[off + 1]);
        ob.push(px[off + 2]);
        ob.push(255);
        p += 1;
    }
    proof {
        crate::arith::lemma_div_mod_split(npix as int, 0, 3);
        assert(ob@ =~= expand_alpha(px@));
    }
    ob
}

/// Strips the alpha byte of each pixel of an RGBA8 buffer.
fn extract_rgb(data: &Vec<u8>, npix: usize) -> (r: Vec<u8>)
    requires
        data@.len() == npix as int * 4,
    ensures
        r@ == rgb_of(data@),
{
    let len = data.len();
    let mut ob: Vec<u8> = Vec::new();
    let mut p: usize = 0;
    while p < npix
        invariant
            len == data@.len(),
            data@.len() == npix as int * 4,
            p <= npix,
            ob@.len() == p as int * 3,
            forall|i: int| 0 <= i < p * 3 ==> ob@[i] == data@[(i / 3) * 4 + i % 3],
        decreases npix - p,
    {
        proof {
            crate::arith::lemma_div_mod_split(p as int, 0, 3);
            crate::arith::lemma_div_mod_split(p as int, 1, 3);
            crate::arith::lemma_div_mod_split(p as int, 2, 3);
            crate::arith::lemma_div_mod_split(p as int, 0, 4);
        }
        let off = p * 4;
        ob.push(data[off]);
        ob.push(data[off + 1]);
        ob.push(data[off + 2]);
        p += 1;
    }
    proof {
        crate::arith::lemma_div_mod_split(npix as int, 0, 4);
        assert(ob@ =~= rgb_of(data@));
    }
    ob
}

/// Keeps only the first channel of each pixel of an RGBA8 buffer.
fn extract_gray(data: &Vec<u8>, npix: usize) -> (r: Vec<u8>)
    requires
        data@.len() == npix as int * 4,
    ensures
        r@ == gray_of(data@),
{
    let len = data.len();
    let mut ob: Vec<u8> = Vec::new();
    let mut p: usize = 0;
    while p < npix
        invariant
            len == data@.len(),
            data@.len() == npix as int * 4,
            p <= npix,
            ob@.len() == p,
            forall|i: int| 0 <= i < p ==> ob@[i] == data@[i * 4],
        decreases npix - p,
    {
        ob.push(data[p * 4]);
        p += 1;
    }
    proof {
        crate::arith::lemma_div_mod_split(npix as int, 0, 4);
        assert(ob@ =~= gray_of(data@));
    }
    ob
}

/// Keeps the first channel and the alpha of each pixel of an RGBA8
/// buffer.
fn extract_gray_alpha(data: &Vec<u8>, npix: usize) -> (r: Vec<u8>)
    requires
        data@.len() == npix as int * 4,
    ensures
        r@ == gray_alpha_of(data@),
{
    let len = data.len();
    let mut ob: Vec<u8> = Vec::new();
    let mut p: usize = 0;
    while p < npix
        invariant
            len == data@.len(),
            data@.len() == npix as int * 4,
            p <= npix,
            ob@.len() == p as int * 2,
            forall|i: int|
                0 <= i < p * 2 ==> ob@[i] == (if i % 2 == 0 {
                    data@[(i / 2) * 4]
                } else {
                    data@[(i / 2) * 4 + 3]
                }),
        decreases npix - p,
    {
        proof {
            crate::arith::lemma_div_mod_split(p as int, 0, 2);
            crate::arith::lemma_div_mod_split(p as int, 1, 2);
            crate::arith::lemma_div_mod_split(p as int, 0, 4);
        }
        let off = p * 4;
        ob.push(data[off]);
        ob.push(data[off + 3]);
        p += 1;
    }
    proof {
        crate::arith::lemma_div_mod_split(npix as int, 0, 4);
        assert(ob@ =~= gray_alpha_of(data@));
    }
    ob
}

impl EditorSession {
    /// Decodes a serialized image and replaces the live store with it;
    /// pixels without an alpha channel are expanded to RGBA8 with alpha
    /// forced to 255. An unrecognized or unusable stream fails with the
    /// store, and any snapshot, untouched; success invalidates the
    /// snapshot.
    pub fn decode(&mut self, buffer: &[u8]) -> (r: bool)
        requires
            old(self).wf(),
        ensures
            final(self).wf(),
            r == decode_accepted(buffer@),
            r ==> final(self).store() == (StoreModel {
                info: decoded_info(buffer@),
                data: decoded_data(buffer@),
            }),
            r ==> final(self).snapshot() is None,
            !r ==> *final(self) == *old(self),
    {
        let decoded = qoi_decode_bytes(buffer);
        let (w, h, alpha, px) = match decoded {
            Some(t) => t,
            None => {
                return false;
            },
        };
        proof {
            crate::arith::lemma_mul_le(w as int, u32::MAX as int, h as int, u32::MAX as int);
        }
        let pixels: u64 = w as u64 * h as u64;
        let expected: u128 = pixels as u128 * (if alpha {
            4
        } else {
            3
        });
        if w < 1 || h < 1 || (px.len() as u128) != expected || pixels as u128 * 4
            > usize::MAX as u128 {
            return false;
        }
        let npix: usize = pixels as usize;
        let data: Vec<u8> = if alpha {
            px
        } else {
            expand_alpha_exec(&px, npix)
        };
        proof {
            if !alpha {
                crate::arith::lemma_div_mod_split(npix as int, 0, 3);
            }
        }
        self.snapshot_clear();
        self.info = ImageInfo {
            width: w,
            height: h,
            is_grayscale: false,
            transparency: if alpha {
                Transparency::Translucent
            } else {
                Transparency::Opaque
            },
        };
        self.buffer = data;
        true
    }

    /// Serializes the live image in the requested format, choosing the
    /// channel layout from the transparency and grayscale flags; `None`
    /// where the format is unavailable here or its writer fails. The
    /// store is never touched.
    pub fn encode(&self, image_type: ImageType) -> (r: Option<Vec<u8>>)
        requires
            self.wf(),
        ensures
            match image_type {
                ImageType::Qoi => {
                    let alpha = self.info.transparency is Translucent;
                    let payload = if alpha {
                        self.buffer@
                    } else {
                        rgb_of(self.buffer@)
                    };
                    if self.info.spec_pixels() * 5 + 22 <= usize::MAX {
                        r matches Some(v) && v@ == qoi_encoding(
                            self.info.width,
                            self.info.height,
                            alpha,
                            payload,
                        ) && qoi_decoding(v@) == Some(
                            (self.info.width, self.info.height, alpha, payload),
                        )
                    } else {
                        r is None
                    }
                },
                ImageType::Mpic => r is None,
                ImageType::Png => {
                    let enc = png_encoding(
                        self.info.width,
                        self.info.height,
                        self.info.is_grayscale,
                        self.info.transparency is Translucent,
                        png_payload(
                            self.info.is_grayscale,
                            self.info.transparency is Translucent,
                            self.buffer@,
                        ),
                    );
                    match r {
                        Some(v) => enc == Some(v@),
                        None => enc is None,
                    }
                },
            },
    {
        let w = self.info.width;
        let h = self.info.height;
        proof {
            crate::arith::lemma_mul_le(w as int, u32::MAX as int, h as int, u32::MAX as int);
            crate::arith::lemma_div_mod_split(w as int * h as int, 0, 4);
        }
        let pixels: u64 = w as u64 * h as u64;
        let blen = self.buffer.len();
        proof {
            assert(pixels as int * 4 == blen as int);
        }
        let npix: usize = pixels as usize;
        match image_type {
            ImageType::Qoi => {
                if pixels as u128 * 5 + 22 > usize::MAX as u128 {
                    return None;
                }
                if self.info.is_translucent() {
                    Some(qoi_encode_bytes(w, h, true, self.buffer.as_slice()))
                } else {
                    let rgb = extract_rgb(&self.buffer, npix);
                    Some(qoi_encode_bytes(w, h, false, rgb.as_slice()))
                }
            },
            ImageType::Mpic => None,
            ImageType::Png => {
                let gray = self.info.is_grayscale;
                let alpha = self.info.is_translucent();
                if !gray && alpha {
                    png_encode_bytes(w, h, gray, alpha, self.buffer.as_slice())
                } else if !gray {
                    let payload = extract_rgb(&self.buffer, npix);
                    png_encode_bytes(w, h, gray, alpha, payload.as_slice())
                } else if !alpha {
                    let payload = extract_gray(&self.buffer, npix);
                    png_encode_bytes(w, h, gray, alpha, payload.as_slice())
                } else {
                    let payload = extract_gray_alpha(&self.buffer, npix);
                    png_encode_bytes(w, h, gray, alpha, payload.as_slice())
                }
            },
        }
    }
}

} // verus!
