//! The editor session: the single live image store plus the snapshot slot.
//!
//! Every operation of the engine works on an `EditorSession` passed by
//! reference. An operation either fully succeeds and commits its new state,
//! or fails and leaves the session untouched.

use crate::image::{ImageInfo, Transparency};
use vstd::prelude::*;

verus! {

/// Spec-level model of one image: its metadata and its bytes.
pub struct StoreModel {
    pub info: ImageInfo,
    pub data: Seq<u8>,
}

/// The alpha byte of pixel `j` of a flat RGBA8 buffer.
pub open spec fn alpha_at(data: Seq<u8>, j: int) -> u8 {
    data[j * 4 + 3]
}

/// True when none of the first `pixels` pixels of `data` has an alpha byte
/// below 255.
pub open spec fn all_alpha_opaque(data: Seq<u8>, pixels: int) -> bool {
    forall|j: int| 0 <= j < pixels ==> alpha_at(data, j) == 255
}

/// The transparency flag derived by scanning the alpha bytes of a freshly
/// assigned buffer.
pub open spec fn derived_transparency(data: Seq<u8>, pixels: int) -> Transparency {
    if all_alpha_opaque(data, pixels) {
        Transparency::Opaque
    } else {
        Transparency::Translucent
    }
}

/// The metadata committed together with a freshly assigned buffer: the
/// grayscale flag resets and the transparency flag is derived by scanning.
pub open spec fn committed_info(width: u32, height: u32, data: Seq<u8>) -> ImageInfo {
    ImageInfo {
        width,
        height,
        is_grayscale: false,
        transparency: derived_transparency(data, width as int * height as int),
    }
}

/// The live image store and the snapshot slot of one editing session.
pub struct EditorSession {
    pub info: ImageInfo,
    pub buffer: Vec<u8>,
    pub snapshot_info: Option<ImageInfo>,
    pub snapshot_buffer: Vec<u8>,
}

impl EditorSession {
    /// The layout invariant: each buffer holds exactly 4 bytes per pixel of
    /// the dimensions recorded beside it.
    pub open spec fn wf(self) -> bool {
        &&& self.buffer@.len() == self.info.spec_size()
        &&& match self.snapshot_info {
            Some(si) => self.snapshot_buffer@.len() == si.spec_size(),
            None => self.snapshot_buffer@.len() == 0,
        }
    }

    /// The live image as a model value.
    pub open spec fn store(self) -> StoreModel {
        StoreModel { info: self.info, data: self.buffer@ }
    }

    /// The checkpoint as a model value, if one is held.
    pub open spec fn snapshot(self) -> Option<StoreModel> {
        match self.snapshot_info {
            Some(si) => Some(StoreModel { info: si, data: self.snapshot_buffer@ }),
            None => None,
        }
    }

    /// A session that holds no image (0 by 0) and no snapshot.
    pub fn new() -> (r: Self)
        ensures
            r.wf(),
            r.info == (ImageInfo {
                width: 0,
                height: 0,
                is_grayscale: false,
                transparency: Transparency::Opaque,
            }),
            r.buffer@.len() == 0,
            r.snapshot() is None,
    {
        EditorSession {
            info: ImageInfo::empty(),
            buffer: Vec::new(),
            snapshot_info: None,
            snapshot_buffer: Vec::new(),
        }
    }

    pub fn image_width(&self) -> (r: u32)
        ensures
            r == self.info.width,
    {
        self.info.width
    }

    pub fn image_height(&self) -> (r: u32)
        ensures
            r == self.info.height,
    {
        self.info.height
    }

    pub fn image_has_alpha(&self) -> (r: bool)
        ensures
            r == (self.info.transparency is Translucent),
    {
        self.info.is_translucent()
    }

    pub fn image_is_grayscale(&self) -> (r: bool)
        ensures
            r == self.info.is_grayscale,
    {
        self.info.is_grayscale
    }

    /// Overrides the transparency flag without touching the pixel bytes.
    pub fn set_image_has_alpha(&mut self, value: usize)
        ensures
            final(self).info == (ImageInfo {
                transparency: if value != 0 {
                    Transparency::Translucent
                } else {
                    Transparency::Opaque
                },
                ..old(self).info
            }),
            final(self).buffer == old(self).buffer,
            final(self).snapshot_info == old(self).snapshot_info,
            final(self).snapshot_buffer == old(self).snapshot_buffer,
    {
        self.info.transparency = if value != 0 {
            Transparency::Translucent
        } else {
            Transparency::Opaque
        };
    }

    pub fn image_buffer_get_size(&self) -> (r: usize)
        ensures
            r == self.buffer@.len(),
    {
        self.buffer.len()
    }

    /// Read access to the live pixel bytes.
    pub fn image_buffer(&self) -> (r: &Vec<u8>)
        ensures
            r == &self.buffer,
    {
        &self.buffer
    }

    /// Drops the image and the snapshot, returning to the empty session.
    pub fn cleanup(&mut self)
        ensures
            final(self).wf(),
            final(self).info == (ImageInfo {
                width: 0,
                height: 0,
                is_grayscale: false,
                transparency: Transparency::Opaque,
            }),
            final(self).buffer@.len() == 0,
            final(self).snapshot() is None,
    {
        self.buffer = Vec::new();
        self.info = ImageInfo::empty();
        self.snapshot_clear();
    }

    /// Replaces the live image with the first `width * height` pixels of
    /// `buffer` and derives its metadata; fails without any change when
    /// `buffer` is too short. Success invalidates the snapshot.
    pub fn set_image_buffer(&mut self, buffer: &[u8], width: u32, height: u32) -> (r: bool)
        requires
            old(self).wf(),
        ensures
            final(self).wf(),
            r == (buffer@.len() >= width as int * height as int * 4),
            r ==> final(self).store() == (StoreModel {
                info: committed_info(
                    width,
                    height,
                    buffer@.subrange(0, width as int * height as int * 4),
                ),
                data: buffer@.subrange(0, width as int * height as int * 4),
            }),
            r ==> final(self).snapshot() is None,
            !r ==> *final(self) == *old(self),
    {
        proof {
            crate::arith::lemma_mul_le(width as int, u32::MAX as int, height as int, u32::MAX as int);
        }
        let pixels: u64 = width as u64 * height as u64;
        let need: u128 = pixels as u128 * 4;
        if (buffer.len() as u128) < need {
            return false;
        }
        let size: usize = need as usize;
        let mut data: Vec<u8> = Vec::new();
        let mut k: usize = 0;
        while k < size
            invariant
                k <= size,
                size <= buffer@.len(),
                data@ =~= buffer@.subrange(0, k as int),
            decreases size - k,
        {
            data.push(buffer[k]);
            k += 1;
        }
        proof {
            assert(data@ =~= buffer@.subrange(0, width as int * height as int * 4));
        }
        self.snapshot_clear();
        self.commit_buffer(data, width, height);
        true
    }

    /// Re-derives the image metadata for the given dimensions from the bytes
    /// already in the live buffer, which is truncated to the exact size;
    /// fails without any change when the buffer is too short. Success
    /// invalidates the snapshot.
    pub fn set_image_info(&mut self, width: u32, height: u32) -> (r: bool)
        requires
            old(self).wf(),
        ensures
            final(self).wf(),
            r == (old(self).buffer@.len() >= width as int * height as int * 4),
            r ==> final(self).store() == (StoreModel {
                info: committed_info(
                    width,
                    height,
                    old(self).buffer@.subrange(0, width as int * height as int * 4),
                ),
                data: old(self).buffer@.subrange(0, width as int * height as int * 4),
            }),
            r ==> final(self).snapshot() is None,
            !r ==> *final(self) == *old(self),
    {
        proof {
            crate::arith::lemma_mul_le(width as int, u32::MAX as int, height as int, u32::MAX as int);
        }
        let pixels: u64 = width as u64 * height as u64;
        let need: u128 = pixels as u128 * 4;
        if (self.buffer.len() as u128) < need {
            return false;
        }
        let size: usize = need as usize;
        self.buffer.truncate(size);
        proof {
            assert(self.buffer@ =~= old(self).buffer@.subrange(
                0,
                width as int * height as int * 4,
            ));
            assert(width as int * height as int <= usize::MAX);
        }
        self.snapshot_clear();
        let npix: usize = width as usize * height as usize;
        let translucent = scan_translucent(&self.buffer, npix);
        self.info = ImageInfo {
            width,
            height,
            is_grayscale: false,
            transparency: if translucent {
                Transparency::Translucent
            } else {
                Transparency::Opaque
            },
        };
        true
    }

    /// Installs `data` as the live buffer for an image of `width` by
    /// `height` pixels, deriving the metadata as a fresh assignment does.
    /// The snapshot slot is not touched.
    pub(crate) fn commit_buffer(&mut self, data: Vec<u8>, width: u32, height: u32)
        requires
            data@.len() == width as int * height as int * 4,
            match old(self).snapshot_info {
                Some(si) => old(self).snapshot_buffer@.len() == si.spec_size(),
                None => old(self).snapshot_buffer@.len() == 0,
            },
        ensures
            final(self).wf(),
            final(self).info == committed_info(width, height, data@),
            final(self).buffer@ == data@,
            final(self).snapshot_info == old(self).snapshot_info,
            final(self).snapshot_buffer == old(self).snapshot_buffer,
    {
        let len = data.len();
        proof {
            assert(width as int * height as int <= usize::MAX);
        }
        let npix: usize = width as usize * height as usize;
        let translucent = scan_translucent(&data, npix);
        self.info = ImageInfo {
            width,
            height,
            is_grayscale: false,
            transparency: if translucent {
                Transparency::Translucent
            } else {
                Transparency::Opaque
            },
        };
        self.buffer = data;
    }

    /// Copies the live image into the snapshot slot, overwriting any prior
    /// checkpoint.
    pub fn snapshot_save(&mut self)
        requires
            old(self).wf(),
        ensures
            final(self).wf(),
            final(self).store() == old(self).store(),
            final(self).snapshot() == Some(old(self).store()),
    {
        self.snapshot_info = Some(self.info);
        self.snapshot_buffer = Vec::new();
        let n = self.buffer.len();
        let mut k: usize = 0;
        while k < n
            invariant
                k <= n,
                n == self.buffer@.len(),
                self.buffer == old(self).buffer,
                self.info == old(self).info,
                self.snapshot_info == Some(old(self).info),
                self.snapshot_buffer@ =~= self.buffer@.subrange(0, k as int),
            decreases n - k,
        {
            let b = self.buffer[k];
            self.snapshot_buffer.push(b);
            k += 1;
        }
        proof {
            assert(self.snapshot_buffer@ =~= self.buffer@);
        }
    }

    /// Rolls the live image back to the snapshot, which stays in place so
    /// the roll-back can be repeated; fails when no snapshot is held.
    pub fn snapshot_restore(&mut self) -> (r: bool)
        requires
            old(self).wf(),
        ensures
            final(self).wf(),
            r == (old(self).snapshot() is Some),
            r ==> Some(final(self).store()) == old(self).snapshot(),
            final(self).snapshot() == old(self).snapshot(),
            !r ==> *final(self) == *old(self),
    {
        let info = match &self.snapshot_info {
            Some(info) => *info,
            None => {
                return false;
            },
        };
        self.info = info;
        self.buffer = Vec::new();
        let n = self.snapshot_buffer.len();
        let mut k: usize = 0;
        while k < n
            invariant
                k <= n,
                n == self.snapshot_buffer@.len(),
                self.snapshot_buffer == old(self).snapshot_buffer,
                self.snapshot_info == old(self).snapshot_info,
                self.info == info,
                self.buffer@ =~= self.snapshot_buffer@.subrange(0, k as int),
            decreases n - k,
        {
            let b = self.snapshot_buffer[k];
            self.buffer.push(b);
            k += 1;
        }
        proof {
            assert(self.buffer@ =~= self.snapshot_buffer@);
        }
        true
    }

    /// Discards the snapshot; the live image is untouched.
    pub fn snapshot_clear(&mut self)
        ensures
            final(self).info == old(self).info,
            final(self).buffer == old(self).buffer,
            final(self).snapshot() is None,
            final(self).snapshot_buffer@.len() == 0,
    {
        self.snapshot_info = None;
        self.snapshot_buffer = Vec::new();
    }
}

/// Scans the alpha byte of each of the first `npix` pixels; true when any
/// of them is below 255.
fn scan_translucent(data: &Vec<u8>, npix: usize) -> (r: bool)
    requires
        npix as int * 4 <= data@.len(),
    ensures
        r == !all_alpha_opaque(data@, npix as int),
{
    let len = data.len();
    let mut idx: usize = 0;
    while idx < npix
        invariant
            idx <= npix,
            npix as int * 4 <= len,
            len == data@.len(),
            forall|j: int| 0 <= j < idx ==> alpha_at(data@, j) == 255,
        decreases npix - idx,
    {
        if data[idx * 4 + 3] != 255 {
            assert(alpha_at(data@, idx as int) != 255);
            return true;
        }
        idx += 1;
    }
    false
}

} // verus!
