//! A verified raster-image engine: one live RGBA8 pixel buffer with its
//! metadata, codec dispatch for loading and saving, geometric transforms
//! (crop and four resampling strategies), color reduction and compositing,
//! and an explicit snapshot checkpoint.

pub mod arith;
pub mod image;
pub mod codec;
pub mod color;
pub mod geometry;
pub mod laws;
pub mod resample;
pub mod session;

pub use codec::{image_type_to_string, ImageType};
pub use color::GrayScaleMode;
pub use geometry::ScaleMode;
pub use image::{blend, luminance, ImageInfo, Transparency};
pub use session::EditorSession;
