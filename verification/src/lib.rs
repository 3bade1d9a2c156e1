//! Reader for the LOD game-asset archive container and its two indexed-image
//! record formats (full-frame bitmaps and sparse-row sprites), together with
//! palette handling, RGBA materialization and grid-atlas composition.

pub mod bytes;
pub mod error;
pub mod image;
pub mod lod;
pub mod palette;
pub mod sprite;
pub mod zlib;
