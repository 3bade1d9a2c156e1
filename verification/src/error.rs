use vstd::prelude::*;

verus! {

/// Every failure a decode or lookup can surface. No function of this crate
/// aborts: malformed input always comes back as one of these values.
#[derive(Clone, Copy, Debug, PartialEq, Eq, Structural)]
pub enum LodError {
    /// The archive magic is wrong, or a directory entry name is not valid UTF-8.
    BadFormat,
    /// The archive version tag is not one of the recognized tags.
    UnsupportedVersion,
    /// The archive is too short to hold the directory it declares.
    TruncatedIndex,
    /// An image record is too short to hold the structure it declares.
    TruncatedRecord,
    /// A declared compressed or uncompressed length disagrees with the data.
    SizeMismatch,
    /// The compressed payload is not a well-formed zlib stream.
    DecompressionError,
    /// No archive entry has the requested name.
    NotFound,
    /// No palette is stored under the requested id.
    PaletteNotFound,
    /// A sprite row table references data outside the run buffer or the image.
    RowOverrun,
    /// A pixel index falls outside the palette.
    PaletteIndexOutOfRange,
    /// A bitmap record declares a zero-sized pixel buffer.
    EmptyImage,
    /// Atlas composition was asked for zero tiles.
    EmptyAtlas,
    /// An entry's offset and size point outside the archive's bytes.
    IoError,
}

} // verus!
