//! Size-validated zlib decompression. The inflate algorithm itself is the
//! outside crate's; this module checks the declared sizes around it.

use vstd::prelude::*;

use crate::error::LodError;

verus! {

/// What `miniz_oxide::inflate::decompress_to_vec_zlib` returns on a byte
/// sequence: `Some` of the inflated bytes when the input is a well-formed
/// zlib stream, `None` otherwise. The result depends on the bytes alone.
pub uninterp spec fn zlib_inflate(s: Seq<u8>) -> Option<Seq<u8>>;

/// Relies on `miniz_oxide::inflate::decompress_to_vec_zlib`: inflating a
/// zlib stream is a function of the input bytes alone; failure reports the
/// decompressor's status, which this crate does not inspect further.
#[verifier::external_body]
fn inflate(data: &[u8]) -> (r: Option<Vec<u8>>)
    ensures
        match r {
            Some(v) => zlib_inflate(data@) == Some(v@),
            None => zlib_inflate(data@) is None,
        },
{
    match miniz_oxide::inflate::decompress_to_vec_zlib(data) {
        Ok(v) => Some(v),
        Err(_) => None,
    }
}

/// What `decompress` returns: the first `expected_compressed` bytes of `s`
/// inflated, provided `s` holds that many bytes, the stream is well formed,
/// and the inflated length equals `expected_uncompressed`.
pub open spec fn spec_decompress(s: Seq<u8>, expected_compressed: int, expected_uncompressed: int) -> Result<
    Seq<u8>,
    LodError,
> {
    if s.len() < expected_compressed {
        Err(LodError::SizeMismatch)
    } else {
        match zlib_inflate(s.take(expected_compressed)) {
            None => Err(LodError::DecompressionError),
            Some(out) => if out.len() == expected_uncompressed {
                Ok(out)
            } else {
                Err(LodError::SizeMismatch)
            },
        }
    }
}

/// Inflates the first `expected_compressed` bytes of `compressed` and checks
/// that exactly `expected_uncompressed` bytes come out.
pub fn decompress(compressed: &[u8], expected_compressed: usize, expected_uncompressed: usize) -> (r: Result<
    Vec<u8>,
    LodError,
>)
    ensures
        match r {
            Ok(v) => spec_decompress(
                compressed@,
                expected_compressed as int,
                expected_uncompressed as int,
            ) == Ok::<Seq<u8>, LodError>(v@),
            Err(e) => spec_decompress(
                compressed@,
                expected_compressed as int,
                expected_uncompressed as int,
            ) == Err::<Seq<u8>, LodError>(e),
        },
{
    let n: usize = compressed.len();
    if n < expected_compressed {
        return Err(LodError::SizeMismatch);
    }
    let stream: &[u8] = vstd::slice::slice_subrange(compressed, 0, expected_compressed);
    assert(stream@ == compressed@.take(expected_compressed as int));
    match inflate(stream) {
        None => Err(LodError::DecompressionError),
        Some(out) => {
            if out.len() == expected_uncompressed {
                Ok(out)
            } else {
                Err(LodError::SizeMismatch)
            }
        },
    }
}

} // verus!
