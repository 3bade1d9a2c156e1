//! Little-endian field readers for the fixed-layout structures of the LOD
//! container and its image records.

use vstd::prelude::*;

verus! {

/// The `u16` stored little-endian at byte offset `off` of `s`.
pub open spec fn le16(s: Seq<u8>, off: int) -> u16
    recommends
        0 <= off,
        off + 2 <= s.len(),
{
    vstd::bytes::spec_u16_from_le_bytes(s.subrange(off, off + 2))
}

/// The `u32` stored little-endian at byte offset `off` of `s`.
pub open spec fn le32(s: Seq<u8>, off: int) -> u32
    recommends
        0 <= off,
        off + 4 <= s.len(),
{
    vstd::bytes::spec_u32_from_le_bytes(s.subrange(off, off + 4))
}

/// The two's-complement value of the 32-bit field at byte offset `off` of `s`.
pub open spec fn le32_signed(s: Seq<u8>, off: int) -> int
    recommends
        0 <= off,
        off + 4 <= s.len(),
{
    if le32(s, off) < 0x8000_0000 {
        le32(s, off) as int
    } else {
        le32(s, off) - 0x1_0000_0000
    }
}

/// Reads the little-endian `u16` at offset `off`.
pub fn read_u16_le(data: &[u8], off: usize) -> (r: u16)
    requires
        off + 2 <= data@.len(),
    ensures
        r == le16(data@, off as int),
{
    let n: usize = data.len();
    proof {
        assert(off + 2 <= n);
    }
    let bytes: &[u8] = vstd::slice::slice_subrange(data, off, off + 2);
    vstd::bytes::u16_from_le_bytes(bytes)
}

/// Reads the little-endian `u32` at offset `off`.
pub fn read_u32_le(data: &[u8], off: usize) -> (r: u32)
    requires
        off + 4 <= data@.len(),
    ensures
        r == le32(data@, off as int),
{
    let n: usize = data.len();
    proof {
        assert(off + 4 <= n);
    }
    let bytes: &[u8] = vstd::slice::slice_subrange(data, off, off + 4);
    vstd::bytes::u32_from_le_bytes(bytes)
}

/// Reads the 32-bit field at offset `off` as a signed two's-complement value.
pub fn read_i32_le(data: &[u8], off: usize) -> (r: i64)
    requires
        off + 4 <= data@.len(),
    ensures
        r == le32_signed(data@, off as int),
{
    let v: u32 = read_u32_le(data, off);
    if v >= 0x8000_0000 {
        (v as i64) - 0x1_0000_0000i64
    } else {
        v as i64
    }
}

/// Whether two byte slices hold the same bytes.
pub fn bytes_eq(a: &[u8], b: &[u8]) -> (r: bool)
    ensures
        r == (a@ == b@),
{
    let na: usize = a.len();
    let nb: usize = b.len();
    if na != nb {
        assert(a@ != b@) by {
            assert(a@.len() != b@.len());
        }
        return false;
    }
    let mut i: usize = 0;
    while i < na
        invariant
            na == a@.len() && na == b@.len(),
            0 <= i <= na,
            forall|j: int| 0 <= j < i ==> a@[j] == b@[j],
        decreases na - i,
    {
        if a[i] != b[i] {
            return false;
        }
        i += 1;
    }
    assert(a@ =~= b@);
    true
}

} // verus!
