use vstd::bytes::u16_from_le_bytes;
use vstd::bytes::u32_from_le_bytes;
use vstd::bytes::u64_from_le_bytes;
use vstd::bytes::spec_u16_from_le_bytes;
use vstd::bytes::spec_u32_from_le_bytes;
use vstd::bytes::spec_u64_from_le_bytes;
use vstd::prelude::*;
use vstd::slice::slice_subrange;

verus! {

/// The little-endian 16-bit field stored at byte offset `off` of `s`.
pub open spec fn le16(s: Seq<u8>, off: int) -> u16 {
    spec_u16_from_le_bytes(s.subrange(off, off + 2))
}

/// The little-endian 32-bit field stored at byte offset `off` of `s`.
pub open spec fn le32(s: Seq<u8>, off: int) -> u32 {
    spec_u32_from_le_bytes(s.subrange(off, off + 4))
}

/// The little-endian 64-bit field stored at byte offset `off` of `s`.
pub open spec fn le64(s: Seq<u8>, off: int) -> u64 {
    spec_u64_from_le_bytes(s.subrange(off, off + 8))
}

/// Reads the little-endian 16-bit field at byte offset `off` of `bin`.
pub fn read_u16(bin: &[u8], off: usize) -> (r: u16)
    requires
        off + 2 <= bin@.len(),
    ensures
        r == le16(bin@, off as int),
{
    let n = bin.len();
    assert(off + 2 <= n);
    let end = off + 2;
    u16_from_le_bytes(slice_subrange(bin, off, end))
}

/// Reads the little-endian 32-bit field at byte offset `off` of `bin`.
pub fn read_u32(bin: &[u8], off: usize) -> (r: u32)
    requires
        off + 4 <= bin@.len(),
    ensures
        r == le32(bin@, off as int),
{
    let n = bin.len();
    assert(off + 4 <= n);
    let end = off + 4;
    u32_from_le_bytes(slice_subrange(bin, off, end))
}

/// Reads the little-endian 64-bit field at byte offset `off` of `bin`.
pub fn read_u64(bin: &[u8], off: usize) -> (r: u64)
    requires
        off + 8 <= bin@.len(),
    ensures
        r == le64(bin@, off as int),
{
    let n = bin.len();
    assert(off + 8 <= n);
    let end = off + 8;
    u64_from_le_bytes(slice_subrange(bin, off, end))
}

} // verus!
