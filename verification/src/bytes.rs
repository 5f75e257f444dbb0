//! Little-endian integers and 4-byte signatures inside byte sequences.
use vstd::prelude::*;

verus! {

broadcast use vstd::slice::group_slice_axioms;

/// The little-endian 16-bit value stored at `s[i..i + 2]`.
pub open spec fn le_u16(s: Seq<u8>, i: int) -> int {
    s[i] + 256 * s[i + 1]
}

/// The little-endian 32-bit value stored at `s[i..i + 4]`.
pub open spec fn le_u32(s: Seq<u8>, i: int) -> int {
    le_u16(s, i) + 65536 * le_u16(s, i + 2)
}

/// The little-endian 64-bit value stored at `s[i..i + 8]`.
pub open spec fn le_u64(s: Seq<u8>, i: int) -> int {
    le_u32(s, i) + 0x1_0000_0000 * le_u32(s, i + 4)
}

proof fn lemma_join_u8(b0: u8, b1: u8)
    ensures
        (b0 as u16) | ((b1 as u16) << 8u16) == b0 + 256 * b1,
{
    assert((b0 as u16) | ((b1 as u16) << 8u16) == b0 + 256 * b1) by (bit_vector);
}

proof fn lemma_join_u16(lo: u16, hi: u16)
    ensures
        (lo as u32) | ((hi as u32) << 16u32) == lo + 65536 * hi,
{
    assert((lo as u32) | ((hi as u32) << 16u32) == lo + 65536 * hi) by (bit_vector);
}

proof fn lemma_join_u32(lo: u32, hi: u32)
    ensures
        (lo as u64) | ((hi as u64) << 32u64) == lo + 0x1_0000_0000 * hi,
{
    assert((lo as u64) | ((hi as u64) << 32u64) == lo + 0x1_0000_0000 * hi) by (bit_vector);
}

/// Reads the little-endian `u16` at `data[i..i + 2]`.
pub fn read_u16(data: &[u8], i: usize) -> (r: u16)
    requires
        i + 2 <= data.len(),
    ensures
        r == le_u16(data@, i as int),
{
    let b0 = data[i];
    let b1 = data[i + 1];
    proof {
        lemma_join_u8(b0, b1);
    }
    (b0 as u16) | ((b1 as u16) << 8u16)
}

/// Reads the little-endian `u32` at `data[i..i + 4]`.
pub fn read_u32(data: &[u8], i: usize) -> (r: u32)
    requires
        i + 4 <= data.len(),
    ensures
        r == le_u32(data@, i as int),
{
    let lo = read_u16(data, i);
    let hi = read_u16(data, i + 2);
    proof {
        lemma_join_u16(lo, hi);
    }
    (lo as u32) | ((hi as u32) << 16u32)
}

/// Reads the little-endian `u64` at `data[i..i + 8]`.
pub fn read_u64(data: &[u8], i: usize) -> (r: u64)
    requires
        i + 8 <= data.len(),
    ensures
        r == le_u64(data@, i as int),
{
    let lo = read_u32(data, i);
    let hi = read_u32(data, i + 4);
    proof {
        lemma_join_u32(lo, hi);
    }
    (lo as u64) | ((hi as u64) << 32u64)
}

} // verus!
