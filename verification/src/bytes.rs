//! Little-endian field readers and the MFT file-reference split.

use vstd::prelude::*;

verus! {

/// The 16-bit little-endian value stored at byte index `i`.
pub open spec fn le16(b: Seq<u8>, i: int) -> u16 {
    (b[i] + b[i + 1] * 0x100) as u16
}

/// The 32-bit little-endian value stored at byte index `i`.
pub open spec fn le32(b: Seq<u8>, i: int) -> u32 {
    (b[i] + b[i + 1] * 0x100 + b[i + 2] * 0x10000 + b[i + 3] * 0x1000000) as u32
}

/// The 64-bit little-endian value stored at byte index `i`.
pub open spec fn le64(b: Seq<u8>, i: int) -> u64 {
    (b[i] + b[i + 1] * 0x100 + b[i + 2] * 0x10000 + b[i + 3] * 0x1000000 + b[i + 4]
        * 0x100000000 + b[i + 5] * 0x10000000000 + b[i + 6] * 0x1000000000000 + b[i + 7]
        * 0x100000000000000) as u64
}

/// Reads the 16-bit little-endian value at `i`.
pub fn read_le16(b: &Vec<u8>, i: usize) -> (r: u16)
    requires
        i + 2 <= b@.len(),
    ensures
        r == le16(b@, i as int),
{
    let n: usize = b.len();
    (b[i] as u16) + (b[i + 1] as u16) * 0x100
}

/// Reads the 32-bit little-endian value at `i`.
pub fn read_le32(b: &Vec<u8>, i: usize) -> (r: u32)
    requires
        i + 4 <= b@.len(),
    ensures
        r == le32(b@, i as int),
{
    let n: usize = b.len();
    (b[i] as u32) + (b[i + 1] as u32) * 0x100 + (b[i + 2] as u32) * 0x10000 + (b[i + 3] as u32)
        * 0x1000000
}

/// Reads the 64-bit little-endian value at `i`.
pub fn read_le64(b: &Vec<u8>, i: usize) -> (r: u64)
    requires
        i + 8 <= b@.len(),
    ensures
        r == le64(b@, i as int),
{
    let n: usize = b.len();
    (b[i] as u64) + (b[i + 1] as u64) * 0x100 + (b[i + 2] as u64) * 0x10000 + (b[i + 3] as u64)
        * 0x1000000 + (b[i + 4] as u64) * 0x100000000 + (b[i + 5] as u64) * 0x10000000000 + (b[i
        + 6] as u64) * 0x1000000000000 + (b[i + 7] as u64) * 0x100000000000000
}

} // verus!
