//! Little-endian field decoding for on-disk and in-file structures.

use vstd::prelude::*;

verus! {

pub open spec fn le_u16(b: Seq<u8>, off: int) -> int {
    b[off] as int + b[off + 1] as int * 0x100
}

pub open spec fn le_u32(b: Seq<u8>, off: int) -> int {
    le_u16(b, off) + le_u16(b, off + 2) * 0x1_0000
}

pub open spec fn le_u64(b: Seq<u8>, off: int) -> int {
    le_u32(b, off) + le_u32(b, off + 4) * 0x1_0000_0000
}

/// The little-endian `u16` at byte `off`.
pub fn read_u16(b: &[u8], off: usize) -> (r: u16)
    requires
        off + 2 <= b@.len(),
    ensures
        r == le_u16(b@, off as int),
{
    b[off] as u16 + (b[off + 1] as u16) * 0x100
}

/// The little-endian `u32` at byte `off`.
pub fn read_u32(b: &[u8], off: usize) -> (r: u32)
    requires
        off + 4 <= b@.len(),
    ensures
        r == le_u32(b@, off as int),
{
    let _n = b.len();
    let lo = read_u16(b, off);
    let hi = read_u16(b, off + 2);
    lo as u32 + (hi as u32) * 0x1_0000
}

/// The little-endian `u64` at byte `off`.
pub fn read_u64(b: &[u8], off: usize) -> (r: u64)
    requires
        off + 8 <= b@.len(),
    ensures
        r == le_u64(b@, off as int),
{
    let _n = b.len();
    let lo = read_u32(b, off);
    let hi = read_u32(b, off + 4);
    lo as u64 + (hi as u64) * 0x1_0000_0000
}

} // verus!
