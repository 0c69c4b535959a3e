//! Little-endian readers for the fixed-width fields of the packed coreboot
//! table layouts. Every record field in the wire format is low-endian
//! ordered; these are the only places raw bytes become numbers.

use vstd::prelude::*;

verus! {

/// The value of the four little-endian-ordered bytes starting at `i`.
pub open spec fn le32(b: Seq<u8>, i: int) -> int
    recommends
        0 <= i,
        i + 4 <= b.len(),
{
    b[i] + b[i + 1] * 0x100 + b[i + 2] * 0x10000 + b[i + 3] * 0x1000000
}

/// The value of the eight little-endian-ordered bytes starting at `i`.
pub open spec fn le64(b: Seq<u8>, i: int) -> int
    recommends
        0 <= i,
        i + 8 <= b.len(),
{
    le32(b, i) + le32(b, i + 4) * 0x1_0000_0000
}

/// Reads a little-endian 32-bit field at byte offset `i`.
pub fn read_u32(b: &Vec<u8>, i: usize) -> (r: u32)
    requires
        i + 4 <= b@.len(),
    ensures
        r == le32(b@, i as int),
{
    let _n: usize = b.len();
    (b[i] as u32) + (b[i + 1] as u32) * 0x100 + (b[i + 2] as u32) * 0x10000 + (b[i + 3] as u32)
        * 0x1000000
}

/// Reads a little-endian 64-bit field at byte offset `i`.
pub fn read_u64(b: &Vec<u8>, i: usize) -> (r: u64)
    requires
        i + 8 <= b@.len(),
    ensures
        r == le64(b@, i as int),
{
    let _n: usize = b.len();
    let lo = read_u32(b, i);
    let hi = read_u32(b, i + 4);
    (lo as u64) + (hi as u64) * 0x1_0000_0000
}

} // verus!
