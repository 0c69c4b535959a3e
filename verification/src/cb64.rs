//! A 64-bit quantity stored as two adjacent 32-bit halves, as the packed
//! coreboot table layouts carry it to avoid the alignment padding a native
//! 64-bit field would force. Packing and unpacking are lossless inverses.

use vstd::prelude::*;

use crate::bytes::le32;

verus! {

/// A 64-bit value split into a low and a high 32-bit half.
#[derive(Clone, Copy, Debug, PartialEq, Eq, Structural)]
pub struct Cb64 {
    pub lo: u32,
    pub hi: u32,
}

/// The split representation of `value`: its low and high 32-bit halves.
pub open spec fn spec_pack(value: u64) -> Cb64 {
    Cb64 { lo: (value % 0x1_0000_0000) as u32, hi: (value / 0x1_0000_0000) as u32 }
}

/// The 64-bit value a split pair denotes.
pub open spec fn spec_unpack(v: Cb64) -> u64 {
    (v.lo + v.hi * 0x1_0000_0000) as u64
}

/// The split pair laid out at byte offset `i`: low half first, then high.
pub open spec fn spec_cb64(b: Seq<u8>, i: int) -> Cb64
    recommends
        0 <= i,
        i + 8 <= b.len(),
{
    Cb64 { lo: le32(b, i) as u32, hi: le32(b, i + 4) as u32 }
}

impl Cb64 {
    /// Splits a 64-bit value into its two halves.
    pub fn pack(value: u64) -> (r: Cb64)
        ensures
            r == spec_pack(value),
            spec_unpack(r) == value,
    {
        proof {
            lemma_pack_unpack(value);
        }
        Cb64 { lo: (value % 0x1_0000_0000) as u32, hi: (value / 0x1_0000_0000) as u32 }
    }

    /// Reassembles the 64-bit value from the two halves.
    pub fn unpack(&self) -> (r: u64)
        ensures
            r == spec_unpack(*self),
    {
        (self.lo as u64) + (self.hi as u64) * 0x1_0000_0000
    }

    /// Decodes the split pair laid out at byte offset `i`.
    pub fn decode(b: &Vec<u8>, i: usize) -> (r: Cb64)
        requires
            i + 8 <= b@.len(),
        ensures
            r == spec_cb64(b@, i as int),
    {
        let _n: usize = b.len();
        Cb64 { lo: crate::bytes::read_u32(b, i), hi: crate::bytes::read_u32(b, i + 4) }
    }
}

/// Splitting a 64-bit value and reassembling it gives the value back,
/// for every 64-bit value.
pub proof fn lemma_pack_unpack(value: u64)
    ensures
        spec_unpack(spec_pack(value)) == value,
{
    vstd::arithmetic::div_mod::lemma_fundamental_div_mod(value as int, 0x1_0000_0000);
}

/// Reassembling a split pair and splitting the result gives the pair back,
/// for every pair of halves.
pub proof fn lemma_unpack_pack(v: Cb64)
    ensures
        spec_pack(spec_unpack(v)) == v,
{
    let value = v.lo + v.hi * 0x1_0000_0000;
    assert(value % 0x1_0000_0000 == v.lo && value / 0x1_0000_0000 == v.hi) by (nonlinear_arith)
        requires
            0 <= v.lo < 0x1_0000_0000,
            0 <= v.hi < 0x1_0000_0000,
            value == v.lo + v.hi * 0x1_0000_0000,
    ;
}

} // verus!
