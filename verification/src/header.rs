//! The table header: a 4-byte magic signature followed by the header and
//! table sizes, their (unchecked) checksums, and the declared entry count.
//! A header is valid exactly when its signature equals the magic; the
//! checksum fields are carried but deliberately not verified.

use vstd::prelude::*;

use crate::bytes::{le32, read_u32};

verus! {

/// Byte length of the table header.
pub const HEADER_LEN: usize = 24;

/// First byte of the magic signature, `L`.
pub const MAGIC_0: u8 = 0x4c;

/// Second byte of the magic signature, `B`.
pub const MAGIC_1: u8 = 0x42;

/// Third byte of the magic signature, `I`.
pub const MAGIC_2: u8 = 0x49;

/// Fourth byte of the magic signature, `O`.
pub const MAGIC_3: u8 = 0x4f;

/// The 4-byte magic signature a valid header starts with.
pub open spec fn spec_magic() -> Seq<u8> {
    seq![MAGIC_0, MAGIC_1, MAGIC_2, MAGIC_3]
}

/// The table header, read by value out of a mapped window.
#[derive(Clone, Copy, Debug)]
pub struct Header {
    pub signature: [u8; 4],
    pub header_bytes: u32,
    pub header_checksum: u32,
    pub table_bytes: u32,
    pub table_checksum: u32,
    pub table_entries: u32,
}

/// Whether `h` holds exactly the fields laid out at byte offset `i` of `b`.
pub open spec fn spec_header_at(b: Seq<u8>, i: int, h: Header) -> bool
    recommends
        0 <= i,
        i + HEADER_LEN <= b.len(),
{
    &&& h.signature@ =~= b.subrange(i, i + 4)
    &&& h.header_bytes == le32(b, i + 4)
    &&& h.header_checksum == le32(b, i + 8)
    &&& h.table_bytes == le32(b, i + 12)
    &&& h.table_checksum == le32(b, i + 16)
    &&& h.table_entries == le32(b, i + 20)
}

/// Whether a whole header fits at byte offset `i` of `b` and its first four
/// bytes are the magic signature.
pub open spec fn valid_header_at(b: Seq<u8>, i: int) -> bool {
    &&& 0 <= i
    &&& i + HEADER_LEN <= b.len()
    &&& b[i] == MAGIC_0
    &&& b[i + 1] == MAGIC_1
    &&& b[i + 2] == MAGIC_2
    &&& b[i + 3] == MAGIC_3
}

impl Header {
    /// Whether this header's signature equals the magic. Nothing else is
    /// checked: the checksum fields are present but deliberately unverified.
    pub open spec fn spec_is_valid(&self) -> bool {
        self.signature@ =~= spec_magic()
    }

    /// Decodes the header laid out at byte offset `i`.
    pub fn decode(b: &Vec<u8>, i: usize) -> (r: Header)
        requires
            i + HEADER_LEN <= b@.len(),
        ensures
            spec_header_at(b@, i as int, r),
    {
        let _n: usize = b.len();
        let signature: [u8; 4] = [b[i], b[i + 1], b[i + 2], b[i + 3]];
        let r = Header {
            signature,
            header_bytes: read_u32(b, i + 4),
            header_checksum: read_u32(b, i + 8),
            table_bytes: read_u32(b, i + 12),
            table_checksum: read_u32(b, i + 16),
            table_entries: read_u32(b, i + 20),
        };
        proof {
            assert(r.signature@ =~= b@.subrange(i as int, i + 4));
        }
        r
    }

    /// Tests the signature against the magic.
    pub fn is_valid(&self) -> (r: bool)
        ensures
            r == self.spec_is_valid(),
    {
        let r = self.signature[0] == MAGIC_0 && self.signature[1] == MAGIC_1 && self.signature[2]
            == MAGIC_2 && self.signature[3] == MAGIC_3;
        proof {
            if r {
                assert(self.signature@ =~= spec_magic());
            }
            if self.signature@ =~= spec_magic() {
                assert(self.signature@[0] == MAGIC_0);
                assert(self.signature@[1] == MAGIC_1);
                assert(self.signature@[2] == MAGIC_2);
                assert(self.signature@[3] == MAGIC_3);
            }
        }
        r
    }
}

/// Header validity depends on the signature field alone: two headers with
/// equal signatures are either both accepted or both rejected, whatever
/// their other fields hold.
pub proof fn lemma_validity_is_signature_only(a: Header, b: Header)
    requires
        a.signature@ =~= b.signature@,
    ensures
        a.spec_is_valid() == b.spec_is_valid(),
{
}

/// A header decoded out of a window carries over to the memory the window
/// was mapped from: the same fields stand at the window's base plus the
/// offset within it.
pub proof fn lemma_header_at_shift(b: Seq<u8>, base: int, n: int, i: int, h: Header)
    requires
        0 <= base,
        0 <= i,
        base + n <= b.len(),
        i + HEADER_LEN <= n,
        spec_header_at(b.subrange(base, base + n), i, h),
    ensures
        spec_header_at(b, base + i, h),
{
    let sub = b.subrange(base, base + n);
    assert(forall|x: int| 0 <= x < n ==> sub[x] == b[base + x]);
    assert(h.signature@ =~= b.subrange(base + i, base + i + 4));
}

/// A header is valid at an offset of a window exactly when one is valid at
/// the matching address of the memory the window was mapped from.
pub proof fn lemma_valid_header_shift(b: Seq<u8>, base: int, n: int, i: int)
    requires
        0 <= base,
        0 <= i,
        base + n <= b.len(),
        i + HEADER_LEN <= n,
    ensures
        valid_header_at(b, base + i) == valid_header_at(b.subrange(base, base + n), i),
{
    let sub = b.subrange(base, base + n);
    assert(forall|x: int| 0 <= x < n ==> sub[x] == b[base + x]);
}

/// A decoded header is accepted exactly where the bytes it was read from
/// start with the magic signature.
pub proof fn lemma_valid_header_at_decode(b: Seq<u8>, i: int, h: Header)
    requires
        0 <= i,
        i + HEADER_LEN <= b.len(),
        spec_header_at(b, i, h),
    ensures
        h.spec_is_valid() == valid_header_at(b, i),
{
    assert(h.signature@[0] == b[i]);
    assert(h.signature@[1] == b[i + 1]);
    assert(h.signature@[2] == b[i + 2]);
    assert(h.signature@[3] == b[i + 3]);
    if valid_header_at(b, i) {
        assert(h.signature@ =~= spec_magic());
    }
    if h.spec_is_valid() {
        assert(b[i] == MAGIC_0);
    }
}

} // verus!
