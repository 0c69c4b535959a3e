//! The CMOS option-table record: a container whose payload, starting at a
//! declared header-length offset, is itself a sequence of self-describing
//! sub-records — option entries and option enums, each with a trailing
//! NUL-terminated string bounded by the sub-record's declared size.

use vstd::prelude::*;

use crate::bytes::{le32, read_u32};
use crate::record::{
    spec_record, Record, CMOS_OPTION_ENTRY_TAG, CMOS_OPTION_ENUM_TAG, RECORD_LEN,
};

verus! {

/// Byte length of the fixed CMOS option-table record layout.
pub const CMOS_LEN: usize = 12;

/// Byte length of the fixed prefix of an option-entry sub-record.
pub const CMOS_ENTRY_LEN: usize = 24;

/// Byte length of the fixed prefix of an option-enum sub-record.
pub const CMOS_ENUM_LEN: usize = 16;

/// The longest prefix of `b` that holds no NUL byte: everything up to the
/// first NUL, or all of `b` if it has none.
pub open spec fn nul_prefix(b: Seq<u8>) -> Seq<u8>
    decreases b.len(),
{
    if b.len() == 0 {
        Seq::empty()
    } else if b[0] == 0 {
        Seq::empty()
    } else {
        seq![b[0]] + nul_prefix(b.skip(1))
    }
}

/// A sequence equals `nul_prefix(b)` exactly when it is a NUL-free prefix
/// of `b` that is either all of `b` or stops right before a NUL.
pub proof fn lemma_nul_prefix(b: Seq<u8>, n: int)
    requires
        0 <= n <= b.len(),
        forall|k: int| 0 <= k < n ==> b[k] != 0,
        n < b.len() ==> b[n] == 0,
    ensures
        nul_prefix(b) =~= b.subrange(0, n),
    decreases b.len(),
{
    if b.len() == 0 {
    } else if b[0] == 0 {
        assert(n == 0);
    } else {
        assert(n >= 1);
        let t = b.skip(1);
        assert(forall|k: int| 0 <= k < n - 1 ==> t[k] == b[k + 1] && t[k] != 0);
        lemma_nul_prefix(t, n - 1);
        assert(nul_prefix(b) =~= b.subrange(0, n));
    }
}

/// Copies the NUL-bounded string that starts at byte offset `start` and may
/// run at most `max` bytes: everything up to but not including the first
/// NUL, or all `max` bytes if no NUL occurs. Never reads past the bound.
fn text(b: &Vec<u8>, start: usize, max: usize) -> (r: Vec<u8>)
    requires
        start + max <= b@.len(),
    ensures
        r@ == nul_prefix(b@.subrange(start as int, start + max)),
{
    let _n: usize = b.len();
    let mut r: Vec<u8> = Vec::new();
    let mut j: usize = 0;
    while j < max && b[start + j] != 0
        invariant
            start + max <= b@.len(),
            b@.len() <= usize::MAX,
            j <= max,
            r@ =~= b@.subrange(start as int, start + j),
            forall|k: int| start <= k < start + j ==> b@[k] != 0,
        decreases max - j,
    {
        r.push(b[start + j]);
        j = j + 1;
    }
    proof {
        let region = b@.subrange(start as int, start + max);
        assert(forall|k: int| 0 <= k < j ==> region[k] == b@[start + k] && region[k] != 0);
        assert(j < max ==> region[j as int] == b@[start + j] && region[j as int] == 0);
        lemma_nul_prefix(region, j as int);
        assert(r@ =~= region.subrange(0, j as int));
    }
    r
}

/// A decoded CMOS option-entry sub-record: bit offset, bit length, CMOS
/// byte address, config identifier, and the NUL-bounded option name.
#[derive(Debug)]
pub struct CmosEntry {
    pub record: Record,
    pub bit: u32,
    pub length: u32,
    pub config: u32,
    pub config_id: u32,
    pub name_bytes: Vec<u8>,
}

/// Whether `e` holds exactly the option entry laid out at byte offset `i`
/// of `b` with declared size `size`.
pub open spec fn spec_cmos_entry_at(b: Seq<u8>, i: int, size: int, e: CmosEntry) -> bool
    recommends
        0 <= i,
        CMOS_ENTRY_LEN <= size,
        i + size <= b.len(),
{
    &&& e.record == spec_record(b, i)
    &&& e.bit == le32(b, i + 8)
    &&& e.length == le32(b, i + 12)
    &&& e.config == le32(b, i + 16)
    &&& e.config_id == le32(b, i + 20)
    &&& e.name_bytes@ == nul_prefix(b.subrange(i + CMOS_ENTRY_LEN, i + size))
}

impl CmosEntry {
    /// Decodes the option-entry sub-record at byte offset `i` whose
    /// declared total size is `size`.
    pub fn decode(b: &Vec<u8>, i: usize, size: usize) -> (r: CmosEntry)
        requires
            CMOS_ENTRY_LEN <= size,
            i + size <= b@.len(),
            spec_record(b@, i as int).size == size,
        ensures
            spec_cmos_entry_at(b@, i as int, size as int, r),
    {
        let _n: usize = b.len();
        CmosEntry {
            record: Record::decode(b, i),
            bit: read_u32(b, i + 8),
            length: read_u32(b, i + 12),
            config: read_u32(b, i + 16),
            config_id: read_u32(b, i + 20),
            name_bytes: text(b, i + CMOS_ENTRY_LEN, size - CMOS_ENTRY_LEN),
        }
    }

    /// The option's name: the trailing bytes up to the first NUL.
    pub fn name(&self) -> (r: &Vec<u8>)
        ensures
            r@ == self.name_bytes@,
    {
        &self.name_bytes
    }
}

/// A decoded CMOS option-enum sub-record: config identifier, numeric value,
/// and the NUL-bounded label.
#[derive(Debug)]
pub struct CmosEnum {
    pub record: Record,
    pub config_id: u32,
    pub value: u32,
    pub text_bytes: Vec<u8>,
}

/// Whether `e` holds exactly the option enum laid out at byte offset `i`
/// of `b` with declared size `size`.
pub open spec fn spec_cmos_enum_at(b: Seq<u8>, i: int, size: int, e: CmosEnum) -> bool
    recommends
        0 <= i,
        CMOS_ENUM_LEN <= size,
        i + size <= b.len(),
{
    &&& e.record == spec_record(b, i)
    &&& e.config_id == le32(b, i + 8)
    &&& e.value == le32(b, i + 12)
    &&& e.text_bytes@ == nul_prefix(b.subrange(i + CMOS_ENUM_LEN, i + size))
}

impl CmosEnum {
    /// Decodes the option-enum sub-record at byte offset `i` whose declared
    /// total size is `size`.
    pub fn decode(b: &Vec<u8>, i: usize, size: usize) -> (r: CmosEnum)
        requires
            CMOS_ENUM_LEN <= size,
            i + size <= b@.len(),
            spec_record(b@, i as int).size == size,
        ensures
            spec_cmos_enum_at(b@, i as int, size as int, r),
    {
        let _n: usize = b.len();
        CmosEnum {
            record: Record::decode(b, i),
            config_id: read_u32(b, i + 8),
            value: read_u32(b, i + 12),
            text_bytes: text(b, i + CMOS_ENUM_LEN, size - CMOS_ENUM_LEN),
        }
    }

    /// The enum's label: the trailing bytes up to the first NUL.
    pub fn text(&self) -> (r: &Vec<u8>)
        ensures
            r@ == self.text_bytes@,
    {
        &self.text_bytes
    }
}

/// One decoded sub-record of a CMOS option table.
#[derive(Debug)]
pub enum CmosRecord {
    Entry(CmosEntry),
    Enum(CmosEnum),
    Other(Record),
}

/// A decoded CMOS option-table record. It keeps the record's raw bytes so
/// the nested sub-records can be walked on demand.
#[derive(Debug)]
pub struct Cmos {
    pub record: Record,
    pub header_length: u32,
    pub bytes: Vec<u8>,
}

impl Cmos {
    /// Decodes the CMOS option-table record at byte offset `i` whose
    /// declared total size is `size`, keeping its raw bytes.
    pub fn decode(b: &Vec<u8>, i: usize, size: usize) -> (r: Cmos)
        requires
            CMOS_LEN <= size,
            i + size <= b@.len(),
            spec_record(b@, i as int).size == size,
        ensures
            r.record == spec_record(b@, i as int),
            r.header_length == le32(b@, i + 8),
            r.bytes@ == b@.subrange(i as int, i + size),
    {
        let _n: usize = b.len();
        let record = Record::decode(b, i);
        let header_length = read_u32(b, i + 8);
        let mut bytes: Vec<u8> = Vec::new();
        let mut j: usize = 0;
        while j < size
            invariant
                i + size <= b@.len(),
                b@.len() <= usize::MAX,
                j <= size,
                bytes@ =~= b@.subrange(i as int, i + j),
            decreases size - j,
        {
            bytes.push(b[i + j]);
            j = j + 1;
        }
        proof {
            assert(bytes@ =~= b@.subrange(i as int, i + size));
        }
        Cmos { record, header_length, bytes }
    }

    /// Starts a walk of the nested sub-records at the declared
    /// header-length offset.
    pub fn records(&self) -> (r: CmosRecords<'_>)
        ensures
            r.table == self,
            r.i == self.header_length,
    {
        CmosRecords { table: self, i: self.header_length as usize }
    }
}

/// Whether a whole sub-record prefix fits at byte offset `i` of `b`.
pub open spec fn sub_prefix_fits(b: Seq<u8>, i: int) -> bool {
    0 <= i && i + RECORD_LEN <= b.len()
}

/// Whether the sub-record at byte offset `i` of `b` is well formed: its
/// declared size covers at least the generic prefix, never extends past
/// `b`, and covers the fixed prefix of its declared kind.
pub open spec fn sub_wf(b: Seq<u8>, i: int) -> bool {
    &&& sub_prefix_fits(b, i)
    &&& RECORD_LEN <= spec_record(b, i).size
    &&& i + spec_record(b, i).size <= b.len()
    &&& spec_record(b, i).kind == CMOS_OPTION_ENTRY_TAG ==> CMOS_ENTRY_LEN <= spec_record(
        b,
        i,
    ).size
    &&& spec_record(b, i).kind == CMOS_OPTION_ENUM_TAG ==> CMOS_ENUM_LEN <= spec_record(b, i).size
}

/// A cursor over the nested sub-records of a CMOS option table.
pub struct CmosRecords<'a> {
    pub table: &'a Cmos,
    pub i: usize,
}

impl<'a> CmosRecords<'a> {
    /// Decodes the sub-record under the cursor and advances past it by the
    /// sub-record's own declared size. Yields nothing once the next prefix
    /// no longer fits, and stops rather than read past a bound: a declared
    /// size that is shorter than its kind's fixed prefix or extends past
    /// the record's end ends the walk.
    pub fn next(&mut self) -> (r: Option<CmosRecord>)
        ensures
            final(self).table == old(self).table,
            ({
                let b = old(self).table.bytes@;
                let i = old(self).i as int;
                if sub_wf(b, i) {
                    let rec = spec_record(b, i);
                    &&& final(self).i == i + rec.size
                    &&& match r {
                        Some(CmosRecord::Entry(e)) => rec.kind == CMOS_OPTION_ENTRY_TAG
                            && spec_cmos_entry_at(b, i, rec.size as int, e),
                        Some(CmosRecord::Enum(e)) => rec.kind == CMOS_OPTION_ENUM_TAG
                            && spec_cmos_enum_at(b, i, rec.size as int, e),
                        Some(CmosRecord::Other(other)) => rec.kind != CMOS_OPTION_ENTRY_TAG
                            && rec.kind != CMOS_OPTION_ENUM_TAG && other == rec,
                        None => false,
                    }
                } else {
                    r is None && final(self).i == old(self).i
                }
            }),
    {
        let b: &Vec<u8> = &self.table.bytes;
        let n: usize = b.len();
        let i = self.i;
        if i > n || n - i < RECORD_LEN {
            return None;
        }
        let record = Record::decode(b, i);
        let size = record.size as usize;
        if size < RECORD_LEN || size > n - i {
            return None;
        }
        if record.kind == CMOS_OPTION_ENTRY_TAG {
            if size < CMOS_ENTRY_LEN {
                return None;
            }
            let entry = CmosEntry::decode(b, i, size);
            self.i = i + size;
            Some(CmosRecord::Entry(entry))
        } else if record.kind == CMOS_OPTION_ENUM_TAG {
            if size < CMOS_ENUM_LEN {
                return None;
            }
            let enum_ = CmosEnum::decode(b, i, size);
            self.i = i + size;
            Some(CmosRecord::Enum(enum_))
        } else {
            self.i = i + size;
            Some(CmosRecord::Other(record))
        }
    }
}

} // verus!
