//! The memory-map record: a packed, contiguous sequence of memory ranges,
//! each a split-64 start, a split-64 size and a 32-bit range-kind tag.

use vstd::prelude::*;

use crate::bytes::le32;
use crate::cb64::{spec_cb64, Cb64};
use crate::record::{spec_record, Record, RECORD_LEN};

verus! {

/// Byte length of one packed memory-range entry.
pub const MEMORY_RANGE_LEN: usize = 20;

/// Range-kind tag of ordinary RAM.
pub const RANGE_RAM_TAG: u32 = 1;

/// Range-kind tag of a reserved range.
pub const RANGE_RESERVED_TAG: u32 = 2;

/// Range-kind tag of an ACPI range.
pub const RANGE_ACPI_TAG: u32 = 3;

/// Range-kind tag of an ACPI NVS range.
pub const RANGE_NVS_TAG: u32 = 4;

/// Range-kind tag of an unusable range.
pub const RANGE_UNUSABLE_TAG: u32 = 5;

/// Range-kind tag of a vendor-reserved range.
pub const RANGE_VENDOR_RESERVED_TAG: u32 = 6;

/// Range-kind tag of the range holding the coreboot table itself.
pub const RANGE_TABLE_TAG: u32 = 16;

/// The kinds of memory range a memory-map record describes. A tag the
/// decoder does not recognize falls under `Other`.
#[derive(Clone, Copy, Debug, PartialEq, Eq, Structural)]
pub enum MemoryRangeKind {
    Ram,
    Reserved,
    Acpi,
    Nvs,
    Unusable,
    VendorReserved,
    Table,
    Other,
}

/// The range kind a 32-bit tag denotes.
pub open spec fn spec_range_kind_of(tag: u32) -> MemoryRangeKind {
    if tag == RANGE_RAM_TAG {
        MemoryRangeKind::Ram
    } else if tag == RANGE_RESERVED_TAG {
        MemoryRangeKind::Reserved
    } else if tag == RANGE_ACPI_TAG {
        MemoryRangeKind::Acpi
    } else if tag == RANGE_NVS_TAG {
        MemoryRangeKind::Nvs
    } else if tag == RANGE_UNUSABLE_TAG {
        MemoryRangeKind::Unusable
    } else if tag == RANGE_VENDOR_RESERVED_TAG {
        MemoryRangeKind::VendorReserved
    } else if tag == RANGE_TABLE_TAG {
        MemoryRangeKind::Table
    } else {
        MemoryRangeKind::Other
    }
}

/// One memory range: start and size as split-64 values, plus its kind tag.
#[derive(Clone, Copy, Debug, PartialEq, Eq, Structural)]
pub struct MemoryRange {
    pub start: Cb64,
    pub size: Cb64,
    pub kind: u32,
}

/// The memory-range entry laid out at byte offset `i`.
pub open spec fn spec_memory_range(b: Seq<u8>, i: int) -> MemoryRange
    recommends
        0 <= i,
        i + MEMORY_RANGE_LEN <= b.len(),
{
    MemoryRange { start: spec_cb64(b, i), size: spec_cb64(b, i + 8), kind: le32(b, i + 16) as u32 }
}

impl MemoryRange {
    /// Decodes the memory-range entry at byte offset `i`.
    pub fn decode(b: &Vec<u8>, i: usize) -> (r: MemoryRange)
        requires
            i + MEMORY_RANGE_LEN <= b@.len(),
        ensures
            r == spec_memory_range(b@, i as int),
    {
        let _n: usize = b.len();
        MemoryRange {
            start: Cb64::decode(b, i),
            size: Cb64::decode(b, i + 8),
            kind: crate::bytes::read_u32(b, i + 16),
        }
    }

    /// Classifies the range's kind tag.
    pub fn range_kind(&self) -> (k: MemoryRangeKind)
        ensures
            k == spec_range_kind_of(self.kind),
    {
        if self.kind == RANGE_RAM_TAG {
            MemoryRangeKind::Ram
        } else if self.kind == RANGE_RESERVED_TAG {
            MemoryRangeKind::Reserved
        } else if self.kind == RANGE_ACPI_TAG {
            MemoryRangeKind::Acpi
        } else if self.kind == RANGE_NVS_TAG {
            MemoryRangeKind::Nvs
        } else if self.kind == RANGE_UNUSABLE_TAG {
            MemoryRangeKind::Unusable
        } else if self.kind == RANGE_VENDOR_RESERVED_TAG {
            MemoryRangeKind::VendorReserved
        } else if self.kind == RANGE_TABLE_TAG {
            MemoryRangeKind::Table
        } else {
            MemoryRangeKind::Other
        }
    }
}

/// The whole range entries that a memory-map record of declared size
/// `size` at byte offset `i` carries after its prefix, in table order.
pub open spec fn spec_memory_ranges(b: Seq<u8>, i: int, size: int) -> Seq<MemoryRange>
    recommends
        0 <= i,
        RECORD_LEN <= size,
        i + size <= b.len(),
{
    Seq::new(
        (((size - RECORD_LEN) / MEMORY_RANGE_LEN as int) as nat),
        |j: int| spec_memory_range(b, i + RECORD_LEN + MEMORY_RANGE_LEN * j),
    )
}

/// A decoded memory-map record: the generic prefix and as many whole range
/// entries as the record's declared size admits after the prefix.
#[derive(Debug)]
pub struct Memory {
    pub record: Record,
    pub entries: Vec<MemoryRange>,
}

impl Memory {
    /// The decoded range entries, in table order.
    pub open spec fn range_seq(&self) -> Seq<MemoryRange> {
        self.entries@
    }

    /// Decodes the memory-map record at byte offset `i` whose declared
    /// total size is `size`: the prefix, then `(size - prefix) / entry`
    /// whole range entries.
    pub fn decode(b: &Vec<u8>, i: usize, size: usize) -> (r: Memory)
        requires
            RECORD_LEN <= size,
            i + size <= b@.len(),
            spec_record(b@, i as int).size == size,
        ensures
            r.record == spec_record(b@, i as int),
            r.range_seq() =~= spec_memory_ranges(b@, i as int, size as int),
            r.range_seq().len() == ((size - RECORD_LEN) / MEMORY_RANGE_LEN as int),
            forall|j: int|
                0 <= j < r.range_seq().len() ==> r.range_seq()[j] == spec_memory_range(
                    b@,
                    i + RECORD_LEN + MEMORY_RANGE_LEN * j,
                ),
    {
        let _n: usize = b.len();
        let record = Record::decode(b, i);
        let mut entries: Vec<MemoryRange> = Vec::new();
        let end: usize = i + size;
        let mut off: usize = i + RECORD_LEN;
        while end - off >= MEMORY_RANGE_LEN
            invariant
                RECORD_LEN <= size,
                i + size <= b@.len(),
                end == i + size,
                i + RECORD_LEN <= off <= end,
                off == i + RECORD_LEN + MEMORY_RANGE_LEN * entries@.len(),
                forall|j: int|
                    0 <= j < entries@.len() ==> entries@[j] == spec_memory_range(
                        b@,
                        i + RECORD_LEN + MEMORY_RANGE_LEN * j,
                    ),
            decreases i + size - off,
        {
            let range = MemoryRange::decode(b, off);
            entries.push(range);
            off = off + MEMORY_RANGE_LEN;
        }
        proof {
            let count = entries@.len() as int;
            assert(count == ((size - RECORD_LEN) / MEMORY_RANGE_LEN as int)) by (nonlinear_arith)
                requires
                    MEMORY_RANGE_LEN == 20,
                    RECORD_LEN <= size,
                    0 <= count,
                    RECORD_LEN + MEMORY_RANGE_LEN * count <= size,
                    size < RECORD_LEN + MEMORY_RANGE_LEN * count + MEMORY_RANGE_LEN,
            ;
        }
        Memory { record, entries }
    }

    /// The range entries carried by this record.
    pub fn ranges(&self) -> (r: &Vec<MemoryRange>)
        ensures
            r@ == self.range_seq(),
    {
        &self.entries
    }
}

} // verus!
