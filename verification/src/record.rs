//! The generic prefix every table entry starts with: a 32-bit kind tag and a
//! self-declared total byte size covering the record's type-specific payload.

use vstd::prelude::*;

use crate::bytes::{le32, read_u32};

verus! {

/// Byte length of the generic record prefix.
pub const RECORD_LEN: usize = 8;

/// Kind tag of a memory-map record.
pub const MEMORY_TAG: u32 = 0x01;

/// Kind tag of a serial-port record.
pub const SERIAL_TAG: u32 = 0x0f;

/// Kind tag of a forward record.
pub const FORWARD_TAG: u32 = 0x11;

/// Kind tag of a framebuffer record.
pub const FRAMEBUFFER_TAG: u32 = 0x12;

/// Kind tag of a CMOS option-table record.
pub const CMOS_OPTION_TABLE_TAG: u32 = 0xc8;

/// Kind tag of a CMOS option-entry sub-record.
pub const CMOS_OPTION_ENTRY_TAG: u32 = 0xc9;

/// Kind tag of a CMOS option-enum sub-record.
pub const CMOS_OPTION_ENUM_TAG: u32 = 0xca;

/// The record kinds the walker tells apart. Every tag it does not
/// recognize falls under `Other`.
#[derive(Clone, Copy, Debug, PartialEq, Eq, Structural)]
pub enum RecordKind {
    Memory,
    Serial,
    Forward,
    Framebuffer,
    CmosOptionTable,
    CmosOptionEntry,
    CmosOptionEnum,
    Other,
}

/// The kind a 32-bit tag denotes.
pub open spec fn spec_kind_of(tag: u32) -> RecordKind {
    if tag == MEMORY_TAG {
        RecordKind::Memory
    } else if tag == SERIAL_TAG {
        RecordKind::Serial
    } else if tag == FORWARD_TAG {
        RecordKind::Forward
    } else if tag == FRAMEBUFFER_TAG {
        RecordKind::Framebuffer
    } else if tag == CMOS_OPTION_TABLE_TAG {
        RecordKind::CmosOptionTable
    } else if tag == CMOS_OPTION_ENTRY_TAG {
        RecordKind::CmosOptionEntry
    } else if tag == CMOS_OPTION_ENUM_TAG {
        RecordKind::CmosOptionEnum
    } else {
        RecordKind::Other
    }
}

/// The generic record prefix: kind tag and self-declared total size.
#[derive(Clone, Copy, Debug, PartialEq, Eq, Structural)]
pub struct Record {
    pub kind: u32,
    pub size: u32,
}

/// The record prefix laid out at byte offset `i`.
pub open spec fn spec_record(b: Seq<u8>, i: int) -> Record
    recommends
        0 <= i,
        i + RECORD_LEN <= b.len(),
{
    Record { kind: le32(b, i) as u32, size: le32(b, i + 4) as u32 }
}

impl Record {
    /// Decodes the generic record prefix at byte offset `i`.
    pub fn decode(b: &Vec<u8>, i: usize) -> (r: Record)
        requires
            i + RECORD_LEN <= b@.len(),
        ensures
            r == spec_record(b@, i as int),
    {
        let _n: usize = b.len();
        Record { kind: read_u32(b, i), size: read_u32(b, i + 4) }
    }

    /// Classifies the record's kind tag.
    pub fn record_kind(&self) -> (k: RecordKind)
        ensures
            k == spec_kind_of(self.kind),
    {
        if self.kind == MEMORY_TAG {
            RecordKind::Memory
        } else if self.kind == SERIAL_TAG {
            RecordKind::Serial
        } else if self.kind == FORWARD_TAG {
            RecordKind::Forward
        } else if self.kind == FRAMEBUFFER_TAG {
            RecordKind::Framebuffer
        } else if self.kind == CMOS_OPTION_TABLE_TAG {
            RecordKind::CmosOptionTable
        } else if self.kind == CMOS_OPTION_ENTRY_TAG {
            RecordKind::CmosOptionEntry
        } else if self.kind == CMOS_OPTION_ENUM_TAG {
            RecordKind::CmosOptionEnum
        } else {
            RecordKind::Other
        }
    }
}

} // verus!
