//! The serial-port record: port kind, base address, baud rate, register
//! width, input clock, and the PCI address word of the UART's bus location.

use vstd::prelude::*;

use crate::bytes::{le32, read_u32};
use crate::record::{spec_record, Record};

verus! {

/// Byte length of the fixed serial record layout.
pub const SERIAL_LEN: usize = 32;

/// A decoded serial-port record.
#[derive(Clone, Copy, Debug)]
pub struct Serial {
    pub record: Record,
    pub kind: u32,
    pub baseaddr: u32,
    pub baud: u32,
    pub regwidth: u32,
    pub input_hertz: u32,
    pub uart_pci_addr: u32,
}

/// Whether `s` holds exactly the fields laid out at byte offset `i` of `b`.
pub open spec fn spec_serial_at(b: Seq<u8>, i: int, s: Serial) -> bool
    recommends
        0 <= i,
        i + SERIAL_LEN <= b.len(),
{
    &&& s.record == spec_record(b, i)
    &&& s.kind == le32(b, i + 8)
    &&& s.baseaddr == le32(b, i + 12)
    &&& s.baud == le32(b, i + 16)
    &&& s.regwidth == le32(b, i + 20)
    &&& s.input_hertz == le32(b, i + 24)
    &&& s.uart_pci_addr == le32(b, i + 28)
}

impl Serial {
    /// Decodes the serial record at byte offset `i`.
    pub fn decode(b: &Vec<u8>, i: usize) -> (r: Serial)
        requires
            i + SERIAL_LEN <= b@.len(),
        ensures
            spec_serial_at(b@, i as int, r),
    {
        let _n: usize = b.len();
        Serial {
            record: Record::decode(b, i),
            kind: read_u32(b, i + 8),
            baseaddr: read_u32(b, i + 12),
            baud: read_u32(b, i + 16),
            regwidth: read_u32(b, i + 20),
            input_hertz: read_u32(b, i + 24),
            uart_pci_addr: read_u32(b, i + 28),
        }
    }
}

} // verus!
