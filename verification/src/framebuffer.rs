//! The framebuffer record: physical base address, resolution, stride, bit
//! depth, and the per-channel bit-mask position/size octets.

use vstd::prelude::*;

use crate::bytes::{le32, le64, read_u32, read_u64};
use crate::record::{spec_record, Record};

verus! {

/// Byte length of the fixed framebuffer record layout.
pub const FRAMEBUFFER_LEN: usize = 37;

/// A decoded framebuffer record.
#[derive(Clone, Copy, Debug)]
pub struct Framebuffer {
    pub record: Record,
    pub physical_address: u64,
    pub x_resolution: u32,
    pub y_resolution: u32,
    pub bytes_per_line: u32,
    pub bits_per_pixel: u8,
    pub red_mask_pos: u8,
    pub red_mask_size: u8,
    pub green_mask_pos: u8,
    pub green_mask_size: u8,
    pub blue_mask_pos: u8,
    pub blue_mask_size: u8,
    pub reserved_mask_pos: u8,
    pub reserved_mask_size: u8,
}

/// The framebuffer record laid out at byte offset `i`.
pub open spec fn spec_framebuffer(b: Seq<u8>, i: int) -> Framebuffer
    recommends
        0 <= i,
        i + FRAMEBUFFER_LEN <= b.len(),
{
    Framebuffer {
        record: spec_record(b, i),
        physical_address: le64(b, i + 8) as u64,
        x_resolution: le32(b, i + 16) as u32,
        y_resolution: le32(b, i + 20) as u32,
        bytes_per_line: le32(b, i + 24) as u32,
        bits_per_pixel: b[i + 28],
        red_mask_pos: b[i + 29],
        red_mask_size: b[i + 30],
        green_mask_pos: b[i + 31],
        green_mask_size: b[i + 32],
        blue_mask_pos: b[i + 33],
        blue_mask_size: b[i + 34],
        reserved_mask_pos: b[i + 35],
        reserved_mask_size: b[i + 36],
    }
}

/// Whether `f` holds exactly the fields laid out at byte offset `i` of `b`.
pub open spec fn spec_framebuffer_at(b: Seq<u8>, i: int, f: Framebuffer) -> bool
    recommends
        0 <= i,
        i + FRAMEBUFFER_LEN <= b.len(),
{
    &&& f.record == spec_record(b, i)
    &&& f.physical_address == le64(b, i + 8)
    &&& f.x_resolution == le32(b, i + 16)
    &&& f.y_resolution == le32(b, i + 20)
    &&& f.bytes_per_line == le32(b, i + 24)
    &&& f.bits_per_pixel == b[i + 28]
    &&& f.red_mask_pos == b[i + 29]
    &&& f.red_mask_size == b[i + 30]
    &&& f.green_mask_pos == b[i + 31]
    &&& f.green_mask_size == b[i + 32]
    &&& f.blue_mask_pos == b[i + 33]
    &&& f.blue_mask_size == b[i + 34]
    &&& f.reserved_mask_pos == b[i + 35]
    &&& f.reserved_mask_size == b[i + 36]
}

impl Framebuffer {
    /// Decodes the framebuffer record at byte offset `i`.
    pub fn decode(b: &Vec<u8>, i: usize) -> (r: Framebuffer)
        requires
            i + FRAMEBUFFER_LEN <= b@.len(),
        ensures
            spec_framebuffer_at(b@, i as int, r),
            r == spec_framebuffer(b@, i as int),
    {
        let _n: usize = b.len();
        Framebuffer {
            record: Record::decode(b, i),
            physical_address: read_u64(b, i + 8),
            x_resolution: read_u32(b, i + 16),
            y_resolution: read_u32(b, i + 20),
            bytes_per_line: read_u32(b, i + 24),
            bits_per_pixel: b[i + 28],
            red_mask_pos: b[i + 29],
            red_mask_size: b[i + 30],
            green_mask_pos: b[i + 31],
            green_mask_size: b[i + 32],
            blue_mask_pos: b[i + 33],
            blue_mask_size: b[i + 34],
            reserved_mask_pos: b[i + 35],
            reserved_mask_size: b[i + 36],
        }
    }
}

} // verus!
