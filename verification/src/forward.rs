//! The forward record: a single 64-bit physical address naming where a
//! continuation table segment lives. Following it is the only mechanism
//! for multi-segment tables.

use vstd::prelude::*;

use crate::bytes::{le64, read_u64};
use crate::record::{spec_record, Record};

verus! {

/// Byte length of the fixed forward record layout.
pub const FORWARD_LEN: usize = 16;

/// A decoded forward record.
#[derive(Clone, Copy, Debug)]
pub struct Forward {
    pub record: Record,
    pub forward: u64,
}

/// Whether `f` holds exactly the fields laid out at byte offset `i` of `b`.
pub open spec fn spec_forward_at(b: Seq<u8>, i: int, f: Forward) -> bool
    recommends
        0 <= i,
        i + FORWARD_LEN <= b.len(),
{
    &&& f.record == spec_record(b, i)
    &&& f.forward == le64(b, i + 8)
}

impl Forward {
    /// Decodes the forward record at byte offset `i`.
    pub fn decode(b: &Vec<u8>, i: usize) -> (r: Forward)
        requires
            i + FORWARD_LEN <= b@.len(),
        ensures
            spec_forward_at(b@, i as int, r),
    {
        let _n: usize = b.len();
        Forward { record: Record::decode(b, i), forward: read_u64(b, i + 8) }
    }
}

} // verus!
