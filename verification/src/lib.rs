//! Locates and decodes a firmware-provided coreboot table that lives at an
//! unknown offset in a machine's low physical memory, and hands its records
//! (memory map, framebuffer, CMOS option metadata, and opaque records) to a
//! caller-supplied visitor.
//!
//! Physical memory is reached only through the caller's [`Mapper`]
//! capability. [`tables`] scans the first megabyte page by page for a
//! valid table header, walks the self-describing records the header
//! announces, and follows forward records into continuation segments.
//! Its contracts state that every window it opened was released again on
//! every exit path — success, visitor-requested stop, or any fatal error
//! — and, through the visitor's specification-level log, that what the
//! visitor received is exactly the record chain the mapped memory holds.

use vstd::prelude::*;

mod bytes;
mod cb64;
mod cmos;
mod forward;
mod framebuffer;
mod header;
mod mapper;
mod memory;
mod record;
mod serial;

pub use cb64::Cb64;
pub use cmos::{Cmos, CmosEntry, CmosEnum, CmosRecord, CmosRecords};
pub use forward::Forward;
pub use framebuffer::Framebuffer;
pub use header::Header;
pub use mapper::{Mapper, PhysicalAddress, Window};
pub use memory::{Memory, MemoryRange, MemoryRangeKind};
pub use record::{Record, RecordKind};
pub use serial::Serial;

use crate::bytes::{le32, le64};
use crate::cmos::CMOS_LEN;
use crate::forward::FORWARD_LEN;
use crate::framebuffer::{spec_framebuffer, FRAMEBUFFER_LEN};
use crate::header::{spec_header_at, valid_header_at, HEADER_LEN};
use crate::memory::spec_memory_ranges;
use crate::record::{spec_kind_of, spec_record, RECORD_LEN};

verus! {

/// How far into physical memory the header scan reaches: one megabyte.
pub const LOW_MEMORY: usize = 1024 * 1024;

/// The header's guaranteed alignment within a page: the scan probes every
/// 4-byte-aligned offset.
pub const HEADER_ALIGN: usize = 4;

/// One top-level record, handed to the visitor borrowed from the walker's
/// currently open window; the visitor must not retain it.
#[derive(Debug)]
pub enum Table<'a> {
    Cmos(&'a Cmos),
    Framebuffer(&'a Framebuffer),
    Memory(&'a Memory),
    Other(&'a Record),
}

/// The content of one record as the visitor receives it, reduced to
/// specification data, so that contracts can speak of what a walk
/// delivered.
pub enum TableData {
    Cmos { record: Record, header_length: u32, bytes: Seq<u8> },
    Framebuffer { framebuffer: Framebuffer },
    Memory { record: Record, ranges: Seq<MemoryRange> },
    Other { record: Record },
}

impl<'a> Table<'a> {
    /// This record's content as specification data.
    pub open spec fn data(self) -> TableData {
        match self {
            Table::Cmos(c) => TableData::Cmos {
                record: c.record,
                header_length: c.header_length,
                bytes: c.bytes@,
            },
            Table::Framebuffer(f) => TableData::Framebuffer { framebuffer: *f },
            Table::Memory(m) => TableData::Memory { record: m.record, ranges: m.entries@ },
            Table::Other(r) => TableData::Other { record: *r },
        }
    }
}

/// The caller's visitor, invoked once per top-level record in table order.
/// Returning an error stops the walk and becomes the walk's result.
pub trait Visitor {
    /// The content of every record received so far, oldest first. The
    /// default is for doubles Verus never checks; a verified
    /// implementation overrides it with its own model of what it saw.
    open spec fn log(&self) -> Seq<TableData> {
        Seq::empty()
    }

    /// Receives one record of the table. The log records exactly the
    /// records received, in order, whatever the result.
    fn visit(&mut self, table: Table<'_>) -> (r: Result<(), &'static str>)
        ensures
            final(self).log() =~= old(self).log().push(table.data()),
    ;
}

/// The content of the record laid out at byte offset `i` of table bytes
/// `b`, as the visitor receives it.
pub open spec fn spec_record_data(b: Seq<u8>, i: int) -> TableData {
    let rec = spec_record(b, i);
    let kind = spec_kind_of(rec.kind);
    if kind == RecordKind::Memory {
        TableData::Memory { record: rec, ranges: spec_memory_ranges(b, i, rec.size as int) }
    } else if kind == RecordKind::Framebuffer {
        TableData::Framebuffer { framebuffer: spec_framebuffer(b, i) }
    } else if kind == RecordKind::CmosOptionTable {
        TableData::Cmos {
            record: rec,
            header_length: le32(b, i + 8) as u32,
            bytes: b.subrange(i, i + rec.size),
        }
    } else {
        TableData::Other { record: rec }
    }
}

/// Whether the record at byte offset `i` of table bytes `b` (of length
/// `n`) passes the walker's defensive bound checks: its declared size
/// covers the generic prefix and the fixed prefix of its kind, and never
/// extends past the table's end.
pub open spec fn record_fits(b: Seq<u8>, n: int, i: int) -> bool {
    let rec = spec_record(b, i);
    let kind = spec_kind_of(rec.kind);
    &&& RECORD_LEN <= rec.size
    &&& i + rec.size <= n
    &&& (kind == RecordKind::Forward ==> FORWARD_LEN <= rec.size)
    &&& (kind == RecordKind::Framebuffer ==> FRAMEBUFFER_LEN <= rec.size)
    &&& (kind == RecordKind::CmosOptionTable ==> CMOS_LEN <= rec.size)
}

/// How a table segment's walk ends.
pub enum SegmentEnd {
    Exhausted,
    Malformed,
    Forwarded(u64),
}

/// The contents the visitor receives out of table bytes `b` of length `n`,
/// starting at cursor `i` with `left` declared entries remaining: every
/// well-formed, non-forward record in byte order, each cursor step being
/// the record's own declared size, stopping at the entry bound, the
/// table's end, a forward record, or the first malformed record.
pub open spec fn segment_visits(b: Seq<u8>, n: int, i: int, left: int) -> Seq<TableData>
    decreases left,
{
    if left <= 0 || i + RECORD_LEN > n || !record_fits(b, n, i) {
        Seq::empty()
    } else if spec_kind_of(spec_record(b, i).kind) == RecordKind::Forward {
        Seq::empty()
    } else {
        seq![spec_record_data(b, i)] + segment_visits(b, n, i + spec_record(b, i).size, left - 1)
    }
}

/// The declared entry count bounds a segment's visits: starting with
/// `left` entries remaining, at most `left` records are delivered however
/// many more the byte layout would admit.
pub proof fn lemma_segment_visit_count(b: Seq<u8>, n: int, i: int, left: int)
    requires
        0 <= left,
    ensures
        segment_visits(b, n, i, left).len() <= left,
    decreases left,
{
    if left > 0 && i + RECORD_LEN <= n && record_fits(b, n, i) && spec_kind_of(
        spec_record(b, i).kind,
    ) != RecordKind::Forward {
        lemma_segment_visit_count(b, n, i + spec_record(b, i).size, left - 1);
    }
}

/// How the walk of table bytes `b` of length `n` ends, from cursor `i`
/// with `left` declared entries remaining: exhausted at the entry bound or
/// the table's end, stopped by a malformed record, or forwarded to the
/// target of the first forward record.
pub open spec fn segment_end(b: Seq<u8>, n: int, i: int, left: int) -> SegmentEnd
    decreases left,
{
    if left <= 0 || i + RECORD_LEN > n {
        SegmentEnd::Exhausted
    } else if !record_fits(b, n, i) {
        SegmentEnd::Malformed
    } else if spec_kind_of(spec_record(b, i).kind) == RecordKind::Forward {
        SegmentEnd::Forwarded(le64(b, i + 8) as u64)
    } else {
        segment_end(b, n, i + spec_record(b, i).size, left - 1)
    }
}

/// The contents the visitor receives from the chain of table segments that
/// starts at a header at `hp` and follows `hops` forward records: each
/// segment's visits in order, continuing at a forward target only while it
/// bears a valid header.
pub open spec fn chain_visits(c: Seq<u8>, hp: int, hops: int) -> Seq<TableData>
    decreases hops,
{
    let hb = le32(c, hp + 4);
    let ts = le32(c, hp + 12);
    let n = le32(c, hp + 20);
    let seg = c.subrange(hp + hb, hp + hb + ts);
    let visits = segment_visits(seg, ts, 0, n);
    if hops > 0 {
        match segment_end(seg, ts, 0, n) {
            SegmentEnd::Forwarded(t) => if t <= usize::MAX && valid_header_at(c, t as int) {
                visits + chain_visits(c, t as int, hops - 1)
            } else {
                visits
            },
            _ => visits,
        }
    } else {
        visits
    }
}

/// The walker leaves the mapping capability balanced: the memory model is
/// unchanged, and as many windows were released as were obtained.
pub open spec fn mapper_preserved<M: Mapper>(pre: M, post: M) -> bool {
    &&& post.contents() == pre.contents()
    &&& post.spec_page_size() == pre.spec_page_size()
    &&& post.maps() + pre.unmaps() == post.unmaps() + pre.maps()
}

/// Whether the header scan probes physical address `q` under page size
/// `ps`: `q` is 4-byte aligned within its page and a whole header fits
/// between `q` and the page's end.
pub open spec fn probed(ps: nat, q: int) -> bool {
    &&& 0 < ps
    &&& 0 <= q
    &&& (q % (ps as int)) % 4 == 0
    &&& q % (ps as int) + HEADER_LEN <= ps
}

/// Whether the scan of low memory reaches `q`: it is probed and its whole
/// page lies below the scan bound.
pub open spec fn probed_in_scan(ps: nat, q: int) -> bool {
    &&& probed(ps, q)
    &&& q - q % (ps as int) + ps <= LOW_MEMORY
}

/// An offset into a page whose start is a multiple of the page size is
/// exactly the address's remainder by the page size.
proof fn lemma_page_offset_mod(base: int, d: int, ps: int)
    requires
        0 < ps,
        base % ps == 0,
        0 <= d < ps,
    ensures
        (base + d) % ps == d,
{
    assert((base + d) % ps == d) by (nonlinear_arith)
        requires
            0 < ps,
            base % ps == 0,
            0 <= d < ps,
    ;
}

/// Two distinct multiples of the page size lie at least one page apart.
proof fn lemma_multiple_below(a: int, b: int, ps: int)
    requires
        0 < ps,
        a % ps == 0,
        b % ps == 0,
        a < b,
    ensures
        a + ps <= b,
{
    assert(a + ps <= b) by (nonlinear_arith)
        requires
            0 < ps,
            a % ps == 0,
            b % ps == 0,
            a < b,
    ;
}

/// Walks every record of the coreboot table reachable through `mapper`,
/// handing each to `callback`. Scans the first megabyte of physical memory
/// for a valid header, walks that table segment, and follows forward
/// records into continuation segments until a segment ends without one.
///
/// Returns the first fatal error (header not found, mapping or unmapping
/// failure, malformed record, invalid forward target) or the visitor's own
/// error, and `Ok` when the table was fully walked. On every outcome the
/// number of windows released equals the number obtained, the visitor's
/// log only grows, success means a valid header stood at a probed address
/// of the scan, and where no probed address holds one the walk fails with
/// the visitor never invoked.
pub fn tables<V: Visitor, M: Mapper>(callback: &mut V, mapper: &mut M) -> (r: Result<
    (),
    &'static str,
>)
    ensures
        mapper_preserved(*old(mapper), *final(mapper)),
        old(callback).log().is_prefix_of(final(callback).log()),
        (r matches Ok(_) ==> exists|p: int, h: int|
            {
                &&& probed_in_scan(final(mapper).spec_page_size(), p)
                &&& valid_header_at(final(mapper).contents(), p)
                &&& 0 <= h
                &&& final(callback).log() =~= old(callback).log() + #[trigger] chain_visits(
                    final(mapper).contents(),
                    p,
                    h,
                )
            }),
        ((forall|q: int|
            #[trigger] probed_in_scan(final(mapper).spec_page_size(), q) ==> !valid_header_at(
                final(mapper).contents(),
                q,
            )) ==> (r is Err && final(callback).log() == old(callback).log())),
{
    let located = locate_header(mapper);
    match located {
        Ok(Some((header, physical))) => {
            let walked = walk(callback, mapper, header, physical);
            proof {
                assert(probed_in_scan(mapper.spec_page_size(), physical as int));
                assert(valid_header_at(mapper.contents(), physical as int));
                if walked is Ok {
                    let h = choose|h: int|
                        0 <= h && callback.log() =~= old(callback).log() + #[trigger] chain_visits(
                            mapper.contents(),
                            physical as int,
                            h,
                        );
                    assert(callback.log() =~= old(callback).log() + chain_visits(
                        mapper.contents(),
                        physical as int,
                        h,
                    ));
                }
            }
            walked
        },
        Ok(None) => Err("Header not found"),
        Err(e) => Err(e),
    }
}

/// Scans physical addresses `0` up to [`LOW_MEMORY`] in page-sized strides,
/// probing every 4-byte-aligned offset of each page for a header whose
/// signature matches; the first match wins. On a match the returned header
/// is exactly what memory holds at the returned physical address, it is
/// valid, and no earlier probed address held one. `Ok(None)` means the
/// whole scan found no valid header anywhere it probed.
fn locate_header<M: Mapper>(mapper: &mut M) -> (r: Result<
    Option<(Header, usize)>,
    &'static str,
>)
    ensures
        mapper_preserved(*old(mapper), *final(mapper)),
        (r matches Ok(Some(p)) ==> {
            &&& probed_in_scan(final(mapper).spec_page_size(), p.1 as int)
            &&& valid_header_at(final(mapper).contents(), p.1 as int)
            &&& spec_header_at(final(mapper).contents(), p.1 as int, p.0)
            &&& forall|q: int|
                probed(final(mapper).spec_page_size(), q) && q < p.1 ==> !valid_header_at(
                    final(mapper).contents(),
                    q,
                )
        }),
        (r matches Ok(None) ==> forall|q: int|
            probed_in_scan(final(mapper).spec_page_size(), q) ==> !valid_header_at(
                final(mapper).contents(),
                q,
            )),
        ({
            let ps = final(mapper).spec_page_size() as int;
            let pre = old(mapper).map_requests();
            let post = final(mapper).map_requests();
            &&& pre.len() <= post.len()
            &&& pre =~= post.take(pre.len() as int)
            &&& forall|j: int|
                pre.len() <= j < post.len() ==> ((#[trigger] post[j]).0 % ps == 0 && post[j].0
                    + ps <= LOW_MEMORY && post[j].1 == ps)
            &&& forall|j1: int, j2: int|
                pre.len() <= j1 < j2 < post.len() ==> (#[trigger] post[j1]).0 < (
                #[trigger] post[j2]).0
        }),
{
    let page_size = mapper.page_size();
    if page_size > LOW_MEMORY {
        proof {
            let ps = mapper.spec_page_size() as int;
            assert forall|q: int| probed_in_scan(mapper.spec_page_size(), q) implies false by {
                assert(0 <= q % ps <= q) by (nonlinear_arith)
                    requires
                        0 < ps,
                        0 <= q,
                ;
            }
            assert(mapper.map_requests() =~= mapper.map_requests().take(
                mapper.map_requests().len() as int,
            ));
        }
        return Ok(None);
    }
    let mut physical: usize = 0;
    proof {
        assert(0int % (mapper.spec_page_size() as int) == 0) by (nonlinear_arith)
            requires
                0 < mapper.spec_page_size(),
        ;
    }
    while physical <= LOW_MEMORY - page_size
        invariant
            0 < page_size <= LOW_MEMORY,
            physical <= LOW_MEMORY,
            page_size == mapper.spec_page_size(),
            physical as int % (page_size as int) == 0,
            forall|q: int|
                probed(mapper.spec_page_size(), q) && q < physical ==> !valid_header_at(
                    old(mapper).contents(),
                    q,
                ),
            old(mapper).map_requests().len() <= mapper.map_requests().len(),
            old(mapper).map_requests() =~= mapper.map_requests().take(
                old(mapper).map_requests().len() as int,
            ),
            forall|j: int|
                old(mapper).map_requests().len() <= j < mapper.map_requests().len() ==> ((
                #[trigger] mapper.map_requests()[j]).0 % (page_size as int) == 0
                    && mapper.map_requests()[j].0 + page_size <= LOW_MEMORY
                    && mapper.map_requests()[j].1 == page_size),
            forall|j: int|
                old(mapper).map_requests().len() <= j < mapper.map_requests().len() ==> (
                #[trigger] mapper.map_requests()[j]).0 < physical,
            forall|j1: int, j2: int|
                old(mapper).map_requests().len() <= j1 < j2 < mapper.map_requests().len() ==> (
                #[trigger] mapper.map_requests()[j1]).0 < (#[trigger] mapper.map_requests()[j2]).0,
            mapper.contents() == old(mapper).contents(),
            mapper.spec_page_size() == old(mapper).spec_page_size(),
            mapper.maps() + old(mapper).unmaps() == mapper.unmaps() + old(mapper).maps(),
        decreases LOW_MEMORY - physical,
    {
        let w = match mapper.map(PhysicalAddress(physical), page_size) {
            Ok(w) => w,
            Err(e) => return Err(e),
        };
        proof {
            assert(old(mapper).map_requests() =~= mapper.map_requests().take(
                old(mapper).map_requests().len() as int,
            ));
        }
        let wlen: usize = w.bytes.len();
        let mut i: usize = 0;
        while page_size - i >= HEADER_LEN
            invariant
                0 < page_size <= LOW_MEMORY,
                physical + page_size <= LOW_MEMORY,
                i <= page_size,
                i % 4 == 0,
                page_size == mapper.spec_page_size(),
                physical as int % (page_size as int) == 0,
                wlen == w.bytes@.len(),
                page_size <= wlen,
                physical + w.bytes@.len() <= old(mapper).contents().len(),
                w.bytes@ == old(mapper).contents().subrange(
                    physical as int,
                    physical + w.bytes@.len(),
                ),
                forall|q: int|
                    probed(mapper.spec_page_size(), q) && q < physical + i ==> !valid_header_at(
                        old(mapper).contents(),
                        q,
                    ),
                old(mapper).map_requests().len() <= mapper.map_requests().len(),
                old(mapper).map_requests() =~= mapper.map_requests().take(
                    old(mapper).map_requests().len() as int,
                ),
                forall|j: int|
                    old(mapper).map_requests().len() <= j < mapper.map_requests().len() ==> ((
                    #[trigger] mapper.map_requests()[j]).0 % (page_size as int) == 0
                        && mapper.map_requests()[j].0 + page_size <= LOW_MEMORY
                        && mapper.map_requests()[j].1 == page_size),
                forall|j: int|
                    old(mapper).map_requests().len() <= j < mapper.map_requests().len() ==> (
                    #[trigger] mapper.map_requests()[j]).0 <= physical,
                forall|j1: int, j2: int|
                    old(mapper).map_requests().len() <= j1 < j2 < mapper.map_requests().len()
                        ==> (#[trigger] mapper.map_requests()[j1]).0 < (
                    #[trigger] mapper.map_requests()[j2]).0,
                mapper.contents() == old(mapper).contents(),
                mapper.spec_page_size() == old(mapper).spec_page_size(),
                mapper.maps() + old(mapper).unmaps() == mapper.unmaps() + old(mapper).maps() + 1,
            decreases page_size - i,
        {
            let h = Header::decode(&w.bytes, i);
            if h.is_valid() {
                proof {
                    let c0 = old(mapper).contents();
                    let n = w.bytes@.len() as int;
                    crate::header::lemma_valid_header_at_decode(w.bytes@, i as int, h);
                    crate::header::lemma_header_at_shift(c0, physical as int, n, i as int, h);
                    crate::header::lemma_valid_header_shift(c0, physical as int, n, i as int);
                    lemma_page_offset_mod(
                        physical as int,
                        i as int,
                        mapper.spec_page_size() as int,
                    );
                }
                match mapper.unmap(w) {
                    Ok(_) => {},
                    Err(e) => return Err(e),
                }
                return Ok(Some((h, physical + i)));
            }
            proof {
                let c0 = old(mapper).contents();
                let ps = mapper.spec_page_size();
                let n = w.bytes@.len() as int;
                crate::header::lemma_valid_header_at_decode(w.bytes@, i as int, h);
                crate::header::lemma_valid_header_shift(c0, physical as int, n, i as int);
                assert forall|q: int|
                    probed(ps, q) && q < physical + i + 4 implies !valid_header_at(c0, q) by {
                    if q >= physical + i {
                        let d = q - physical;
                        lemma_page_offset_mod(physical as int, d, ps as int);
                        assert(d == i);
                    }
                }
            }
            i = i + HEADER_ALIGN;
        }
        proof {
            let c0 = old(mapper).contents();
            let ps = mapper.spec_page_size();
            assert forall|q: int|
                probed(ps, q) && q < physical + page_size implies !valid_header_at(c0, q) by {
                if q >= physical + i {
                    let d = q - physical;
                    lemma_page_offset_mod(physical as int, d, ps as int);
                }
            }
            assert((physical + page_size) as int % (page_size as int) == 0) by (nonlinear_arith)
                requires
                    0 < page_size,
                    physical as int % (page_size as int) == 0,
            ;
        }
        match mapper.unmap(w) {
            Ok(_) => {},
            Err(e) => return Err(e),
        }
        physical = physical + page_size;
    }
    proof {
        let c0 = old(mapper).contents();
        let ps = mapper.spec_page_size() as int;
        assert forall|q: int|
            probed_in_scan(mapper.spec_page_size(), q) implies !valid_header_at(c0, q) by {
            let qps = q % ps;
            let pstart = q - qps;
            assert(0 <= qps < ps && pstart % ps == 0) by (nonlinear_arith)
                requires
                    0 < ps,
                    0 <= q,
                    qps == q % ps,
                    pstart == q - qps,
            ;
            if pstart < physical {
                lemma_multiple_below(pstart, physical as int, ps);
            }
        }
    }
    Ok(None)
}

/// Whether `v` holds `a`.
fn contains_addr(v: &Vec<usize>, a: usize) -> (r: bool)
    ensures
        r == v@.contains(a),
{
    let n: usize = v.len();
    let mut i: usize = 0;
    while i < n
        invariant
            n == v@.len(),
            i <= n,
            forall|k: int| 0 <= k < i ==> v@[k] != a,
        decreases n - i,
    {
        if v[i] == a {
            return true;
        }
        i = i + 1;
    }
    proof {
        assert(!v@.contains(a));
    }
    false
}

/// Iteratively walks table segments: one segment per validated header,
/// re-entering with a new header whenever a segment ends in a forward
/// record. On success the visitor's log grew by exactly the chain of
/// segments ([`chain_visits`]) that memory holds at the starting header;
/// on any outcome it grew only forward. A forward target whose segment
/// address was already walked can only come from a corrupted table whose
/// forward chain loops; the walk reports it as an error rather than walk
/// the cycle forever.
fn walk<V: Visitor, M: Mapper>(
    callback: &mut V,
    mapper: &mut M,
    header: Header,
    physical: usize,
) -> (r: Result<(), &'static str>)
    requires
        spec_header_at(old(mapper).contents(), physical as int, header),
    ensures
        mapper_preserved(*old(mapper), *final(mapper)),
        old(callback).log().is_prefix_of(final(callback).log()),
        (r matches Ok(_) ==> exists|h: int|
            0 <= h && final(callback).log() =~= old(callback).log() + #[trigger] chain_visits(
                final(mapper).contents(),
                physical as int,
                h,
            )),
{
    let ghost c = old(mapper).contents();
    let ghost mut hops: int = 0;
    let ghost mut acc: Seq<TableData> = Seq::empty();
    let mut cur_header = header;
    let mut cur_physical = physical;
    let mut visited: Vec<usize> = Vec::new();
    proof {
        assert forall|h: int| 0 <= h implies chain_visits(c, physical as int, 0 + h) =~= acc
            + #[trigger] chain_visits(c, physical as int, h) by {
            assert(acc + chain_visits(c, physical as int, h) =~= chain_visits(
                c,
                physical as int,
                h,
            ));
        }
    }
    loop
        invariant
            c == old(mapper).contents(),
            mapper.contents() == old(mapper).contents(),
            mapper.spec_page_size() == old(mapper).spec_page_size(),
            mapper.maps() + old(mapper).unmaps() == mapper.unmaps() + old(mapper).maps(),
            old(callback).log().is_prefix_of(callback.log()),
            spec_header_at(c, cur_physical as int, cur_header),
            0 <= hops,
            callback.log() == old(callback).log() + acc,
            forall|h: int|
                0 <= h ==> chain_visits(c, physical as int, hops + h) =~= acc
                    + #[trigger] chain_visits(c, cur_physical as int, h),
            visited@.len() <= usize::MAX,
        decreases usize::MAX - visited@.len(),
    {
        if visited.len() == usize::MAX {
            return Err("Forward loop");
        }
        visited.push(cur_physical);
        let ghost log_pre = callback.log();
        let step = walk_segment(callback, mapper, cur_header, cur_physical);
        proof {
            assert(log_pre =~= callback.log().subrange(0, log_pre.len() as int));
            assert(old(callback).log() =~= callback.log().subrange(
                0,
                old(callback).log().len() as int,
            ));
        }
        match step {
            Ok(Some((next_header, next_physical))) => {
                if contains_addr(&visited, next_physical) {
                    return Err("Forward loop");
                }
                proof {
                    let seg = segment_of(c, cur_header, cur_physical as int);
                    let ts = cur_header.table_bytes as int;
                    let n = cur_header.table_entries as int;
                    let visits = segment_visits(seg, ts, 0, n);
                    let acc2 = acc + visits;
                    assert forall|h: int| 0 <= h implies chain_visits(
                        c,
                        physical as int,
                        (hops + 1) + h,
                    ) =~= acc2 + #[trigger] chain_visits(c, next_physical as int, h) by {
                        assert(chain_visits(c, physical as int, hops + (h + 1)) =~= acc
                            + chain_visits(c, cur_physical as int, h + 1));
                        assert(chain_visits(c, cur_physical as int, h + 1) =~= visits
                            + chain_visits(c, next_physical as int, h));
                        assert(acc + (visits + chain_visits(c, next_physical as int, h)) =~= acc2
                            + chain_visits(c, next_physical as int, h));
                    }
                    acc = acc2;
                    hops = hops + 1;
                    assert(callback.log() =~= old(callback).log() + acc);
                }
                cur_header = next_header;
                cur_physical = next_physical;
            },
            Ok(None) => {
                proof {
                    let seg = segment_of(c, cur_header, cur_physical as int);
                    let ts = cur_header.table_bytes as int;
                    let n = cur_header.table_entries as int;
                    assert(chain_visits(c, cur_physical as int, 0) =~= segment_visits(
                        seg,
                        ts,
                        0,
                        n,
                    ));
                    assert(chain_visits(c, physical as int, hops + 0) =~= acc + chain_visits(
                        c,
                        cur_physical as int,
                        0,
                    ));
                    assert(callback.log() =~= old(callback).log() + chain_visits(
                        c,
                        physical as int,
                        hops,
                    ));
                }
                return Ok(());
            },
            Err(e) => return Err(e),
        }
    }
}

/// The table bytes a header at `physical` describes: the slice of memory
/// starting right after the header's declared size, as long as the
/// declared table size.
pub open spec fn segment_of(contents: Seq<u8>, header: Header, physical: int) -> Seq<u8> {
    contents.subrange(
        physical + header.header_bytes,
        physical + header.header_bytes + header.table_bytes,
    )
}

/// Maps the table segment a validated header at `physical` describes,
/// visits its records in order up to the header's declared entry count,
/// and unmaps the segment again on every exit. Returns the continuation
/// header and its physical address when the segment ends in a forward
/// record, and `None` when the segment is exhausted.
///
/// The contract pins the walk down over [`segment_visits`] and
/// [`segment_end`]: if nothing was mapped the visitor saw nothing; once
/// the segment was mapped, the visitor received exactly a prefix of the
/// segment's records, in byte order; the exhausted and forwarded outcomes
/// deliver the whole sequence, and a forwarded outcome resumes exactly at
/// the forward record's target.
fn walk_segment<V: Visitor, M: Mapper>(
    callback: &mut V,
    mapper: &mut M,
    header: Header,
    physical: usize,
) -> (r: Result<Option<(Header, usize)>, &'static str>)
    ensures
        mapper_preserved(*old(mapper), *final(mapper)),
        physical + header.header_bytes > usize::MAX ==> (r is Err && *final(mapper) == *old(
            mapper,
        )),
        final(mapper).maps() == old(mapper).maps() ==> final(callback).log() == old(
            callback,
        ).log(),
        final(mapper).maps() != old(mapper).maps() ==> ({
            let seg = segment_of(old(mapper).contents(), header, physical as int);
            let visits = segment_visits(
                seg,
                header.table_bytes as int,
                0,
                header.table_entries as int,
            );
            let grown = final(callback).log().len() - old(callback).log().len();
            &&& old(callback).log().len() <= final(callback).log().len()
            &&& final(callback).log().len() <= old(callback).log().len() + visits.len()
            &&& final(callback).log() =~= old(callback).log() + visits.take(grown)
        }),
        (r matches Ok(None) ==> ({
            let seg = segment_of(old(mapper).contents(), header, physical as int);
            let ts = header.table_bytes as int;
            let total = header.table_entries as int;
            &&& final(callback).log() =~= old(callback).log() + segment_visits(seg, ts, 0, total)
            &&& segment_end(seg, ts, 0, total) == SegmentEnd::Exhausted
            &&& final(mapper).map_requests() == old(mapper).map_requests().push(
                ((physical + header.header_bytes) as int, header.table_bytes as int),
            )
        })),
        (r matches Ok(Some(p)) ==> ({
            let seg = segment_of(old(mapper).contents(), header, physical as int);
            let ts = header.table_bytes as int;
            let total = header.table_entries as int;
            &&& final(callback).log() =~= old(callback).log() + segment_visits(seg, ts, 0, total)
            &&& segment_end(seg, ts, 0, total) == SegmentEnd::Forwarded(p.1 as u64)
            &&& valid_header_at(final(mapper).contents(), p.1 as int)
            &&& spec_header_at(final(mapper).contents(), p.1 as int, p.0)
            &&& final(mapper).map_requests() == old(mapper).map_requests().push(
                ((physical + header.header_bytes) as int, header.table_bytes as int),
            ).push((p.1 as int, HEADER_LEN as int))
        })),
{
    if header.header_bytes as usize > usize::MAX - physical {
        return Err("Mapping failed");
    }
    let table_physical = physical + header.header_bytes as usize;
    let table_size = header.table_bytes as usize;
    let w = match mapper.map(PhysicalAddress(table_physical), table_size) {
        Ok(w) => w,
        Err(e) => return Err(e),
    };
    let ghost seg = segment_of(old(mapper).contents(), header, physical as int);
    let ghost ts = header.table_bytes as int;
    let ghost total = header.table_entries as int;
    let ghost log0 = old(callback).log();
    let ghost visits = segment_visits(seg, ts, 0, total);
    let ghost mut done: Seq<TableData> = Seq::empty();
    let wlen: usize = w.bytes.len();
    proof {
        assert(seg =~= w.bytes@.subrange(0, ts));
        assert(visits.take(0) =~= done);
        assert(log0 + done =~= log0);
    }
    let table_entries = header.table_entries as usize;
    let mut i: usize = 0;
    let mut entries: usize = 0;
    while entries < table_entries && table_size - i >= RECORD_LEN
        invariant
            i <= table_size,
            entries <= table_entries,
            wlen == w.bytes@.len(),
            table_size <= wlen,
            ts == table_size as int,
            total == table_entries as int,
            table_size == header.table_bytes as usize,
            table_entries == header.table_entries as usize,
            physical + header.header_bytes <= usize::MAX,
            seg == segment_of(old(mapper).contents(), header, physical as int),
            seg =~= w.bytes@.subrange(0, ts),
            visits == segment_visits(seg, ts, 0, total),
            log0 == old(callback).log(),
            done.len() == entries,
            done.len() <= visits.len(),
            callback.log() == log0 + done,
            visits.take(done.len() as int) == done,
            visits == done + segment_visits(seg, ts, i as int, total - entries),
            segment_end(seg, ts, 0, total) == segment_end(seg, ts, i as int, total - entries),
            mapper.map_requests() == old(mapper).map_requests().push(
                ((physical + header.header_bytes) as int, header.table_bytes as int),
            ),
            mapper.contents() == old(mapper).contents(),
            mapper.spec_page_size() == old(mapper).spec_page_size(),
            mapper.maps() == old(mapper).maps() + 1,
            mapper.unmaps() == old(mapper).unmaps(),
        decreases table_size - i,
    {
        let record = Record::decode(&w.bytes, i);
        let size = record.size as usize;
        proof {
            assert(forall|x: int| 0 <= x < ts ==> seg[x] == w.bytes@[x]);
            assert(spec_record(seg, i as int) == spec_record(w.bytes@, i as int));
        }
        if size < RECORD_LEN || size > table_size - i {
            proof {
                assert(callback.log().len() == log0.len() + done.len());
                assert(callback.log() =~= log0 + visits.take(done.len() as int));
            }
            return match mapper.unmap(w) {
                Ok(_) => Err("Malformed record"),
                Err(e) => Err(e),
            };
        }
        let kind = record.record_kind();
        if matches!(kind, RecordKind::Forward) {
            if size < FORWARD_LEN {
                proof {
                    assert(callback.log().len() == log0.len() + done.len());
                    assert(callback.log() =~= log0 + visits.take(done.len() as int));
                }
                return match mapper.unmap(w) {
                    Ok(_) => Err("Malformed record"),
                    Err(e) => Err(e),
                };
            }
            let f = Forward::decode(&w.bytes, i);
            proof {
                assert(record_fits(seg, ts, i as int));
                assert(segment_visits(seg, ts, i as int, total - entries)
                    =~= Seq::<TableData>::empty());
                assert(visits =~= done);
                assert(le64(seg, i as int + 8) == le64(w.bytes@, i as int + 8));
                assert(segment_end(seg, ts, i as int, total - entries) == SegmentEnd::Forwarded(
                    f.forward,
                ));
            }
            match mapper.unmap(w) {
                Ok(_) => {},
                Err(e) => return Err(e),
            }
            return match follow_forward(mapper, f.forward) {
                Ok(next) => Ok(Some(next)),
                Err(e) => Err(e),
            };
        }
        if matches!(kind, RecordKind::Framebuffer) && size < FRAMEBUFFER_LEN {
            proof {
                assert(callback.log().len() == log0.len() + done.len());
                assert(callback.log() =~= log0 + visits.take(done.len() as int));
            }
            return match mapper.unmap(w) {
                Ok(_) => Err("Malformed record"),
                Err(e) => Err(e),
            };
        }
        if matches!(kind, RecordKind::CmosOptionTable) && size < CMOS_LEN {
            proof {
                assert(callback.log().len() == log0.len() + done.len());
                assert(callback.log() =~= log0 + visits.take(done.len() as int));
            }
            return match mapper.unmap(w) {
                Ok(_) => Err("Malformed record"),
                Err(e) => Err(e),
            };
        }
        proof {
            assert(record_fits(seg, ts, i as int));
            assert(segment_visits(seg, ts, i as int, total - entries) =~= seq![
                spec_record_data(seg, i as int),
            ] + segment_visits(seg, ts, i as int + size as int, total - entries - 1));
        }
        let visit_result: Result<(), &'static str> = match kind {
            RecordKind::Memory => {
                let m = Memory::decode(&w.bytes, i, size);
                let t = Table::Memory(&m);
                proof {
                    let want = spec_memory_ranges(seg, i as int, size as int);
                    let got = spec_memory_ranges(w.bytes@, i as int, size as int);
                    assert forall|j: int| 0 <= j < want.len() implies got[j] == want[j] by {
                        assert(crate::memory::MEMORY_RANGE_LEN * j
                            + crate::memory::MEMORY_RANGE_LEN <= size - RECORD_LEN)
                            by (nonlinear_arith)
                            requires
                                0 <= j < ((size - RECORD_LEN) / crate::memory::MEMORY_RANGE_LEN
                                    as int),
                                crate::memory::MEMORY_RANGE_LEN == 20,
                                RECORD_LEN <= size,
                        ;
                    }
                    assert(got =~= want);
                    assert(t.data() == spec_record_data(seg, i as int));
                }
                callback.visit(t)
            },
            RecordKind::Framebuffer => {
                let f = Framebuffer::decode(&w.bytes, i);
                let t = Table::Framebuffer(&f);
                proof {
                    assert(spec_framebuffer(w.bytes@, i as int) == spec_framebuffer(
                        seg,
                        i as int,
                    ));
                    assert(t.data() == spec_record_data(seg, i as int));
                }
                callback.visit(t)
            },
            RecordKind::CmosOptionTable => {
                let c = Cmos::decode(&w.bytes, i, size);
                let t = Table::Cmos(&c);
                proof {
                    assert(w.bytes@.subrange(i as int, i as int + size as int) =~= seg.subrange(
                        i as int,
                        i as int + size as int,
                    ));
                    assert(t.data() == spec_record_data(seg, i as int));
                }
                callback.visit(t)
            },
            _ => {
                let t = Table::Other(&record);
                proof {
                    assert(t.data() == spec_record_data(seg, i as int));
                }
                callback.visit(t)
            },
        };
        proof {
            assert(callback.log() =~= log0 + done.push(spec_record_data(seg, i as int)));
            done = done.push(spec_record_data(seg, i as int));
            assert(visits =~= done + segment_visits(
                seg,
                ts,
                i as int + size as int,
                total - entries - 1,
            ));
            assert(visits.take(done.len() as int) =~= done);
            assert(segment_end(seg, ts, i as int, total - entries) == segment_end(
                seg,
                ts,
                i as int + size as int,
                total - entries - 1,
            ));
        }
        match visit_result {
            Ok(_) => {},
            Err(e) => {
                proof {
                    assert(callback.log().len() == log0.len() + done.len());
                    assert(callback.log() =~= log0 + visits.take(done.len() as int));
                }
                return match mapper.unmap(w) {
                    Ok(_) => Err(e),
                    Err(unmap_error) => Err(unmap_error),
                };
            },
        }
        i = i + size;
        entries = entries + 1;
    }
    proof {
        assert(segment_visits(seg, ts, i as int, total - entries) =~= Seq::<TableData>::empty());
        assert(visits =~= done);
        assert(segment_end(seg, ts, i as int, total - entries) == SegmentEnd::Exhausted);
    }
    match mapper.unmap(w) {
        Ok(_) => Ok(None),
        Err(e) => Err(e),
    }
}

/// Follows a forward record: validates the header at the forward target
/// and hands it back for the walk to resume there. An invalid header at
/// the target is fatal. On success the returned address is the forward
/// target itself, and the returned header is exactly what memory holds
/// there, and it is valid.
fn follow_forward<M: Mapper>(mapper: &mut M, target: u64) -> (r: Result<
    (Header, usize),
    &'static str,
>)
    ensures
        mapper_preserved(*old(mapper), *final(mapper)),
        old(mapper).maps() <= final(mapper).maps(),
        (r matches Ok(p) ==> {
            &&& p.1 == target
            &&& valid_header_at(final(mapper).contents(), p.1 as int)
            &&& spec_header_at(final(mapper).contents(), p.1 as int, p.0)
            &&& final(mapper).map_requests() == old(mapper).map_requests().push(
                (target as int, HEADER_LEN as int),
            )
        }),
{
    if target > usize::MAX as u64 {
        return Err("Forward header invalid");
    }
    let physical = target as usize;
    let w = match mapper.map(PhysicalAddress(physical), HEADER_LEN) {
        Ok(w) => w,
        Err(e) => return Err(e),
    };
    let h = Header::decode(&w.bytes, 0);
    let valid = h.is_valid();
    proof {
        if valid {
            let n = w.bytes@.len() as int;
            crate::header::lemma_valid_header_at_decode(w.bytes@, 0, h);
            crate::header::lemma_header_at_shift(mapper.contents(), physical as int, n, 0, h);
            crate::header::lemma_valid_header_shift(mapper.contents(), physical as int, n, 0);
        }
    }
    match mapper.unmap(w) {
        Ok(_) => {},
        Err(e) => return Err(e),
    }
    if valid {
        Ok((h, physical))
    } else {
        Err("Forward header invalid")
    }
}

} // verus!
