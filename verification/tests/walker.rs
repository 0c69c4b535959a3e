//! End-to-end tests of the table walk: header scanning, record dispatch,
//! forward chains, defensive bound checks, entry-count handling, and the
//! map/unmap balance, all against an in-memory mapping double.

use coreboot_table::{tables, CmosRecord, Mapper, PhysicalAddress, Table, Visitor, Window};

struct TestMapper {
    memory: Vec<u8>,
    page: usize,
    maps: usize,
    unmaps: usize,
}

impl TestMapper {
    fn new(memory: Vec<u8>, page: usize) -> TestMapper {
        TestMapper { memory, page, maps: 0, unmaps: 0 }
    }

    fn balanced(&self) -> bool {
        self.maps == self.unmaps
    }
}

impl Mapper for TestMapper {
    fn page_size(&self) -> usize {
        self.page
    }

    fn map(&mut self, address: PhysicalAddress, size: usize) -> Result<Window, &'static str> {
        let start = address.0;
        let end = match start.checked_add(size) {
            Some(end) => end,
            None => return Err("Mapping failed"),
        };
        if end > self.memory.len() {
            return Err("Mapping failed");
        }
        self.maps += 1;
        Ok(Window { bytes: self.memory[start..end].to_vec() })
    }

    fn unmap(&mut self, _window: Window) -> Result<(), &'static str> {
        self.unmaps += 1;
        Ok(())
    }
}

#[derive(Default)]
struct Recorder {
    memories: Vec<Vec<(u64, u64, u32)>>,
    framebuffers: Vec<(u64, u32, u32)>,
    cmos_names: Vec<Vec<u8>>,
    cmos_values: Vec<(u32, Vec<u8>)>,
    others: Vec<(u32, u32)>,
    stop_after: Option<usize>,
    seen: usize,
}

impl Visitor for Recorder {
    fn visit(&mut self, table: Table<'_>) -> Result<(), &'static str> {
        self.seen += 1;
        match table {
            Table::Memory(m) => {
                let mut ranges = Vec::new();
                for r in m.ranges().iter() {
                    ranges.push((r.start.unpack(), r.size.unpack(), r.kind));
                }
                self.memories.push(ranges);
            },
            Table::Framebuffer(f) => {
                self.framebuffers.push((f.physical_address, f.x_resolution, f.y_resolution));
            },
            Table::Cmos(c) => {
                let mut records = c.records();
                while let Some(record) = records.next() {
                    match record {
                        CmosRecord::Entry(e) => self.cmos_names.push(e.name().clone()),
                        CmosRecord::Enum(e) => self.cmos_values.push((e.value, e.text().clone())),
                        CmosRecord::Other(_) => {},
                    }
                }
            },
            Table::Other(r) => self.others.push((r.kind, r.size)),
        }
        match self.stop_after {
            Some(limit) if self.seen >= limit => Err("stop"),
            _ => Ok(()),
        }
    }
}

fn w32(v: &mut Vec<u8>, x: u32) {
    v.extend_from_slice(&x.to_le_bytes());
}

fn w64(v: &mut Vec<u8>, x: u64) {
    v.extend_from_slice(&x.to_le_bytes());
}

/// Writes a valid table header at `at`, declaring `table_bytes` bytes of
/// records and `table_entries` entries right after the header.
fn write_header(memory: &mut Vec<u8>, at: usize, table_bytes: u32, table_entries: u32) {
    let mut h = b"LBIO".to_vec();
    w32(&mut h, 24);
    w32(&mut h, 0);
    w32(&mut h, table_bytes);
    w32(&mut h, 0);
    w32(&mut h, table_entries);
    memory[at..at + 24].copy_from_slice(&h);
}

fn memory_record(ranges: &[(u64, u64, u32)]) -> Vec<u8> {
    let mut v = Vec::new();
    w32(&mut v, 0x01);
    w32(&mut v, (8 + 20 * ranges.len()) as u32);
    for &(start, size, kind) in ranges {
        w64(&mut v, start);
        w64(&mut v, size);
        w32(&mut v, kind);
    }
    v
}

fn forward_record(target: u64) -> Vec<u8> {
    let mut v = Vec::new();
    w32(&mut v, 0x11);
    w32(&mut v, 16);
    w64(&mut v, target);
    v
}

fn framebuffer_record(address: u64, x: u32, y: u32) -> Vec<u8> {
    let mut v = Vec::new();
    w32(&mut v, 0x12);
    w32(&mut v, 37);
    w64(&mut v, address);
    w32(&mut v, x);
    w32(&mut v, y);
    w32(&mut v, 4 * x);
    v.extend_from_slice(&[32, 16, 8, 8, 8, 0, 8, 24, 8]);
    v
}

fn write_records(memory: &mut Vec<u8>, at: usize, records: &[Vec<u8>]) -> u32 {
    let mut offset = at;
    for record in records {
        memory[offset..offset + record.len()].copy_from_slice(record);
        offset += record.len();
    }
    (offset - at) as u32
}

#[test]
fn walk_visits_memory_record() {
    let mut memory = vec![0u8; 4096];
    let table_bytes = write_records(&mut memory, 24, &[memory_record(&[(0, 0x9f000, 1), (
        0x100000,
        0x1000000,
        2,
    )])]);
    write_header(&mut memory, 0, table_bytes, 1);
    let mut mapper = TestMapper::new(memory, 4096);
    let mut visitor = Recorder::default();
    assert_eq!(tables(&mut visitor, &mut mapper), Ok(()));
    assert_eq!(visitor.memories, vec![vec![(0, 0x9f000, 1), (0x100000, 0x1000000, 2)]]);
    assert_eq!(visitor.seen, 1);
    assert!(mapper.balanced());
}

#[test]
fn walk_finds_header_at_aligned_offset_within_page() {
    let mut memory = vec![0u8; 4096];
    let header_at = 64 + 4; // not page-aligned, but 4-byte-aligned
    let table_bytes = write_records(&mut memory, header_at + 24, &[framebuffer_record(
        0xfd00_0000,
        1024,
        768,
    )]);
    write_header(&mut memory, header_at, table_bytes, 1);
    let mut mapper = TestMapper::new(memory, 4096);
    let mut visitor = Recorder::default();
    assert_eq!(tables(&mut visitor, &mut mapper), Ok(()));
    assert_eq!(visitor.framebuffers, vec![(0xfd00_0000, 1024, 768)]);
    assert!(mapper.balanced());
}

#[test]
fn walk_honors_declared_entry_count() {
    // Three records fit in the table's bytes, but the header declares two.
    let mut memory = vec![0u8; 4096];
    let records =
        [memory_record(&[(0, 1, 1)]), memory_record(&[(2, 3, 1)]), memory_record(&[(4, 5, 1)])];
    let table_bytes = write_records(&mut memory, 24, &records);
    write_header(&mut memory, 0, table_bytes, 2);
    let mut mapper = TestMapper::new(memory, 4096);
    let mut visitor = Recorder::default();
    assert_eq!(tables(&mut visitor, &mut mapper), Ok(()));
    assert_eq!(visitor.seen, 2);
    assert_eq!(visitor.memories, vec![vec![(0, 1, 1)], vec![(2, 3, 1)]]);
    assert!(mapper.balanced());
}

#[test]
fn walk_follows_forward_into_second_segment() {
    // Segment A holds only a forward record pointing at segment B; the
    // visitor must receive exactly B's memory record and nothing from A.
    let mut memory = vec![0u8; 4096];
    let table_bytes = write_records(&mut memory, 24, &[forward_record(0x800)]);
    write_header(&mut memory, 0, table_bytes, 1);
    let second = write_records(&mut memory, 0x800 + 24, &[memory_record(&[(7, 8, 1)])]);
    write_header(&mut memory, 0x800, second, 1);
    let mut mapper = TestMapper::new(memory, 4096);
    let mut visitor = Recorder::default();
    assert_eq!(tables(&mut visitor, &mut mapper), Ok(()));
    assert_eq!(visitor.seen, 1);
    assert_eq!(visitor.memories, vec![vec![(7, 8, 1)]]);
    assert!(mapper.balanced());
}

#[test]
fn walk_finds_header_on_later_page() {
    let mut memory = vec![0u8; 3 * 4096];
    let header_at = 2 * 4096 + 128;
    let table_bytes = write_records(&mut memory, header_at + 24, &[memory_record(&[(1, 2, 3)])]);
    write_header(&mut memory, header_at, table_bytes, 1);
    let mut mapper = TestMapper::new(memory, 4096);
    let mut visitor = Recorder::default();
    assert_eq!(tables(&mut visitor, &mut mapper), Ok(()));
    assert_eq!(visitor.memories, vec![vec![(1, 2, 3)]]);
    assert!(mapper.balanced());
}

#[test]
fn walk_follows_forward_chain_of_two() {
    let mut memory = vec![0u8; 4096];
    let first = write_records(&mut memory, 24, &[forward_record(0x400)]);
    write_header(&mut memory, 0, first, 1);
    let second = write_records(&mut memory, 0x400 + 24, &[forward_record(0x800)]);
    write_header(&mut memory, 0x400, second, 1);
    let third = write_records(&mut memory, 0x800 + 24, &[framebuffer_record(0xe000_0000, 640, 480)]);
    write_header(&mut memory, 0x800, third, 1);
    let mut mapper = TestMapper::new(memory, 4096);
    let mut visitor = Recorder::default();
    assert_eq!(tables(&mut visitor, &mut mapper), Ok(()));
    assert_eq!(visitor.framebuffers, vec![(0xe000_0000, 640, 480)]);
    assert_eq!(visitor.seen, 1);
    assert!(mapper.balanced());
}

#[test]
fn walk_rejects_invalid_forward_target() {
    let mut memory = vec![0u8; 4096];
    let table_bytes = write_records(&mut memory, 24, &[forward_record(0x800)]);
    write_header(&mut memory, 0, table_bytes, 1);
    // Nothing valid at 0x800.
    let mut mapper = TestMapper::new(memory, 4096);
    let mut visitor = Recorder::default();
    assert_eq!(tables(&mut visitor, &mut mapper), Err("Forward header invalid"));
    assert!(mapper.balanced());
}

#[test]
fn walk_rejects_forward_cycle() {
    // The forward record points back at its own segment's header.
    let mut memory = vec![0u8; 4096];
    let table_bytes = write_records(&mut memory, 24, &[forward_record(0)]);
    write_header(&mut memory, 0, table_bytes, 1);
    let mut mapper = TestMapper::new(memory, 4096);
    let mut visitor = Recorder::default();
    assert_eq!(tables(&mut visitor, &mut mapper), Err("Forward loop"));
    assert!(mapper.balanced());
}

#[test]
fn walk_rejects_record_past_table_extent() {
    // The record's declared size runs past the table's declared bytes.
    let mut memory = vec![0u8; 4096];
    let mut record = Vec::new();
    w32(&mut record, 0x01);
    w32(&mut record, 0x100);
    write_records(&mut memory, 24, &[record]);
    write_header(&mut memory, 0, 16, 1);
    let mut mapper = TestMapper::new(memory, 4096);
    let mut visitor = Recorder::default();
    assert_eq!(tables(&mut visitor, &mut mapper), Err("Malformed record"));
    assert_eq!(visitor.seen, 0);
    assert!(mapper.balanced());
}

#[test]
fn walk_rejects_record_smaller_than_prefix() {
    let mut memory = vec![0u8; 4096];
    let mut record = Vec::new();
    w32(&mut record, 0x01);
    w32(&mut record, 4); // smaller than the generic prefix
    write_records(&mut memory, 24, &[record]);
    write_header(&mut memory, 0, 16, 1);
    let mut mapper = TestMapper::new(memory, 4096);
    let mut visitor = Recorder::default();
    assert_eq!(tables(&mut visitor, &mut mapper), Err("Malformed record"));
    assert!(mapper.balanced());
}

#[test]
fn walk_reports_header_not_found() {
    // No page of low memory holds a valid signature: the walk must end
    // with the not-found failure, not hang and not fail some other way.
    let memory = vec![0u8; 1024 * 1024];
    let mut mapper = TestMapper::new(memory, 4096);
    let mut visitor = Recorder::default();
    assert_eq!(tables(&mut visitor, &mut mapper), Err("Header not found"));
    assert_eq!(visitor.seen, 0);
    assert_eq!(mapper.maps, 256);
    assert!(mapper.balanced());
}

#[test]
fn walk_propagates_map_failure() {
    // The mapping capability cannot reach low memory at all.
    let mut mapper = TestMapper::new(Vec::new(), 4096);
    let mut visitor = Recorder::default();
    assert_eq!(tables(&mut visitor, &mut mapper), Err("Mapping failed"));
    assert!(mapper.balanced());
}

#[test]
fn walk_stops_when_visitor_asks() {
    let mut memory = vec![0u8; 4096];
    let records = [memory_record(&[(0, 1, 1)]), memory_record(&[(2, 3, 1)])];
    let table_bytes = write_records(&mut memory, 24, &records);
    write_header(&mut memory, 0, table_bytes, 2);
    let mut mapper = TestMapper::new(memory, 4096);
    let mut visitor = Recorder { stop_after: Some(1), ..Recorder::default() };
    assert_eq!(tables(&mut visitor, &mut mapper), Err("stop"));
    assert_eq!(visitor.seen, 1);
    assert!(mapper.balanced());
}

#[test]
fn walk_hands_unrecognized_record_to_visitor() {
    let mut memory = vec![0u8; 4096];
    let mut serial = Vec::new();
    w32(&mut serial, 0x0f);
    w32(&mut serial, 32);
    for _ in 0..6 {
        w32(&mut serial, 0);
    }
    let mut unknown = Vec::new();
    w32(&mut unknown, 0x1234);
    w32(&mut unknown, 12);
    unknown.extend_from_slice(&[0; 4]);
    let table_bytes = write_records(&mut memory, 24, &[serial, unknown]);
    write_header(&mut memory, 0, table_bytes, 2);
    let mut mapper = TestMapper::new(memory, 4096);
    let mut visitor = Recorder::default();
    assert_eq!(tables(&mut visitor, &mut mapper), Ok(()));
    assert_eq!(visitor.others, vec![(0x0f, 32), (0x1234, 12)]);
    assert!(mapper.balanced());
}

#[test]
fn walk_decodes_cmos_option_table() {
    let mut memory = vec![0u8; 4096];
    let mut entry = Vec::new();
    w32(&mut entry, 0xc9);
    w32(&mut entry, 24 + 11);
    w32(&mut entry, 416);
    w32(&mut entry, 4);
    w32(&mut entry, 1);
    w32(&mut entry, 7);
    entry.extend_from_slice(b"Boot Order\0");
    let mut choice = Vec::new();
    w32(&mut choice, 0xca);
    w32(&mut choice, 16 + 5);
    w32(&mut choice, 7);
    w32(&mut choice, 2);
    choice.extend_from_slice(b"Disk\0");
    let mut cmos = Vec::new();
    w32(&mut cmos, 0xc8);
    w32(&mut cmos, (12 + entry.len() + choice.len()) as u32);
    w32(&mut cmos, 12);
    cmos.extend_from_slice(&entry);
    cmos.extend_from_slice(&choice);
    let table_bytes = write_records(&mut memory, 24, &[cmos]);
    write_header(&mut memory, 0, table_bytes, 1);
    let mut mapper = TestMapper::new(memory, 4096);
    let mut visitor = Recorder::default();
    assert_eq!(tables(&mut visitor, &mut mapper), Ok(()));
    assert_eq!(visitor.cmos_names, vec![b"Boot Order".to_vec()]);
    assert_eq!(visitor.cmos_values, vec![(2, b"Disk".to_vec())]);
    assert!(mapper.balanced());
}
