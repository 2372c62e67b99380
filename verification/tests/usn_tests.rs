use usn_journal::UsnError;
use usn_journal::chunk::{UsnEntry, scan_chunk};
use usn_journal::journal::{DEFAULT_PAGE_SIZE, RecordsIterator, UsnParser};
use usn_journal::record::{HEADER_LEN, decode_record};

fn push16(b: &mut Vec<u8>, v: u16) {
    b.push((v & 0xFF) as u8);
    b.push((v >> 8) as u8);
}

fn push32(b: &mut Vec<u8>, v: u32) {
    for i in 0..4 {
        b.push(((v >> (8 * i)) & 0xFF) as u8);
    }
}

fn push64(b: &mut Vec<u8>, v: u64) {
    for i in 0..8 {
        b.push(((v >> (8 * i)) & 0xFF) as u8);
    }
}

#[allow(clippy::too_many_arguments)]
fn record_bytes(
    record_length: u32,
    major: u16,
    minor: u16,
    file_ref: u64,
    parent_ref: u64,
    usn: u64,
    timestamp: u64,
    reason: u32,
    source_info: u32,
    security_id: u32,
    file_attributes: u32,
    name_units: &[u16],
) -> Vec<u8> {
    let mut b = Vec::new();
    push32(&mut b, record_length);
    push16(&mut b, major);
    push16(&mut b, minor);
    push64(&mut b, file_ref);
    push64(&mut b, parent_ref);
    push64(&mut b, usn);
    push64(&mut b, timestamp);
    push32(&mut b, reason);
    push32(&mut b, source_info);
    push32(&mut b, security_id);
    push32(&mut b, file_attributes);
    push16(&mut b, (name_units.len() * 2) as u16);
    push16(&mut b, HEADER_LEN as u16);
    for &u in name_units {
        push16(&mut b, u);
    }
    while b.len() < record_length as usize {
        b.push(0);
    }
    b
}

fn simple_record(usn: u64, record_length: u32, name: &str) -> Vec<u8> {
    let units: Vec<u16> = name.encode_utf16().collect();
    record_bytes(
        record_length,
        2,
        0,
        5 | (1u64 << 48),
        9 | (2u64 << 48),
        usn,
        0x01D7_0000_0000_0000,
        0x0000_0100,
        0,
        0x107,
        0x20,
        &units,
    )
}

fn drain(it: &mut RecordsIterator) -> Vec<UsnEntry> {
    let mut out = Vec::new();
    loop {
        match it.next() {
            Ok(Some(e)) => out.push(e),
            Ok(None) => return out,
            Err(e) => panic!("unexpected scan error: {:?}", e),
        }
    }
}

#[test]
fn round_trip_decode() {
    let entry: u64 = 0x0123_4567_89AB;
    let seq: u64 = 7;
    let p_entry: u64 = 0x000A_BCDE_F012;
    let p_seq: u64 = 3;
    let units: Vec<u16> = "example.txt".encode_utf16().collect();
    let data = record_bytes(
        88,
        2,
        0,
        entry | (seq << 48),
        p_entry | (p_seq << 48),
        42,
        0x01D9_8765_4321_0000,
        0x8000_0200,
        0x0000_0004,
        0x0000_0107,
        0x0000_0020,
        &units,
    );
    let rec = decode_record(&data, data.len(), 0).expect("a valid record must decode");
    assert_eq!(rec.record_length, 88);
    assert_eq!(rec.major_version, 2);
    assert_eq!(rec.minor_version, 0);
    assert_eq!(rec.file_reference.entry, entry);
    assert_eq!(rec.file_reference.sequence, seq);
    assert_eq!(rec.parent_reference.entry, p_entry);
    assert_eq!(rec.parent_reference.sequence, p_seq);
    assert_eq!(rec.usn, 42);
    assert_eq!(rec.timestamp, 0x01D9_8765_4321_0000);
    assert_eq!(rec.reason, 0x8000_0200);
    assert_eq!(rec.source_info, 0x0000_0004);
    assert_eq!(rec.security_id, 0x0000_0107);
    assert_eq!(rec.file_attributes, 0x0000_0020);
    assert_eq!(rec.file_name_length, 22);
    assert_eq!(rec.file_name_offset, HEADER_LEN as u16);
    assert_eq!(rec.file_name, "example.txt");
}

#[test]
fn order_preservation() {
    let mut data = Vec::new();
    for usn in 1..=4u64 {
        data.extend(simple_record(usn, 80, "a.txt"));
    }
    let mut parser = UsnParser::with_page_size("j".to_string(), data, 160);
    let mut it = parser.records().unwrap();
    let entries = drain(&mut it);
    assert_eq!(entries.len(), 4);
    for (i, e) in entries.iter().enumerate() {
        assert_eq!(e.record.usn, (i + 1) as u64);
        assert_eq!(e.offset, 80 * i as u64);
        assert_eq!(e.source, "j");
    }
    for w in entries.windows(2) {
        assert!(w[0].offset < w[1].offset);
    }
}

#[test]
fn chunk_independence() {
    let mut data = Vec::new();
    for usn in 1..=4u64 {
        data.extend(simple_record(usn, 80, "b.txt"));
    }
    let mut p1 = UsnParser::with_page_size("s".to_string(), data.clone(), 160);
    let mut p2 = UsnParser::with_page_size("s".to_string(), data, 320);
    let a = drain(&mut p1.records().unwrap());
    let b = drain(&mut p2.records().unwrap());
    assert_eq!(a.len(), 4);
    assert_eq!(a, b);
}

#[test]
fn single_use_enforcement() {
    let data = simple_record(1, 80, "c.txt");
    let mut parser = UsnParser::new("once".to_string(), data);
    assert!(parser.records().is_ok());
    match parser.records() {
        Err(e) => assert_eq!(e, UsnError::AlreadyUsed),
        Ok(_) => panic!("a second iterator must be refused"),
    }
}

#[test]
fn truncation_resilience() {
    let mut data = Vec::new();
    data.extend(simple_record(1, 80, "d.txt"));
    data.extend(simple_record(2, 80, "d.txt"));
    // A partial trailer: too short even for a record header.
    data.extend(std::iter::repeat(0xABu8).take(30));
    let mut parser = UsnParser::with_page_size("t".to_string(), data, 160);
    let mut it = parser.records().unwrap();
    let entries = drain(&mut it);
    assert_eq!(entries.len(), 2);
    assert_eq!(entries[0].record.usn, 1);
    assert_eq!(entries[1].record.usn, 2);
    // drain returned, so the scan ended with Ok(None), not an error.
}

#[test]
fn corrupt_record_skip() {
    let mut data = Vec::new();
    data.extend(simple_record(1, 80, "e.txt"));
    // A record whose declared length runs past the page: the rest of the
    // page is abandoned.
    let mut bad = simple_record(2, 500, "e.txt");
    bad.truncate(120);
    data.extend(bad);
    while data.len() < 256 {
        data.push(0x55);
    }
    data.extend(simple_record(3, 80, "e.txt"));
    let mut parser = UsnParser::with_page_size("c".to_string(), data, 256);
    let mut it = parser.records().unwrap();
    let entries = drain(&mut it);
    assert_eq!(entries.len(), 2);
    assert_eq!(entries[0].record.usn, 1);
    assert_eq!(entries[0].offset, 0);
    assert_eq!(entries[1].record.usn, 3);
    assert_eq!(entries[1].offset, 256);
}

#[test]
fn sentinel_ends_page_early() {
    let mut data = Vec::new();
    data.extend(simple_record(1, 80, "f.txt"));
    // record_length 0 marks the early end of the page; a record after the
    // sentinel in the same page is never reached.
    push32(&mut data, 0);
    while data.len() < 96 {
        data.push(0);
    }
    data.extend(simple_record(9, 80, "f.txt"));
    while data.len() < 256 {
        data.push(0);
    }
    data.extend(simple_record(3, 80, "f.txt"));
    let mut parser = UsnParser::with_page_size("s".to_string(), data, 256);
    let mut it = parser.records().unwrap();
    let entries = drain(&mut it);
    assert_eq!(entries.len(), 2);
    assert_eq!(entries[0].record.usn, 1);
    assert_eq!(entries[1].record.usn, 3);
}

#[test]
fn unsupported_version_stops_scan() {
    let mut data = Vec::new();
    data.extend(simple_record(1, 80, "g.txt"));
    let mut v3 = simple_record(2, 80, "g.txt");
    v3[4] = 3;  // major_version
    data.extend(v3);
    data.extend(simple_record(3, 80, "g.txt"));
    let mut parser = UsnParser::with_page_size("v".to_string(), data, 4096);
    let mut it = parser.records().unwrap();
    match it.next() {
        Ok(Some(e)) => assert_eq!(e.record.usn, 1),
        other => panic!("first record expected, got {:?}", other),
    }
    match it.next() {
        Err(UsnError::UnsupportedVersion) => {}
        other => panic!("the version-3 record must stop the scan, got {:?}", other),
    }
    // Terminal afterwards.
    assert!(matches!(it.next(), Ok(None)));
    assert!(matches!(it.next(), Ok(None)));
}

#[test]
fn unsupported_version_decode_error() {
    let mut data = simple_record(1, 80, "h.txt");
    data[4] = 9;
    match decode_record(&data, 80, 0) {
        Err(UsnError::UnsupportedVersion) => {}
        other => panic!("expected UnsupportedVersion, got {:?}", other),
    }
}

#[test]
fn truncated_decode_errors() {
    // Too few bytes for a header.
    let data = vec![0u8; 40];
    assert_eq!(decode_record(&data, 40, 0), Err(UsnError::Truncated));
    // Declared length shorter than the header.
    let mut short = simple_record(1, 80, "i.txt");
    short[0] = 30;
    assert_eq!(decode_record(&short, 80, 0), Err(UsnError::Truncated));
    // Declared length past the available bytes.
    let mut long = simple_record(1, 80, "i.txt");
    long[0] = 200;
    assert_eq!(decode_record(&long, 80, 0), Err(UsnError::Truncated));
    // Name span outside the record.
    let mut bad_span = simple_record(1, 80, "i.txt");
    bad_span[56] = 90;  // file_name_length
    assert_eq!(decode_record(&bad_span, 80, 0), Err(UsnError::Truncated));
}

#[test]
fn empty_journal() {
    let mut parser = UsnParser::new("empty".to_string(), Vec::new());
    let mut it = parser.records().unwrap();
    assert!(matches!(it.next(), Ok(None)));
    assert!(matches!(it.next(), Ok(None)));
}

#[test]
fn zero_page_size_reads_nothing() {
    let data = simple_record(1, 80, "k.txt");
    let mut parser = UsnParser::with_page_size("z".to_string(), data, 0);
    let mut it = parser.records().unwrap();
    assert!(matches!(it.next(), Ok(None)));
}

#[test]
fn default_page_size_is_journal_granularity() {
    assert_eq!(DEFAULT_PAGE_SIZE, 4096);
}

#[test]
fn lossy_name_lone_surrogate() {
    let units = [0x0061u16, 0xD800, 0x0062];
    let data = record_bytes(66, 2, 0, 1, 2, 7, 0, 0, 0, 0, 0, &units);
    let rec = decode_record(&data, data.len(), 0).unwrap();
    assert_eq!(rec.file_name, "a\u{FFFD}b");
}

#[test]
fn surrogate_pair_name() {
    let units: Vec<u16> = "x😀y".encode_utf16().collect();
    assert_eq!(units.len(), 4);
    let data = record_bytes(68, 2, 0, 1, 2, 7, 0, 0, 0, 0, 0, &units);
    let rec = decode_record(&data, data.len(), 0).unwrap();
    assert_eq!(rec.file_name, "x😀y");
}

#[test]
fn odd_name_length_drops_last_byte() {
    let units = [0x0061u16, 0x0062];
    let mut data = record_bytes(64, 2, 0, 1, 2, 7, 0, 0, 0, 0, 0, &units);
    data[56] = 3;  // file_name_length: one whole unit and a dangling byte
    let rec = decode_record(&data, data.len(), 0).unwrap();
    assert_eq!(rec.file_name, "a");
}

#[test]
fn multi_page_journal_with_padded_pages() {
    // Fifty-one 80-byte records fill the first default-size page up to
    // byte 4080; the zero padding to 4096 reads as a sentinel, and the
    // scan resumes at the page boundary.
    let mut data = Vec::new();
    for usn in 1..=51u64 {
        data.extend(simple_record(usn, 80, "n.txt"));
    }
    while data.len() < DEFAULT_PAGE_SIZE {
        data.push(0);
    }
    for usn in 52..=56u64 {
        data.extend(simple_record(usn, 80, "n.txt"));
    }
    let mut parser = UsnParser::new("multi".to_string(), data);
    let mut it = parser.records().unwrap();
    let entries = drain(&mut it);
    assert_eq!(entries.len(), 56);
    for (i, e) in entries.iter().enumerate() {
        assert_eq!(e.record.usn, (i + 1) as u64);
    }
    assert_eq!(entries[50].offset, 50 * 80);
    assert_eq!(entries[51].offset, DEFAULT_PAGE_SIZE as u64);
}

#[test]
fn scan_chunk_reports_offsets_within_data() {
    let mut data = Vec::new();
    data.extend(simple_record(1, 80, "m.txt"));
    data.extend(simple_record(2, 100, "m.txt"));
    let (entries, fatal) = scan_chunk(&data, 180, 0, &"page".to_string());
    assert!(!fatal);
    assert_eq!(entries.len(), 2);
    assert_eq!(entries[0].offset, 0);
    assert_eq!(entries[1].offset, 80);
    assert_eq!(entries[1].record.usn, 2);
    assert_eq!(entries[0].source, "page");
}
