use tmk_vmm::bytes::ByteOrder;
use tmk_vmm::image::{
    enumerate_image, enumerate_tests, find_bytes, DescriptorLayout, EnumerateErrorKind,
    RelocationTable, Section, Segment, TestInfo,
};

const LAYOUT: DescriptorLayout =
    DescriptorLayout { size: 24, name: 0, name_len: 8, order: ByteOrder::Little };

fn descriptor(name: u64, name_len: u64) -> Vec<u8> {
    let mut d = Vec::new();
    d.extend(name.to_le_bytes());
    d.extend(name_len.to_le_bytes());
    d.extend(0xdead_beefu64.to_le_bytes());
    d
}

fn section(address: u64, descriptors: &[(u64, u64)]) -> Section {
    let mut data = Vec::new();
    for (name, len) in descriptors {
        data.extend(descriptor(*name, *len));
    }
    Section { address, data }
}

fn segment(address: u64, data: &[u8]) -> Segment {
    Segment { address, data: Ok(data.to_vec()) }
}

fn pairs(tests: Vec<TestInfo>) -> Vec<(String, u64)> {
    tests.into_iter().map(|t| (t.name, t.index)).collect()
}

fn section_header(name: u32, kind: u32, address: u64, offset: u64, size: u64, item: u64) -> Vec<u8> {
    let mut h = Vec::new();
    h.extend(name.to_le_bytes());
    h.extend(kind.to_le_bytes());
    h.extend(2u64.to_le_bytes());
    h.extend(address.to_le_bytes());
    h.extend(offset.to_le_bytes());
    h.extend(size.to_le_bytes());
    h.extend(0u64.to_le_bytes());
    h.extend(8u64.to_le_bytes());
    h.extend(item.to_le_bytes());
    h
}

struct Image {
    section_name: &'static [u8; 9],
    section_offset: u64,
    segment_size: u64,
    empty_segment: Option<u64>,
    descriptors: Vec<u8>,
    names: Vec<u8>,
    relocations: Vec<(u64, i64)>,
}

const BASE: u64 = 0x1000;

fn image() -> Image {
    let mut descriptors = descriptor(0, 4);
    descriptors.extend(descriptor(BASE + 0x104, 3));
    Image {
        section_name: b"tmk_tests",
        section_offset: 0x100,
        segment_size: 0x200,
        empty_segment: None,
        descriptors,
        names: b"boottrap".to_vec(),
        relocations: vec![(BASE, BASE as i64 + 0x100)],
    }
}

fn program_header(offset: u64, size: u64) -> Vec<u8> {
    let mut h = Vec::new();
    h.extend(1u32.to_le_bytes());
    h.extend(4u32.to_le_bytes());
    for v in [offset, BASE, BASE, size, size, 0x1000] {
        h.extend(v.to_le_bytes());
    }
    h
}

// A 64-bit ELF file: its loadable segment starts at offset 0x100 with the descriptors, and the
// names follow at offset 0x200.
fn file(i: &Image) -> Vec<u8> {
    let mut f = vec![0; 0x600];
    f[..8].copy_from_slice(&[0x7f, b'E', b'L', b'F', 2, 1, 1, 0]);
    f[16..18].copy_from_slice(&3u16.to_le_bytes());
    f[18..20].copy_from_slice(&183u16.to_le_bytes());
    f[20..24].copy_from_slice(&1u32.to_le_bytes());
    f[32..40].copy_from_slice(&64u64.to_le_bytes());
    f[40..48].copy_from_slice(&0x400u64.to_le_bytes());
    f[52..54].copy_from_slice(&64u16.to_le_bytes());
    f[54..56].copy_from_slice(&56u16.to_le_bytes());
    let segments = 1 + u16::from(i.empty_segment.is_some());
    f[56..58].copy_from_slice(&segments.to_le_bytes());
    f[58..60].copy_from_slice(&64u16.to_le_bytes());
    f[60..62].copy_from_slice(&4u16.to_le_bytes());
    f[62..64].copy_from_slice(&1u16.to_le_bytes());
    let mut program = Vec::new();
    if let Some(offset) = i.empty_segment {
        program.extend(program_header(offset, 0));
    }
    program.extend(program_header(0x100, i.segment_size));
    f[64..64 + program.len()].copy_from_slice(&program);
    f[0x100..0x100 + i.descriptors.len()].copy_from_slice(&i.descriptors);
    f[0x200..0x200 + i.names.len()].copy_from_slice(&i.names);
    let mut relocations = Vec::new();
    for (offset, addend) in &i.relocations {
        relocations.extend(offset.to_le_bytes());
        relocations.extend(1027u64.to_le_bytes());
        relocations.extend(addend.to_le_bytes());
    }
    f[0x300..0x300 + relocations.len()].copy_from_slice(&relocations);
    f[0x3c1..0x3ca].copy_from_slice(i.section_name);
    let mut sections = vec![0; 64];
    sections.extend(section_header(0, 3, 0, 0x3c0, 0x20, 0));
    let size = i.descriptors.len() as u64;
    sections.extend(section_header(1, 1, BASE, i.section_offset, size, 24));
    sections.extend(section_header(0, 4, 0, 0x300, relocations.len() as u64, 24));
    f[0x400..0x400 + sections.len()].copy_from_slice(&sections);
    f
}

fn kind(f: &[u8]) -> EnumerateErrorKind {
    let e = enumerate_tests(f, &LAYOUT).unwrap_err();
    let read = [
        EnumerateErrorKind::Parse,
        EnumerateErrorKind::SectionData,
        EnumerateErrorKind::SegmentData,
    ];
    assert_eq!(e.source.is_some(), read.contains(&e.kind));
    e.kind
}

#[test]
fn a_file_lists_its_tests() {
    let tests = enumerate_tests(&file(&image()), &LAYOUT).unwrap();
    assert_eq!(pairs(tests), [("boot".to_string(), 0), ("tra".to_string(), 1)]);
}

#[test]
fn a_file_may_have_no_tests() {
    let mut i = image();
    i.descriptors = vec![];
    assert!(enumerate_tests(&file(&i), &LAYOUT).unwrap().is_empty());
}

#[test]
fn what_is_empty_may_lie_anywhere() {
    let mut i = image();
    i.empty_segment = Some(0x10_0000);
    let tests = enumerate_tests(&file(&i), &LAYOUT).unwrap();
    assert_eq!(pairs(tests), [("boot".to_string(), 0), ("tra".to_string(), 1)]);
    i = image();
    i.descriptors = vec![];
    i.section_offset = 0x10_0000;
    assert!(enumerate_tests(&file(&i), &LAYOUT).unwrap().is_empty());
}

#[test]
fn descriptors_are_read_in_the_order_of_the_host() {
    let mut data = Vec::new();
    for v in [0x2001u64, 2, 0] {
        data.extend(v.to_be_bytes());
    }
    let layout = DescriptorLayout { order: ByteOrder::Big, ..LAYOUT };
    let segments = [segment(0x2000, b"abc")];
    let tests = enumerate_image(&[], &Section { address: 0, data }, &segments, &layout).unwrap();
    assert_eq!(pairs(tests), [("bc".to_string(), 0)]);
}

#[test]
fn a_file_may_be_unusable() {
    assert_eq!(kind(b""), EnumerateErrorKind::Parse);
    let e = enumerate_tests(b"\x7fELF", &LAYOUT).unwrap_err();
    assert!(e.source.is_some());
    let mut i = image();
    i.section_name = b"tmk_other";
    assert_eq!(kind(&file(&i)), EnumerateErrorKind::NoSection);
    i = image();
    i.section_offset = 0x10_0000;
    assert_eq!(kind(&file(&i)), EnumerateErrorKind::SectionData);
    i = image();
    i.descriptors.push(0);
    assert_eq!(kind(&file(&i)), EnumerateErrorKind::Descriptors);
    i = image();
    i.segment_size = 0x104;
    assert_eq!(kind(&file(&i)), EnumerateErrorKind::NameNotFound);
    i = image();
    i.segment_size = 0x10_0000;
    assert_eq!(kind(&file(&i)), EnumerateErrorKind::SegmentData);
    i = image();
    i.names = b"\xff\xff\xff\xff".to_vec();
    assert_eq!(kind(&file(&i)), EnumerateErrorKind::NameEncoding);
}

#[test]
fn a_name_is_relocated() {
    let mut i = image();
    i.relocations = vec![(BASE, BASE as i64 + 0x104), (BASE + 24, -4)];
    let tests = enumerate_tests(&file(&i), &LAYOUT).unwrap();
    assert_eq!(pairs(tests), [("trap".to_string(), 0), ("boo".to_string(), 1)]);
}

#[test]
fn relocations_may_come_in_any_order() {
    let section = section(0x1000, &[(0, 1), (0, 1), (0x2001, 1)]);
    let segments = [segment(0x2000, b"abc")];
    let relocations = [(0x1018, 0x2002), (0x9000, 1), (0x1000, 0x2000)];
    let tests = enumerate_image(&relocations, &section, &segments, &LAYOUT).unwrap();
    assert_eq!(
        pairs(tests),
        [("a".to_string(), 0), ("c".to_string(), 1), ("b".to_string(), 2)]
    );
}

#[test]
fn a_table_relocates_as_the_list_does() {
    let table = RelocationTable::new(&[(5, 10), (1, -1), (5, 20)]);
    assert_eq!(table.relocate(5, 100), 120);
    assert_eq!(table.relocate(1, 0), u64::MAX);
    assert_eq!(table.relocate(2, 7), 7);
    assert_eq!(RelocationTable::new(&[]).relocate(0, 9), 9);
}

#[test]
fn bytes_come_from_the_first_segment_that_holds_them() {
    let segments = [segment(0x10, b"abcd"), segment(0x12, b"xyzw")];
    assert_eq!(find_bytes(&segments, 0x12, 2).unwrap(), b"cd");
    assert_eq!(find_bytes(&segments, 0x12, 3).unwrap(), b"xyz");
    assert_eq!(find_bytes(&segments, 0x14, 0).unwrap(), b"");
    let e = find_bytes(&segments, 0x20, 1).unwrap_err();
    assert_eq!(e.kind, EnumerateErrorKind::NameNotFound);
    let e = find_bytes(&segments, 0x10, u64::MAX).unwrap_err();
    assert_eq!(e.kind, EnumerateErrorKind::NameNotFound);
}

#[test]
fn the_first_test_without_a_name_fails_the_list() {
    let segments = [segment(0x2000, b"a\xffc")];
    let list = |descriptors: &[(u64, u64)]| {
        enumerate_image(&[], &section(0, descriptors), &segments, &LAYOUT).map(pairs)
    };
    assert_eq!(
        list(&[(0x2000, 1), (0x2001, 1), (0x3000, 1)]).unwrap_err().kind,
        EnumerateErrorKind::NameEncoding
    );
    assert_eq!(
        list(&[(0x2000, 1), (0x3000, 1), (0x2001, 1)]).unwrap_err().kind,
        EnumerateErrorKind::NameNotFound
    );
    assert_eq!(list(&[(0x2000, 1), (0x2002, 1)]).unwrap().len(), 2);
}

#[test]
fn descriptors_stay_in_the_address_space() {
    let segments = [segment(0x2000, b"abc")];
    let at_end = section(u64::MAX - 1, &[(0x2000, 1), (0x2000, 1)]);
    let e = enumerate_image(&[], &at_end, &segments, &LAYOUT).unwrap_err();
    assert_eq!(e.kind, EnumerateErrorKind::AddressOverflow);
}

#[test]
fn list_errors_have_messages() {
    for (kind, text) in [
        (EnumerateErrorKind::Parse, Some("failed to parse TMK")),
        (EnumerateErrorKind::NoRelocations, Some("failed to find dynamic relocations")),
        (EnumerateErrorKind::NoSection, Some("failed to find tmk_tests section")),
        (EnumerateErrorKind::SectionData, None),
        (EnumerateErrorKind::Descriptors, Some("failed to parse tmk_tests section")),
        (EnumerateErrorKind::AddressOverflow, Some("test descriptor address overflowed")),
        (EnumerateErrorKind::NameNotFound, Some("failed to find name for test")),
        (EnumerateErrorKind::SegmentData, Some("failed to parse tmk")),
        (EnumerateErrorKind::NameEncoding, Some("failed to parse test name")),
    ] {
        assert_eq!(kind.message(), text);
    }
}
