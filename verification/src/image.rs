//! The tests of a test microkernel image.
//!
//! The image is an ELF file. Its `tmk_tests` section is an array of test descriptors, each of
//! which holds the address and the length of the test's name.

use crate::bytes::{lemma_widened_fits, read_u64, widened, ByteOrder};
use crate::sort::{
    lemma_with_key_empty, lemma_with_key_last, merge_sort, sorted_by_key, stable_rearrangement,
    with_key, Keyed,
};
use crate::text::string_from_utf8;
use object::read::elf::ElfFile64;
use object::read::{Object, ObjectSection, ObjectSegment, ReadCache};
use object::Endianness;
use std::io::Cursor;
use vstd::prelude::*;
use vstd::slice::slice_subrange;
use vstd::utf8::{decode_utf8, decode_utf8_encode_utf8, encode_utf8, valid_utf8};

verus! {

/// The error of the ELF reader, carried along as the source of an [`EnumerateError`].
#[verifier::external_type_specification]
#[verifier::external_body]
pub struct ExElfError(object::read::Error);

/// The dynamic relocations of an ELF file: nothing when the file cannot be parsed, and then
/// nothing when it has none to offer.
pub uninterp spec fn elf_dynamic_relocations(tmk: Seq<u8>) -> Option<Option<Seq<(u64, i64)>>>;

/// The address and the contents of the first section with a name: nothing when the file cannot be
/// parsed, then nothing when there is no such section, then nothing when its contents cannot be
/// read.
pub uninterp spec fn elf_section(tmk: Seq<u8>, name: Seq<char>) -> Option<
    Option<(u64, Option<Seq<u8>>)>,
>;

/// The address and the contents of each loadable segment, in file order: nothing when the file
/// cannot be parsed; the contents are missing where they cannot be read.
pub uninterp spec fn elf_segments(tmk: Seq<u8>) -> Option<Seq<(u64, Option<Seq<u8>>)>>;

/// `dynamic_relocations` of the `object` crate on a 64-bit ELF file that is parsed through its
/// `ReadCache`: for each relocation the address that it applies to and its addend, in the order in
/// which the file lists them.
#[verifier::external_body]
fn read_relocations(tmk: &[u8]) -> (r: Result<Option<Vec<(u64, i64)>>, object::read::Error>)
    ensures
        match r {
            Ok(Some(v)) => elf_dynamic_relocations(tmk@) == Some(Some(v@)),
            Ok(None) => elf_dynamic_relocations(tmk@) == Some(None::<Seq<(u64, i64)>>),
            Err(_) => elf_dynamic_relocations(tmk@) is None,
        },
{
    let cache = ReadCache::new(Cursor::new(tmk));
    let file: ElfFile64<'_, Endianness, _> = ElfFile64::parse(&cache)?;
    let found = file.dynamic_relocations();
    Ok(found.map(|all| all.map(|(a, r)| (a, r.addend())).collect()))
}

/// `section_by_name` of the `object` crate on a 64-bit ELF file that is parsed through its
/// `ReadCache`, with the address and the data of the section that it finds.
#[verifier::external_body]
fn read_section(tmk: &[u8], name: &str) -> (r: Result<
    Option<(u64, Result<Vec<u8>, object::read::Error>)>,
    object::read::Error,
>)
    ensures
        match r {
            Ok(Some((address, Ok(data)))) => elf_section(tmk@, name@) == Some(
                Some((address, Some(data@))),
            ),
            Ok(Some((address, Err(_)))) => elf_section(tmk@, name@) == Some(
                Some((address, None::<Seq<u8>>)),
            ),
            Ok(None) => elf_section(tmk@, name@) == Some(None::<(u64, Option<Seq<u8>>)>),
            Err(_) => elf_section(tmk@, name@) is None,
        },
{
    let cache = ReadCache::new(Cursor::new(tmk));
    let file: ElfFile64<'_, Endianness, _> = ElfFile64::parse(&cache)?;
    let found = file.section_by_name(name);
    Ok(found.map(|s| (s.address(), s.data().map(|d| d.to_vec()))))
}

/// `segments` of the `object` crate on a 64-bit ELF file that is parsed through its `ReadCache`,
/// each with its address and its data.
#[verifier::external_body]
fn read_segments(tmk: &[u8]) -> (r: Result<Vec<Segment>, object::read::Error>)
    ensures
        match r {
            Ok(v) => elf_segments(tmk@) == Some(segment_views(v@)),
            Err(_) => elf_segments(tmk@) is None,
        },
{
    let cache = ReadCache::new(Cursor::new(tmk));
    let file: ElfFile64<'_, Endianness, _> = ElfFile64::parse(&cache)?;
    let convert = |data: &[u8]| data.to_vec();
    let found = file.segments();
    Ok(found.map(|s| Segment { address: s.address(), data: s.data().map(convert) }).collect())
}

/// A test of an image.
#[derive(Debug)]
pub struct TestInfo {
    /// The name that the test is selected by.
    pub name: String,
    /// The position of the test's descriptor, by which the image is told to run it.
    pub index: u64,
}

/// The section that holds the test descriptors.
pub struct Section {
    /// Where the section is linked to.
    pub address: u64,
    /// Its bytes.
    pub data: Vec<u8>,
}

/// A loadable part of an image.
pub struct Segment {
    /// Where the segment is linked to.
    pub address: u64,
    /// Its bytes in the file, unless the file does not hold them.
    pub data: Result<Vec<u8>, object::read::Error>,
}

/// How the fields of a test descriptor that matter here lie in its bytes.
#[derive(Clone, Copy, Debug)]
pub struct DescriptorLayout {
    /// The size of a descriptor.
    pub size: usize,
    /// The offset of the 64-bit address of the name.
    pub name: usize,
    /// The offset of the 64-bit length of the name.
    pub name_len: usize,
    /// The byte order of both, that of the host.
    pub order: ByteOrder,
}

/// Why the tests of an image cannot be listed.
#[derive(Clone, Copy, Debug, PartialEq, Eq, Structural)]
pub enum EnumerateErrorKind {
    /// The file is not an ELF file that can be parsed.
    Parse,
    /// The file offers no dynamic relocations.
    NoRelocations,
    /// The file has no section of test descriptors.
    NoSection,
    /// The section of test descriptors cannot be read.
    SectionData,
    /// The section does not hold a whole number of descriptors.
    Descriptors,
    /// A descriptor lies beyond the end of the address space.
    AddressOverflow,
    /// No segment holds a test's name.
    NameNotFound,
    /// A segment cannot be read in search of a test's name.
    SegmentData,
    /// A test's name is not UTF-8.
    NameEncoding,
}

/// Why the tests of an image cannot be listed, with the ELF reader's own error where it has one.
#[derive(Debug)]
pub struct EnumerateError {
    /// What failed.
    pub kind: EnumerateErrorKind,
    /// The error of the ELF reader that this one comes from.
    pub source: Option<object::read::Error>,
}

impl EnumerateError {
    /// The error of the ELF reader is kept exactly where the ELF reader has failed.
    pub open spec fn keeps_source(self) -> bool {
        self.source is Some <==> (self.kind is Parse || self.kind is SectionData
            || self.kind is SegmentData)
    }
}

/// A segment that could not be read leaves its own error, that of the first such segment.
pub open spec fn from_segments(e: EnumerateError, segments: Seq<Segment>) -> bool {
    e.kind is SegmentData ==> exists|i: int|
        {
            &&& 0 <= i < segments.len()
            &&& (#[trigger] segments[i]).data matches Err(source)
            &&& e.source == Some(source)
            &&& forall|j: int| 0 <= j < i ==> (#[trigger] segments[j]).data is Ok
        }
}

/// A segment of an image file that could not be read leaves its own error, that of the first such
/// segment that the ELF reader finds.
pub open spec fn from_file(e: EnumerateError, tmk: Seq<u8>) -> bool {
    e.kind is SegmentData ==> exists|s: Seq<Segment>|
        elf_segments(tmk) == Some(#[trigger] segment_views(s)) && from_segments(e, s)
}

impl EnumerateErrorKind {
    /// What the error adds to the message of its source; a section that cannot be read is
    /// reported by the source alone.
    pub open spec fn text(self) -> Option<Seq<char>> {
        match self {
            EnumerateErrorKind::Parse => Some("failed to parse TMK"@),
            EnumerateErrorKind::NoRelocations => Some("failed to find dynamic relocations"@),
            EnumerateErrorKind::NoSection => Some("failed to find tmk_tests section"@),
            EnumerateErrorKind::SectionData => None,
            EnumerateErrorKind::Descriptors => Some("failed to parse tmk_tests section"@),
            EnumerateErrorKind::AddressOverflow => Some("test descriptor address overflowed"@),
            EnumerateErrorKind::NameNotFound => Some("failed to find name for test"@),
            EnumerateErrorKind::SegmentData => Some("failed to parse tmk"@),
            EnumerateErrorKind::NameEncoding => Some("failed to parse test name"@),
        }
    }

    /// Returns what the error adds to the message of its source.
    pub fn message(self) -> (s: Option<&'static str>)
        ensures
            match s {
                Some(t) => self.text() == Some(t@),
                None => self.text() is None,
            },
    {
        match self {
            EnumerateErrorKind::Parse => Some("failed to parse TMK"),
            EnumerateErrorKind::NoRelocations => Some("failed to find dynamic relocations"),
            EnumerateErrorKind::NoSection => Some("failed to find tmk_tests section"),
            EnumerateErrorKind::SectionData => None,
            EnumerateErrorKind::Descriptors => Some("failed to parse tmk_tests section"),
            EnumerateErrorKind::AddressOverflow => Some("test descriptor address overflowed"),
            EnumerateErrorKind::NameNotFound => Some("failed to find name for test"),
            EnumerateErrorKind::SegmentData => Some("failed to parse tmk"),
            EnumerateErrorKind::NameEncoding => Some("failed to parse test name"),
        }
    }
}

impl DescriptorLayout {
    /// Both fields lie inside the descriptor.
    pub open spec fn wf(self) -> bool {
        &&& self.name + 8 <= self.size
        &&& self.name_len + 8 <= self.size
    }
}

impl Keyed for (u64, i64) {
    open spec fn key(&self) -> u64 {
        self.0
    }

    fn sort_key(&self) -> (k: u64) {
        self.0
    }
}

/// A test as a name and an index.
pub type TestView = (Seq<char>, u64);

impl View for TestInfo {
    type V = TestView;

    open spec fn view(&self) -> TestView {
        (self.name@, self.index)
    }
}

impl Clone for TestInfo {
    fn clone(&self) -> (r: Self)
        ensures
            r@ == self@,
    {
        TestInfo { name: self.name.clone(), index: self.index }
    }
}

/// The tests as names and indices.
pub open spec fn test_views(tests: Seq<TestInfo>) -> Seq<TestView> {
    tests.map_values(|t: TestInfo| t@)
}

/// A segment as an address and the bytes that could be read.
pub open spec fn segment_view(s: Segment) -> (u64, Option<Seq<u8>>) {
    (
        s.address,
        match s.data {
            Ok(d) => Some(d@),
            Err(_) => None,
        },
    )
}

/// The segments as addresses and bytes.
pub open spec fn segment_views(s: Seq<Segment>) -> Seq<(u64, Option<Seq<u8>>)> {
    s.map_values(|x: Segment| segment_view(x))
}

/// The value `v` loaded from `address`, after relocation: a relocation of that address adds its
/// addend, and where there are several the last one listed counts.
pub open spec fn relocated(relocations: Seq<(u64, i64)>, address: u64, v: u64) -> u64 {
    let here = with_key(relocations, address);
    if here.len() == 0 {
        v
    } else {
        ((v + here.last().1) % 0x1_0000_0000_0000_0000) as u64
    }
}

/// The part of a segment at `address` that is `len` bytes long, where the segment holds it all.
pub open spec fn data_range(segment: (u64, Seq<u8>), address: u64, len: u64) -> Option<Seq<u8>> {
    let offset = address - segment.0;
    if 0 <= offset && offset + len <= segment.1.len() {
        Some(segment.1.subrange(offset, offset + len))
    } else {
        None
    }
}

/// The bytes at `address`: those of the first segment that holds them, unless a segment before
/// that one cannot be read.
pub open spec fn bytes_at(
    segments: Seq<(u64, Option<Seq<u8>>)>,
    address: u64,
    len: u64,
) -> Result<Seq<u8>, EnumerateErrorKind>
    decreases segments.len(),
{
    if segments.len() == 0 {
        Err(EnumerateErrorKind::NameNotFound)
    } else {
        match segments[0].1 {
            None => Err(EnumerateErrorKind::SegmentData),
            Some(data) => match data_range((segments[0].0, data), address, len) {
                Some(bytes) => Ok(bytes),
                None => bytes_at(segments.drop_first(), address, len),
            },
        }
    }
}

/// The 64-bit field at `offset` of descriptor `i`.
pub open spec fn descriptor_field(
    data: Seq<u8>,
    layout: DescriptorLayout,
    i: int,
    offset: int,
) -> u64 {
    let at = i * layout.size + offset;
    widened(data.subrange(at, at + 8), layout.order) as u64
}

/// The name of test `i`.
pub open spec fn test_name(
    relocations: Seq<(u64, i64)>,
    section: (u64, Seq<u8>),
    segments: Seq<(u64, Option<Seq<u8>>)>,
    layout: DescriptorLayout,
    i: int,
) -> Result<Seq<char>, EnumerateErrorKind> {
    let address = section.0 + i * layout.size;
    let name = descriptor_field(section.1, layout, i, layout.name as int);
    let name_len = descriptor_field(section.1, layout, i, layout.name_len as int);
    if address > u64::MAX {
        Err(EnumerateErrorKind::AddressOverflow)
    } else {
        match bytes_at(segments, relocated(relocations, address as u64, name), name_len) {
            Err(e) => Err(e),
            Ok(bytes) => if valid_utf8(bytes) {
                Ok(decode_utf8(bytes))
            } else {
                Err(EnumerateErrorKind::NameEncoding)
            },
        }
    }
}

/// The first `n` tests, in descriptor order; the first of them that has no name fails the list.
pub open spec fn first_tests(
    relocations: Seq<(u64, i64)>,
    section: (u64, Seq<u8>),
    segments: Seq<(u64, Option<Seq<u8>>)>,
    layout: DescriptorLayout,
    n: nat,
) -> Result<Seq<TestView>, EnumerateErrorKind>
    decreases n,
{
    if n == 0 {
        Ok(Seq::empty())
    } else {
        let i = (n - 1) as nat;
        match first_tests(relocations, section, segments, layout, i) {
            Err(e) => Err(e),
            Ok(tests) => match test_name(relocations, section, segments, layout, i as int) {
                Err(e) => Err(e),
                Ok(name) => Ok(tests.push((name, i as u64))),
            },
        }
    }
}

/// The tests of an image, from its relocations, its descriptor section and its segments.
pub open spec fn image_tests(
    relocations: Seq<(u64, i64)>,
    section: (u64, Seq<u8>),
    segments: Seq<(u64, Option<Seq<u8>>)>,
    layout: DescriptorLayout,
) -> Result<Seq<TestView>, EnumerateErrorKind> {
    if section.1.len() % layout.size as nat != 0 {
        Err(EnumerateErrorKind::Descriptors)
    } else {
        first_tests(
            relocations,
            section,
            segments,
            layout,
            section.1.len() / layout.size as nat,
        )
    }
}

/// The tests of an image file, from what the ELF reader finds in it.
pub open spec fn file_tests(
    relocations: Option<Option<Seq<(u64, i64)>>>,
    section: Option<Option<(u64, Option<Seq<u8>>)>>,
    segments: Option<Seq<(u64, Option<Seq<u8>>)>>,
    layout: DescriptorLayout,
) -> Result<Seq<TestView>, EnumerateErrorKind> {
    match relocations {
        None => Err(EnumerateErrorKind::Parse),
        Some(None) => Err(EnumerateErrorKind::NoRelocations),
        Some(Some(relocations)) => match section {
            None => Err(EnumerateErrorKind::Parse),
            Some(None) => Err(EnumerateErrorKind::NoSection),
            Some(Some((_, None))) => Err(EnumerateErrorKind::SectionData),
            Some(Some((address, Some(data)))) => match segments {
                None => Err(EnumerateErrorKind::Parse),
                Some(segments) => image_tests(relocations, (address, data), segments, layout),
            },
        },
    }
}

/// A list of tests, or the kind of the error that stands in its place, is the expected one.
pub open spec fn listed(
    r: Result<Vec<TestInfo>, EnumerateError>,
    expected: Result<Seq<TestView>, EnumerateErrorKind>,
) -> bool {
    match r {
        Ok(tests) => expected == Ok::<Seq<TestView>, EnumerateErrorKind>(test_views(tests@)),
        Err(e) => {
            &&& expected == Err::<Seq<TestView>, EnumerateErrorKind>(e.kind)
            &&& e.keeps_source()
        },
    }
}

/// The relocations of an image, ordered by the address that they apply to.
pub struct RelocationTable {
    entries: Vec<(u64, i64)>,
}

impl View for RelocationTable {
    type V = Seq<(u64, i64)>;

    closed spec fn view(&self) -> Seq<(u64, i64)> {
        self.entries@
    }
}

impl RelocationTable {
    /// The entries are in order.
    pub open spec fn wf(&self) -> bool {
        sorted_by_key(self@)
    }

    /// Orders relocations; those of one address stay in the order of the file.
    pub fn new(relocations: &[(u64, i64)]) -> (table: Self)
        ensures
            table.wf(),
            stable_rearrangement(relocations@, table@),
    {
        RelocationTable { entries: merge_sort(relocations) }
    }

    /// Relocates a value that was loaded from `address`.
    pub fn relocate(&self, address: u64, v: u64) -> (r: u64)
        requires
            self.wf(),
        ensures
            r == relocated(self@, address, v),
    {
        let mut lo: usize = 0;
        let mut hi: usize = self.entries.len();
        while lo < hi
            invariant
                lo <= hi <= self.entries@.len(),
                sorted_by_key(self.entries@),
                forall|i: int| 0 <= i < lo ==> self.entries@[i].key() <= address,
                forall|i: int| hi <= i < self.entries@.len() ==> self.entries@[i].key() > address,
            decreases hi - lo,
        {
            let mid: usize = lo + (hi - lo) / 2;
            if self.entries[mid].0 <= address {
                proof {
                    assert(self.entries@[mid as int].key() <= address);
                }
                lo = mid + 1;
            } else {
                proof {
                    assert(self.entries@[mid as int].key() > address);
                }
                hi = mid;
            }
        }
        if lo > 0 && self.entries[lo - 1].0 == address {
            proof {
                assert(self.entries@[lo - 1].key() == address);
                lemma_with_key_last(self.entries@, lo - 1, address);
            }
            v.wrapping_add_signed(self.entries[lo - 1].1)
        } else {
            proof {
                assert forall|i: int| 0 <= i < self.entries@.len() implies self.entries@[i].key()
                    != address by {
                    if i < lo {
                        assert(self.entries@[i].key() <= self.entries@[lo - 1].key());
                        assert(self.entries@[lo - 1].key() <= address);
                        assert(self.entries@[lo - 1].key() == self.entries@[lo - 1].0);
                    }
                }
                lemma_with_key_empty(self.entries@, address);
            }
            v
        }
    }
}

/// Finds the bytes at `address`.
pub fn find_bytes(segments: &[Segment], address: u64, len: u64) -> (r: Result<
    Vec<u8>,
    EnumerateError,
>)
    ensures
        match r {
            Ok(bytes) => bytes_at(segment_views(segments@), address, len) == Ok::<
                Seq<u8>,
                EnumerateErrorKind,
            >(bytes@),
            Err(e) => {
                &&& bytes_at(segment_views(segments@), address, len) == Err::<
                    Seq<u8>,
                    EnumerateErrorKind,
                >(e.kind)
                &&& e.keeps_source()
                &&& from_segments(e, segments@)
            },
        },
{
    let ghost views = segment_views(segments@);
    let mut i: usize = 0;
    assert(views.skip(0) =~= views);
    while i < segments.len()
        invariant
            i <= segments@.len(),
            views == segment_views(segments@),
            forall|j: int| 0 <= j < i ==> (#[trigger] segments@[j]).data is Ok,
            bytes_at(views, address, len) == bytes_at(views.skip(i as int), address, len),
        decreases segments.len() - i,
    {
        proof {
            assert(views.skip(i as int)[0] == segment_view(segments@[i as int]));
            assert(views.skip(i as int).drop_first() =~= views.skip(i + 1));
        }
        let segment = &segments[i];
        match &segment.data {
            Err(e) => {
                return Err(
                    EnumerateError { kind: EnumerateErrorKind::SegmentData, source: Some(*e) },
                );
            },
            Ok(data) => {
                if address >= segment.address {
                    let offset: u64 = address - segment.address;
                    let size: u64 = data.len() as u64;
                    if offset <= size && len <= size - offset {
                        let start: usize = offset as usize;
                        let end: usize = start + len as usize;
                        let bytes = slice_subrange(data.as_slice(), start, end);
                        return Ok(vstd::slice::slice_to_vec(bytes));
                    }
                }
            },
        }
        i = i + 1;
    }
    Err(EnumerateError { kind: EnumerateErrorKind::NameNotFound, source: None })
}

/// Finds the name of test `i`.
fn find_name(
    table: &RelocationTable,
    section: &Section,
    segments: &[Segment],
    layout: &DescriptorLayout,
    i: usize,
) -> (r: Result<String, EnumerateError>)
    requires
        layout.wf(),
        table.wf(),
        i * layout.size + layout.size <= section.data@.len(),
    ensures
        ({
            let expected = test_name(
                table@,
                (section.address, section.data@),
                segment_views(segments@),
                *layout,
                i as int,
            );
            match r {
                Ok(name) => expected == Ok::<Seq<char>, EnumerateErrorKind>(name@),
                Err(e) => {
                    &&& expected == Err::<Seq<char>, EnumerateErrorKind>(e.kind)
                    &&& e.keeps_source()
                    &&& from_segments(e, segments@)
                },
            }
        }),
{
    assert(section.data@.len() == section.data.len());
    let at: usize = i * layout.size;
    let address: u64 = match section.address.checked_add(at as u64) {
        Some(a) => a,
        None => {
            return Err(EnumerateError { kind: EnumerateErrorKind::AddressOverflow, source: None });
        },
    };
    let name: u64 = read_u64(section.data.as_slice(), at + layout.name, layout.order);
    let name_len: u64 = read_u64(section.data.as_slice(), at + layout.name_len, layout.order);
    let bytes = match find_bytes(segments, table.relocate(address, name), name_len) {
        Ok(bytes) => bytes,
        Err(e) => {
            return Err(e);
        },
    };
    match string_from_utf8(bytes) {
        Some(name) => Ok(name),
        None => Err(EnumerateError { kind: EnumerateErrorKind::NameEncoding, source: None }),
    }
}

/// Lists the tests of an image.
pub fn enumerate_image(
    relocations: &[(u64, i64)],
    section: &Section,
    segments: &[Segment],
    layout: &DescriptorLayout,
) -> (r: Result<Vec<TestInfo>, EnumerateError>)
    requires
        layout.wf(),
    ensures
        listed(
            r,
            image_tests(
                relocations@,
                (section.address, section.data@),
                segment_views(segments@),
                *layout,
            ),
        ),
        r matches Err(e) ==> from_segments(e, segments@),
{
    let table = RelocationTable::new(relocations);
    if section.data.len() % layout.size != 0 {
        return Err(EnumerateError { kind: EnumerateErrorKind::Descriptors, source: None });
    }
    let count: usize = section.data.len() / layout.size;
    let mut tests: Vec<TestInfo> = Vec::new();
    let mut i: usize = 0;
    let ghost views = segment_views(segments@);
    let ghost sec = (section.address, section.data@);
    assert(test_views(tests@) =~= Seq::empty());
    while i < count
        invariant
            i <= count,
            layout.wf(),
            section.data@.len() % layout.size as nat == 0,
            count == section.data@.len() / layout.size as nat,
            table.wf(),
            stable_rearrangement(relocations@, table@),
            views == segment_views(segments@),
            sec == (section.address, section.data@),
            first_tests(relocations@, sec, views, *layout, i as nat) == Ok::<
                Seq<TestView>,
                EnumerateErrorKind,
            >(test_views(tests@)),
        decreases count - i,
    {
        proof {
            lemma_descriptor_inside(section.data@.len(), layout.size as nat, i as nat);
            lemma_table_names_alike(relocations@, table@, sec, views, *layout, i as int);
        }
        match find_name(&table, section, segments, layout, i) {
            Err(e) => {
                proof {
                    lemma_error_stays(
                        relocations@,
                        sec,
                        views,
                        *layout,
                        (i + 1) as nat,
                        count as nat,
                    );
                }
                return Err(e);
            },
            Ok(name) => {
                let ghost before = tests@;
                tests.push(TestInfo { name, index: i as u64 });
                assert(test_views(tests@) =~= test_views(before).push((name@, i as u64)));
            },
        }
        i = i + 1;
    }
    Ok(tests)
}

proof fn lemma_table_names_alike(
    relocations: Seq<(u64, i64)>,
    table: Seq<(u64, i64)>,
    section: (u64, Seq<u8>),
    segments: Seq<(u64, Option<Seq<u8>>)>,
    layout: DescriptorLayout,
    i: int,
)
    requires
        stable_rearrangement(relocations, table),
    ensures
        test_name(table, section, segments, layout, i) == test_name(
            relocations,
            section,
            segments,
            layout,
            i,
        ),
{
    let address = (section.0 + i * layout.size) as u64;
    let name = descriptor_field(section.1, layout, i, layout.name as int);
    lemma_table_relocates_alike(relocations, table, address, name);
}

proof fn lemma_descriptor_inside(total: nat, size: nat, i: nat)
    requires
        size > 0,
        total % size == 0,
        i < total / size,
    ensures
        i * size + size <= total,
{
    vstd::arithmetic::div_mod::lemma_fundamental_div_mod(total as int, size as int);
    assert((i + 1) * size <= (total / size) * size) by (nonlinear_arith)
        requires
            i + 1 <= total / size,
    ;
    assert((total / size) * size == size * (total / size)) by (nonlinear_arith);
    assert((i + 1) * size == i * size + size) by (nonlinear_arith);
}

/// A test without a name fails every longer list too.
proof fn lemma_error_stays(
    relocations: Seq<(u64, i64)>,
    section: (u64, Seq<u8>),
    segments: Seq<(u64, Option<Seq<u8>>)>,
    layout: DescriptorLayout,
    m: nat,
    n: nat,
)
    requires
        m <= n,
        first_tests(relocations, section, segments, layout, m) is Err,
    ensures
        first_tests(relocations, section, segments, layout, n) == first_tests(
            relocations,
            section,
            segments,
            layout,
            m,
        ),
    decreases n,
{
    if m < n {
        lemma_error_stays(relocations, section, segments, layout, m, (n - 1) as nat);
    }
}

/// Lists the tests of an image file, whose descriptors lie in the section `tmk_tests`.
pub fn enumerate_tests(tmk: &[u8], layout: &DescriptorLayout) -> (r: Result<
    Vec<TestInfo>,
    EnumerateError,
>)
    requires
        layout.wf(),
    ensures
        listed(
            r,
            file_tests(
                elf_dynamic_relocations(tmk@),
                elf_section(tmk@, "tmk_tests"@),
                elf_segments(tmk@),
                *layout,
            ),
        ),
        r matches Err(e) ==> from_file(e, tmk@),
{
    let relocations = match read_relocations(tmk) {
        Err(e) => {
            return Err(EnumerateError { kind: EnumerateErrorKind::Parse, source: Some(e) });
        },
        Ok(None) => {
            return Err(EnumerateError { kind: EnumerateErrorKind::NoRelocations, source: None });
        },
        Ok(Some(relocations)) => relocations,
    };
    let section = match read_section(tmk, "tmk_tests") {
        Err(e) => {
            return Err(EnumerateError { kind: EnumerateErrorKind::Parse, source: Some(e) });
        },
        Ok(None) => {
            return Err(EnumerateError { kind: EnumerateErrorKind::NoSection, source: None });
        },
        Ok(Some((_, Err(e)))) => {
            return Err(EnumerateError { kind: EnumerateErrorKind::SectionData, source: Some(e) });
        },
        Ok(Some((address, Ok(data)))) => Section { address, data },
    };
    let segments = match read_segments(tmk) {
        Err(e) => {
            return Err(EnumerateError { kind: EnumerateErrorKind::Parse, source: Some(e) });
        },
        Ok(segments) => segments,
    };
    enumerate_image(relocations.as_slice(), &section, segments.as_slice(), layout)
}

/// A list is complete and in order: an image lists one test per descriptor, the test at position
/// `i` has the index `i` and the name of descriptor `i`; and it lists its tests exactly when every
/// descriptor has a name.
pub proof fn lemma_list_is_complete(
    relocations: Seq<(u64, i64)>,
    section: (u64, Seq<u8>),
    segments: Seq<(u64, Option<Seq<u8>>)>,
    layout: DescriptorLayout,
)
    requires
        layout.wf(),
        section.1.len() % layout.size as nat == 0,
    ensures
        image_tests(relocations, section, segments, layout) is Ok <==> forall|i: int|
            0 <= i < section.1.len() / layout.size as nat ==> (#[trigger] test_name(
                relocations,
                section,
                segments,
                layout,
                i,
            )) is Ok,
        image_tests(relocations, section, segments, layout) matches Ok(tests) ==> {
            &&& tests.len() == section.1.len() / layout.size as nat
            &&& forall|i: int|
                0 <= i < tests.len() ==> (#[trigger] tests[i]).1 == i as u64 && test_name(
                    relocations,
                    section,
                    segments,
                    layout,
                    i,
                ) == Ok::<Seq<char>, EnumerateErrorKind>(tests[i].0)
        },
{
    let n = section.1.len() / layout.size as nat;
    lemma_first_tests(relocations, section, segments, layout, n);
}

proof fn lemma_first_tests(
    relocations: Seq<(u64, i64)>,
    section: (u64, Seq<u8>),
    segments: Seq<(u64, Option<Seq<u8>>)>,
    layout: DescriptorLayout,
    n: nat,
)
    ensures
        first_tests(relocations, section, segments, layout, n) is Ok <==> forall|i: int|
            0 <= i < n ==> (#[trigger] test_name(relocations, section, segments, layout, i)) is Ok,
        first_tests(relocations, section, segments, layout, n) matches Ok(tests) ==> {
            &&& tests.len() == n
            &&& forall|i: int|
                0 <= i < n ==> (#[trigger] tests[i]).1 == i as u64 && test_name(
                    relocations,
                    section,
                    segments,
                    layout,
                    i,
                ) == Ok::<Seq<char>, EnumerateErrorKind>(tests[i].0)
        },
    decreases n,
{
    if n > 0 {
        let m = (n - 1) as nat;
        lemma_first_tests(relocations, section, segments, layout, m);
        if first_tests(relocations, section, segments, layout, n) is Ok {
            assert(test_name(relocations, section, segments, layout, m as int) is Ok);
        } else if first_tests(relocations, section, segments, layout, m) is Ok {
            assert(test_name(relocations, section, segments, layout, m as int) is Err);
        }
    }
}

/// Ordering the relocations changes no relocated value.
pub proof fn lemma_table_relocates_alike(
    relocations: Seq<(u64, i64)>,
    table: Seq<(u64, i64)>,
    address: u64,
    v: u64,
)
    requires
        stable_rearrangement(relocations, table),
    ensures
        relocated(table, address, v) == relocated(relocations, address, v),
{
    assert(with_key(relocations, address) == with_key(table, address));
}

/// A segment that can be read holds some bytes at an address.
pub open spec fn holds_at(segment: (u64, Option<Seq<u8>>), address: u64, bytes: Seq<u8>) -> bool {
    segment.1 matches Some(data) && {
        let offset = address - segment.0;
        &&& 0 <= offset
        &&& offset + bytes.len() <= data.len()
        &&& forall|m: int| 0 <= m < bytes.len() ==> #[trigger] bytes[m] == data[offset + m]
    }
}

/// A segment that can be read reaches over `len` bytes from an address on.
pub open spec fn reaches_over(segment: (u64, Option<Seq<u8>>), address: u64, len: u64) -> bool {
    segment.1 matches Some(data) && segment.0 <= address && address + len <= segment.0 + data.len()
}

/// The bytes at an address are as many as asked for, and are what the first segment that reaches
/// over all of them holds there; they are not found exactly if every segment can be read and none
/// reaches over them, and cannot be read exactly if a segment that cannot be read comes before any
/// that does.
pub proof fn lemma_bytes_are_those_of_a_segment(
    segments: Seq<(u64, Option<Seq<u8>>)>,
    address: u64,
    len: u64,
)
    ensures
        match bytes_at(segments, address, len) {
            Ok(bytes) => bytes.len() == len && exists|k: int|
                {
                    &&& 0 <= k < segments.len()
                    &&& holds_at(#[trigger] segments[k], address, bytes)
                    &&& forall|j: int|
                        0 <= j < k ==> (#[trigger] segments[j]).1 is Some && !reaches_over(
                            segments[j],
                            address,
                            len,
                        )
                },
            Err(EnumerateErrorKind::NameNotFound) => forall|j: int|
                0 <= j < segments.len() ==> (#[trigger] segments[j]).1 is Some && !reaches_over(
                    segments[j],
                    address,
                    len,
                ),
            Err(EnumerateErrorKind::SegmentData) => exists|k: int|
                {
                    &&& 0 <= k < segments.len()
                    &&& (#[trigger] segments[k]).1 is None
                    &&& forall|j: int|
                        0 <= j < k ==> (#[trigger] segments[j]).1 is Some && !reaches_over(
                            segments[j],
                            address,
                            len,
                        )
                },
            Err(_) => false,
        },
    decreases segments.len(),
{
    if segments.len() > 0 {
        let rest = segments.drop_first();
        lemma_bytes_are_those_of_a_segment(rest, address, len);
        assert forall|j: int| 0 <= j < rest.len() implies rest[j] == segments[j + 1] by {}
        if segments[0].1 is None {
            assert(segments[0].1 is None);
        } else if reaches_over(segments[0], address, len) {
            assert(holds_at(segments[0], address, bytes_at(segments, address, len)->Ok_0));
        } else {
            assert(bytes_at(segments, address, len) == bytes_at(rest, address, len));
            match bytes_at(rest, address, len) {
                Ok(bytes) => {
                    let k = choose|k: int|
                        {
                            &&& 0 <= k < rest.len()
                            &&& holds_at(#[trigger] rest[k], address, bytes)
                            &&& forall|j: int|
                                0 <= j < k ==> (#[trigger] rest[j]).1 is Some && !reaches_over(
                                    rest[j],
                                    address,
                                    len,
                                )
                        };
                    assert(holds_at(segments[k + 1], address, bytes));
                    assert forall|j: int| 0 <= j < k + 1 implies (#[trigger] segments[j]).1 is Some
                        && !reaches_over(segments[j], address, len) by {
                        if j > 0 {
                            assert(rest[j - 1] == segments[j]);
                        }
                    }
                },
                Err(EnumerateErrorKind::NameNotFound) => {
                    assert forall|j: int| 0 <= j < segments.len() implies (
                    #[trigger] segments[j]).1 is Some && !reaches_over(
                        segments[j],
                        address,
                        len,
                    ) by {
                        if j > 0 {
                            assert(rest[j - 1] == segments[j]);
                        }
                    }
                },
                Err(EnumerateErrorKind::SegmentData) => {
                    let k = choose|k: int|
                        {
                            &&& 0 <= k < rest.len()
                            &&& (#[trigger] rest[k]).1 is None
                            &&& forall|j: int|
                                0 <= j < k ==> (#[trigger] rest[j]).1 is Some && !reaches_over(
                                    rest[j],
                                    address,
                                    len,
                                )
                        };
                    assert(segments[k + 1].1 is None);
                    assert forall|j: int| 0 <= j < k + 1 implies (#[trigger] segments[j]).1 is Some
                        && !reaches_over(segments[j], address, len) by {
                        if j > 0 {
                            assert(rest[j - 1] == segments[j]);
                        }
                    }
                },
                Err(_) => {},
            }
        }
    }
}

/// A value that no relocation applies to stays as it is; one that a relocation applies to is moved
/// by its addend, modulo 2 to the 64, where no relocation of the same address follows it.
pub proof fn lemma_value_is_moved_by_the_addend(
    relocations: Seq<(u64, i64)>,
    i: int,
    address: u64,
    v: u64,
)
    ensures
        (forall|j: int| 0 <= j < relocations.len() ==> (#[trigger] relocations[j]).0 != address)
            ==> relocated(relocations, address, v) == v,
        0 <= i < relocations.len() && relocations[i].0 == address && (forall|j: int|
            i < j < relocations.len() ==> (#[trigger] relocations[j]).0 != address) ==> {
            let moved = relocated(relocations, address, v) as int;
            let sum = v + relocations[i].1;
            ||| moved == sum
            ||| moved == sum + 0x1_0000_0000_0000_0000
            ||| moved == sum - 0x1_0000_0000_0000_0000
        },
    decreases relocations.len(),
{
    if relocations.len() > 0 {
        let front = relocations.drop_last();
        lemma_value_is_moved_by_the_addend(front, i, address, v);
        assert forall|j: int| 0 <= j < front.len() implies front[j] == relocations[j] by {}
        let last = relocations[relocations.len() - 1];
        assert(relocations.last() == last);
        if last.0 == address {
            assert(with_key(relocations, address).last() == last);
        } else {
            assert(with_key(relocations, address) == with_key(front, address));
            assert(relocated(relocations, address, v) == relocated(front, address, v));
        }
    }
}

/// The address at which descriptor `i` has the name of its test.
pub open spec fn name_address(
    relocations: Seq<(u64, i64)>,
    section: (u64, Seq<u8>),
    layout: DescriptorLayout,
    i: int,
) -> u64 {
    let at = i * layout.size + layout.name;
    relocated(
        relocations,
        (section.0 + i * layout.size) as u64,
        widened(section.1.subrange(at, at + 8), layout.order) as u64,
    )
}

/// Every listed test has the whole name that its descriptor gives: the name in UTF-8 is exactly as
/// long as the length in the descriptor says, and is what a segment that can be read holds at the
/// relocated address in the descriptor. There is one test for each descriptor, and its index is the
/// place of the descriptor.
pub proof fn lemma_listed_names_are_whole(
    relocations: Seq<(u64, i64)>,
    section: (u64, Seq<u8>),
    segments: Seq<(u64, Option<Seq<u8>>)>,
    layout: DescriptorLayout,
    tests: Seq<TestView>,
    i: int,
)
    requires
        layout.wf(),
        image_tests(relocations, section, segments, layout) == Ok::<
            Seq<TestView>,
            EnumerateErrorKind,
        >(tests),
        0 <= i < tests.len(),
    ensures
        tests.len() * layout.size == section.1.len(),
        tests[i].1 == i,
        section.0 + i * layout.size <= u64::MAX,
        ({
            let at = i * layout.size + layout.name_len;
            encode_utf8(tests[i].0).len() == widened(
                section.1.subrange(at, at + 8),
                layout.order,
            )
        }),
        exists|k: int|
            0 <= k < segments.len() && holds_at(
                #[trigger] segments[k],
                name_address(relocations, section, layout, i),
                encode_utf8(tests[i].0),
            ),
{
    lemma_list_is_complete(relocations, section, segments, layout);
    let size = layout.size as nat;
    let n = section.1.len() / size;
    vstd::arithmetic::div_mod::lemma_fundamental_div_mod(section.1.len() as int, size as int);
    assert(n * size == size * n) by (nonlinear_arith);
    lemma_descriptor_inside(section.1.len(), size, i as nat);
    assert(test_name(relocations, section, segments, layout, i) == Ok::<
        Seq<char>,
        EnumerateErrorKind,
    >(tests[i].0));
    let at = i * layout.size + layout.name_len;
    let length = section.1.subrange(at, at + 8);
    let name = i * layout.size + layout.name;
    lemma_widened_fits(length, layout.order);
    lemma_widened_fits(section.1.subrange(name, name + 8), layout.order);
    let address = name_address(relocations, section, layout, i);
    let len = widened(length, layout.order) as u64;
    lemma_bytes_are_those_of_a_segment(segments, address, len);
    let bytes = bytes_at(segments, address, len)->Ok_0;
    decode_utf8_encode_utf8(bytes);
    assert(i <= n);
    lemma_index_fits(section, layout, i, n);
}

proof fn lemma_index_fits(section: (u64, Seq<u8>), layout: DescriptorLayout, i: int, n: nat)
    requires
        layout.wf(),
        0 <= i < n,
        section.0 + i * layout.size <= u64::MAX,
    ensures
        i <= u64::MAX,
{
    assert(i <= i * layout.size) by (nonlinear_arith)
        requires
            i >= 0,
            layout.size >= 1,
    ;
}

/// A section that is not made of whole descriptors is refused, and no other.
pub proof fn lemma_only_whole_descriptors_are_listed(
    relocations: Seq<(u64, i64)>,
    section: (u64, Seq<u8>),
    segments: Seq<(u64, Option<Seq<u8>>)>,
    layout: DescriptorLayout,
)
    requires
        layout.wf(),
    ensures
        image_tests(relocations, section, segments, layout) == Err::<
            Seq<TestView>,
            EnumerateErrorKind,
        >(EnumerateErrorKind::Descriptors) <==> section.1.len() % layout.size as nat != 0,
{
    if section.1.len() % layout.size as nat == 0 {
        lemma_no_list_ends_in_half_a_descriptor(
            relocations,
            section,
            segments,
            layout,
            section.1.len() / layout.size as nat,
        );
    }
}

proof fn lemma_no_list_ends_in_half_a_descriptor(
    relocations: Seq<(u64, i64)>,
    section: (u64, Seq<u8>),
    segments: Seq<(u64, Option<Seq<u8>>)>,
    layout: DescriptorLayout,
    n: nat,
)
    ensures
        first_tests(relocations, section, segments, layout, n) != Err::<
            Seq<TestView>,
            EnumerateErrorKind,
        >(EnumerateErrorKind::Descriptors),
    decreases n,
{
    if n > 0 {
        let m = (n - 1) as nat;
        lemma_no_list_ends_in_half_a_descriptor(relocations, section, segments, layout, m);
        lemma_bytes_are_those_of_a_segment(
            segments,
            relocated(
                relocations,
                (section.0 + m * layout.size) as u64,
                descriptor_field(section.1, layout, m as int, layout.name as int),
            ),
            descriptor_field(section.1, layout, m as int, layout.name_len as int),
        );
    }
}

/// A list that fails, fails for its first test without a name: every test before it has one, and
/// the error is its own.
pub proof fn lemma_first_nameless_test_fails_the_list(
    relocations: Seq<(u64, i64)>,
    section: (u64, Seq<u8>),
    segments: Seq<(u64, Option<Seq<u8>>)>,
    layout: DescriptorLayout,
    i: int,
)
    requires
        layout.wf(),
        section.1.len() % layout.size as nat == 0,
        0 <= i < section.1.len() / layout.size as nat,
        test_name(relocations, section, segments, layout, i) is Err,
        forall|j: int|
            0 <= j < i ==> (#[trigger] test_name(relocations, section, segments, layout, j)) is Ok,
    ensures
        image_tests(relocations, section, segments, layout) == Err::<
            Seq<TestView>,
            EnumerateErrorKind,
        >(test_name(relocations, section, segments, layout, i)->Err_0),
{
    lemma_first_tests(relocations, section, segments, layout, i as nat);
    lemma_error_stays(
        relocations,
        section,
        segments,
        layout,
        (i + 1) as nat,
        section.1.len() / layout.size as nat,
    );
}

/// What is wrong with one test: its descriptor lies beyond the address space, or its name is not
/// found, not readable or not UTF-8, for the bytes that its descriptor gives.
pub proof fn lemma_test_is_nameless_for_a_reason(
    relocations: Seq<(u64, i64)>,
    section: (u64, Seq<u8>),
    segments: Seq<(u64, Option<Seq<u8>>)>,
    layout: DescriptorLayout,
    i: int,
)
    requires
        layout.wf(),
        0 <= i,
        i * layout.size + layout.size <= section.1.len(),
    ensures
        ({
            let at = i * layout.size + layout.name_len;
            let len = widened(section.1.subrange(at, at + 8), layout.order) as u64;
            let found = bytes_at(segments, name_address(relocations, section, layout, i), len);
            let name = test_name(relocations, section, segments, layout, i);
            &&& name == Err::<Seq<char>, EnumerateErrorKind>(EnumerateErrorKind::AddressOverflow)
                <==> section.0 + i * layout.size >= 0x1_0000_0000_0000_0000
            &&& section.0 + i * layout.size < 0x1_0000_0000_0000_0000 ==> match found {
                Err(e) => name == Err::<Seq<char>, EnumerateErrorKind>(e),
                Ok(bytes) => if valid_utf8(bytes) {
                    name is Ok && encode_utf8(name->Ok_0) == bytes
                } else {
                    name == Err::<Seq<char>, EnumerateErrorKind>(EnumerateErrorKind::NameEncoding)
                },
            }
        }),
{
    let at = i * layout.size + layout.name_len;
    let len = widened(section.1.subrange(at, at + 8), layout.order) as u64;
    let address = name_address(relocations, section, layout, i);
    lemma_bytes_are_those_of_a_segment(segments, address, len);
    if let Ok(bytes) = bytes_at(segments, address, len) {
        if valid_utf8(bytes) {
            decode_utf8_encode_utf8(bytes);
        }
    }
}

/// A file is listed from what the ELF reader finds, and only if it finds all of it: it fails with
/// the first part that is missing.
pub proof fn lemma_file_is_listed_from_its_parts(
    relocations: Option<Option<Seq<(u64, i64)>>>,
    section: Option<Option<(u64, Option<Seq<u8>>)>>,
    segments: Option<Seq<(u64, Option<Seq<u8>>)>>,
    layout: DescriptorLayout,
)
    ensures
        ({
            let r = file_tests(relocations, section, segments, layout);
            &&& r is Ok ==> {
                &&& relocations matches Some(Some(found))
                &&& section matches Some(Some((address, Some(data))))
                &&& segments matches Some(all)
                &&& r == image_tests(found, (address, data), all, layout)
            }
            &&& relocations is None ==> r == Err::<Seq<TestView>, EnumerateErrorKind>(
                EnumerateErrorKind::Parse,
            )
            &&& (relocations matches Some(found) && found is None) ==> r == Err::<
                Seq<TestView>,
                EnumerateErrorKind,
            >(EnumerateErrorKind::NoRelocations)
            &&& (relocations matches Some(Some(_)) && section matches Some(None)) ==> r == Err::<
                Seq<TestView>,
                EnumerateErrorKind,
            >(EnumerateErrorKind::NoSection)
            &&& (relocations matches Some(Some(_)) && section matches Some(Some((_, None)))) ==> r
                == Err::<Seq<TestView>, EnumerateErrorKind>(EnumerateErrorKind::SectionData)
        }),
{
}

/// A list is what was expected, test by test: each has the expected name and index, and there are
/// no others. An error is of the expected kind, and keeps the error of the ELF reader exactly where
/// the ELF reader has failed.
pub proof fn lemma_list_is_what_was_expected(
    r: Result<Vec<TestInfo>, EnumerateError>,
    expected: Result<Seq<TestView>, EnumerateErrorKind>,
)
    requires
        listed(r, expected),
    ensures
        r is Ok <==> expected is Ok,
        r matches Ok(tests) ==> {
            &&& tests@.len() == expected->Ok_0.len()
            &&& forall|i: int|
                0 <= i < tests@.len() ==> (#[trigger] tests@[i]).name@ == expected->Ok_0[i].0
                    && tests@[i].index == expected->Ok_0[i].1
        },
        r matches Err(e) ==> {
            &&& expected->Err_0 == e.kind
            &&& e.source is Some <==> (e.kind == EnumerateErrorKind::Parse || e.kind
                == EnumerateErrorKind::SectionData || e.kind == EnumerateErrorKind::SegmentData)
        },
{
    if let Ok(tests) = r {
        let views = test_views(tests@);
        assert forall|i: int| 0 <= i < tests@.len() implies (#[trigger] tests@[i]).name@
            == views[i].0 && tests@[i].index == views[i].1 by {
            assert(views[i] == tests@[i]@);
        }
    }
}

/// Segments are looked at as they are: every one, in order, at its address, with all of its bytes
/// where they could be read, and with none where they could not.
pub proof fn lemma_segments_are_looked_at_whole(segments: Seq<Segment>, i: int)
    requires
        0 <= i < segments.len(),
    ensures
        segment_views(segments).len() == segments.len(),
        segment_views(segments)[i].0 == segments[i].address,
        match segments[i].data {
            Ok(data) => segment_views(segments)[i].1 == Some(data@),
            Err(_) => segment_views(segments)[i].1 is None,
        },
{
}

/// The error of a segment that could not be read is the very error of the first such segment.
pub proof fn lemma_segment_error_is_its_own(e: EnumerateError, segments: Seq<Segment>, i: int)
    requires
        e.kind == EnumerateErrorKind::SegmentData,
        from_segments(e, segments),
        0 <= i < segments.len(),
        segments[i].data is Err,
        forall|j: int| 0 <= j < i ==> (#[trigger] segments[j]).data is Ok,
    ensures
        e.source == Some(segments[i].data->Err_0),
{
    let k = choose|k: int|
        {
            &&& 0 <= k < segments.len()
            &&& (#[trigger] segments[k]).data matches Err(source)
            &&& e.source == Some(source)
            &&& forall|j: int| 0 <= j < k ==> (#[trigger] segments[j]).data is Ok
        };
    if k < i {
        assert(segments[k].data is Ok);
    } else if i < k {
        assert(segments[i].data is Ok);
    }
}

} // verus!
