//! Parsing: the fixed header, the slab table, the `SlabDirectory` that
//! holds both, and `ParsedFile`, which binds every slab to its bytes.

use crate::format::{
    magic_seq, read_u32_le, u32_at, Header, SlabByteFormat, SlabTableEntry, SlabType,
    FIXED_HEADER_SIZE, SLAB_TABLE_ENTRY_SIZE, VERSION,
};
use crate::placeholder::SlabPlaceholder;
use crate::types::{decode_all, decode_slice, elem_size, SlabBytes, SlabPrimitive};
use vstd::prelude::*;
use vstd::slice::slice_subrange;

verus! {

/// Error reading the fixed header, the slab table, or the slab extents.
#[derive(Debug, Clone, Copy, PartialEq, Eq, Structural)]
pub enum ParseError {
    /// The buffer is shorter than the 20-byte fixed header. The payload is
    /// the actual buffer length.
    TooShort(usize),
    /// The first 8 bytes are not the magic bytes.
    BadMagic,
    /// The `version` field is not `VERSION`.
    UnsupportedVersion(u32),
    /// The header's slab count is zero. A well-formed file always has at
    /// least the root JSON slab.
    NoSlabs,
    /// The slab table extends past the end of the input buffer.
    SlabTableOverrun,
    /// The header's root slab index is not less than its slab count.
    RootIndexOutOfRange {
        /// The out-of-range root slab index.
        index: usize,
        /// The file's total slab count.
        slab_count: usize,
    },
    /// A slab-table entry's type tag is not a known `SlabType`.
    UnknownSlabType {
        /// Slab table index of the offending entry.
        index: usize,
        /// The raw type tag that failed to decode.
        type_byte: u32,
    },
    /// A slab's byte length is not a multiple of its element size.
    UnalignedSlabLength {
        /// Slab table index of the offending entry.
        index: usize,
        /// The reported byte length.
        byte_length: u32,
        /// The element size implied by the slab's type.
        element_size: usize,
    },
    /// A slab's byte range does not fit inside the input.
    SlabDataOverrun {
        /// Slab table index of the offending entry.
        index: usize,
    },
    /// The slab designated as the root is not of type `SlabType::Json`.
    RootNotJson,
}

/// The result of parsing the fixed header at the front of `bytes`.
pub open spec fn spec_parse_header(bytes: Seq<u8>) -> Result<Header, ParseError> {
    if bytes.len() < 20 {
        Err(ParseError::TooShort(bytes.len() as usize))
    } else if bytes.subrange(0, 8) != magic_seq() {
        Err(ParseError::BadMagic)
    } else if u32_at(bytes, 8) != 1 {
        Err(ParseError::UnsupportedVersion(u32_at(bytes, 8)))
    } else if u32_at(bytes, 12) == 0 {
        Err(ParseError::NoSlabs)
    } else if u32_at(bytes, 16) >= u32_at(bytes, 12) {
        Err(
            ParseError::RootIndexOutOfRange {
                index: u32_at(bytes, 16) as usize,
                slab_count: u32_at(bytes, 12) as usize,
            },
        )
    } else {
        Ok(
            Header {
                slab_count: u32_at(bytes, 12) as usize,
                root_json_slab_index: u32_at(bytes, 16) as usize,
            },
        )
    }
}

/// The result of parsing the 12-byte slab-table entry at the front of
/// `bytes`, which is entry number `index`.
pub open spec fn spec_parse_entry(bytes: Seq<u8>, index: usize) -> Result<
    SlabTableEntry,
    ParseError,
> {
    let type_byte = u32_at(bytes, 0);
    let start = u32_at(bytes, 4);
    let len = u32_at(bytes, 8);
    match SlabType::spec_from_tag(type_byte) {
        None => Err(ParseError::UnknownSlabType { index, type_byte }),
        Some(t) => if (len as int) % (t.spec_element_size() as int) != 0 {
            Err(
                ParseError::UnalignedSlabLength {
                    index,
                    byte_length: len,
                    element_size: t.spec_element_size(),
                },
            )
        } else {
            Ok(SlabTableEntry { slab_type: t, start_offset: start as u64, byte_length: len as u64 })
        },
    }
}

/// The result of parsing the first `n` slab-table entries, which start at
/// `base` in `bytes`. The first failing entry decides the error.
pub open spec fn spec_parse_entries(bytes: Seq<u8>, base: int, n: nat) -> Result<
    Seq<SlabTableEntry>,
    ParseError,
>
    decreases n,
{
    if n == 0 {
        Ok(Seq::empty())
    } else {
        match spec_parse_entries(bytes, base, (n - 1) as nat) {
            Err(e) => Err(e),
            Ok(entries) => match spec_parse_entry(
                bytes.subrange(base + 12 * (n - 1), base + 12 * n),
                (n - 1) as usize,
            ) {
                Err(e) => Err(e),
                Ok(entry) => Ok(entries.push(entry)),
            },
        }
    }
}

/// The result of parsing the header and the slab table at the front of
/// `bytes`.
pub open spec fn spec_parse_directory(bytes: Seq<u8>) -> Result<
    (Header, Seq<SlabTableEntry>),
    ParseError,
> {
    match spec_parse_header(bytes) {
        Err(e) => Err(e),
        Ok(h) => if 20 + 12 * h.slab_count > bytes.len() {
            Err(ParseError::SlabTableOverrun)
        } else {
            match spec_parse_entries(bytes, 20, h.slab_count as nat) {
                Err(e) => Err(e),
                Ok(entries) => Ok((h, entries)),
            }
        },
    }
}

/// Whether the entry's byte range lies within a file of `file_len` bytes.
pub open spec fn extent_fits(e: SlabTableEntry, file_len: int) -> bool {
    e.start_offset + e.byte_length <= file_len
}

/// The result of checking every entry's extent, in table order; the first
/// entry that does not fit decides the error.
pub open spec fn spec_validate_extents(entries: Seq<SlabTableEntry>, file_len: int) -> Result<
    (),
    ParseError,
>
    decreases entries.len(),
{
    if entries.len() == 0 {
        Ok(())
    } else {
        match spec_validate_extents(entries.drop_last(), file_len) {
            Err(e) => Err(e),
            Ok(_) => if extent_fits(entries.last(), file_len) {
                Ok(())
            } else {
                Err(ParseError::SlabDataOverrun { index: (entries.len() - 1) as usize })
            },
        }
    }
}

/// The in-memory view of one slab: its byte format and its bytes.
pub type SlabView = (SlabByteFormat, Seq<u8>);

/// The slab that `e` describes inside `data`.
pub open spec fn slab_of_entry(data: Seq<u8>, e: SlabTableEntry) -> SlabView {
    (
        e.slab_type.spec_to_byte_format(),
        data.subrange(e.start_offset as int, e.start_offset + e.byte_length),
    )
}

/// The result of parsing a whole `.jslb` buffer: the root slab index and
/// every slab, in slab-table order.
pub open spec fn spec_parse_file(data: Seq<u8>) -> Result<(usize, Seq<SlabView>), ParseError> {
    match spec_parse_directory(data) {
        Err(e) => Err(e),
        Ok((h, entries)) => match spec_validate_extents(entries, data.len() as int) {
            Err(e) => Err(e),
            Ok(_) => {
                let slabs = entries.map_values(|e: SlabTableEntry| slab_of_entry(data, e));
                if slabs[h.root_json_slab_index as int].0 != SlabByteFormat::Json {
                    Err(ParseError::RootNotJson)
                } else {
                    Ok((h.root_json_slab_index, slabs))
                }
            },
        },
    }
}

/// Parsed entries are as many as asked for, have their lengths aligned to
/// their element sizes, and fit in 32-bit fields.
pub proof fn lemma_parse_entries_facts(bytes: Seq<u8>, base: int, n: nat)
    ensures
        spec_parse_entries(bytes, base, n) matches Ok(es) ==> {
            &&& es.len() == n
            &&& forall|i: int|
                0 <= i < n ==> {
                    &&& (#[trigger] es[i]).byte_length % (es[i].slab_type.spec_element_size() as u64)
                        == 0
                    &&& es[i].start_offset <= u32::MAX
                    &&& es[i].byte_length <= u32::MAX
                }
        },
    decreases n,
{
    if n > 0 {
        lemma_parse_entries_facts(bytes, base, (n - 1) as nat);
        if let Ok(es) = spec_parse_entries(bytes, base, n) {
            let prev = spec_parse_entries(bytes, base, (n - 1) as nat).unwrap();
            assert forall|i: int| 0 <= i < n implies {
                &&& (#[trigger] es[i]).byte_length % (es[i].slab_type.spec_element_size() as u64)
                    == 0
                &&& es[i].start_offset <= u32::MAX
                &&& es[i].byte_length <= u32::MAX
            } by {
                if i < n - 1 {
                    assert(es[i] == prev[i]);
                }
            }
        }
    }
}

impl Header {
    /// Parse the 20-byte fixed header. Validates the magic bytes, the
    /// version, `slab_count > 0`, and `root_json_slab_index < slab_count`.
    /// Does not look at the slab table.
    pub fn parse(bytes: &[u8]) -> (r: Result<Header, ParseError>)
        ensures
            r == spec_parse_header(bytes@),
    {
        let n = bytes.len();
        if n < FIXED_HEADER_SIZE {
            return Err(ParseError::TooShort(n));
        }
        if !has_magic(bytes) {
            return Err(ParseError::BadMagic);
        }
        let version = read_u32_le(bytes, 8);
        if version != VERSION {
            return Err(ParseError::UnsupportedVersion(version));
        }
        let slab_count = read_u32_le(bytes, 12) as usize;
        let root_json_slab_index = read_u32_le(bytes, 16) as usize;
        if slab_count == 0 {
            return Err(ParseError::NoSlabs);
        }
        if root_json_slab_index >= slab_count {
            return Err(ParseError::RootIndexOutOfRange { index: root_json_slab_index, slab_count });
        }
        Ok(Header { slab_count, root_json_slab_index })
    }
}

/// Whether `bytes` starts with the magic bytes.
fn has_magic(bytes: &[u8]) -> (b: bool)
    requires
        bytes@.len() >= 8,
    ensures
        b == (bytes@.subrange(0, 8) == magic_seq()),
{
    let b = bytes[0] == 0xDC && bytes[1] == 0xDF && bytes[2] == 0x4A && bytes[3] == 0x53 && bytes[4]
        == 0x4C && bytes[5] == 0x42 && bytes[6] == 0x01 && bytes[7] == 0x00;
    proof {
        let s = bytes@.subrange(0, 8);
        if b {
            assert(s =~= magic_seq());
        } else {
            if s == magic_seq() {
                assert(s[0] == 0xDC && s[1] == 0xDF && s[2] == 0x4A && s[3] == 0x53);
                assert(s[4] == 0x4C && s[5] == 0x42 && s[6] == 0x01 && s[7] == 0x00);
            }
        }
    }
    b
}

impl SlabTableEntry {
    /// Parse one 12-byte slab-table entry. Validates the type tag and that
    /// the byte length is a multiple of the element size. Does not check
    /// that the slab fits in any particular buffer. Only the first 12
    /// bytes are read.
    pub fn parse(bytes: &[u8], index: usize) -> (r: Result<SlabTableEntry, ParseError>)
        requires
            bytes@.len() >= SLAB_TABLE_ENTRY_SIZE,
        ensures
            r == spec_parse_entry(bytes@, index),
    {
        let type_byte = read_u32_le(bytes, 0);
        let start_offset = read_u32_le(bytes, 4) as u64;
        let byte_length = read_u32_le(bytes, 8) as u64;
        let slab_type = match SlabType::try_from(type_byte) {
            Ok(t) => t,
            Err(type_byte) => {
                return Err(ParseError::UnknownSlabType { index, type_byte });
            },
        };
        let element_size = slab_type.element_size() as u64;
        if byte_length % element_size != 0 {
            return Err(
                ParseError::UnalignedSlabLength {
                    index,
                    byte_length: byte_length as u32,
                    element_size: element_size as usize,
                },
            );
        }
        Ok(SlabTableEntry { slab_type, start_offset, byte_length })
    }
}

/// Parse `count` consecutive entries starting at `base` in `bytes`.
fn parse_entries(bytes: &[u8], base: usize, count: usize) -> (r: Result<
    Vec<SlabTableEntry>,
    ParseError,
>)
    requires
        base + 12 * count <= bytes@.len(),
    ensures
        match r {
            Ok(v) => spec_parse_entries(bytes@, base as int, count as nat) == Ok::<
                Seq<SlabTableEntry>,
                ParseError,
            >(v@),
            Err(e) => spec_parse_entries(bytes@, base as int, count as nat) == Err::<
                Seq<SlabTableEntry>,
                ParseError,
            >(e),
        },
{
    let mut entries: Vec<SlabTableEntry> = Vec::new();
    let n = bytes.len();
    let mut i: usize = 0;
    while i < count
        invariant
            n == bytes@.len(),
            i <= count,
            base + 12 * count <= bytes@.len(),
            spec_parse_entries(bytes@, base as int, i as nat) == Ok::<
                Seq<SlabTableEntry>,
                ParseError,
            >(entries@),
        decreases count - i,
    {
        let pos = base + i * SLAB_TABLE_ENTRY_SIZE;
        let row = slice_subrange(bytes, pos, pos + SLAB_TABLE_ENTRY_SIZE);
        let entry = SlabTableEntry::parse(row, i);
        assert(spec_parse_entries(bytes@, base as int, (i + 1) as nat) == match spec_parse_entry(
            bytes@.subrange(base + 12 * i, base + 12 * (i + 1)),
            i,
        ) {
            Err(e) => Err(e),
            Ok(entry) => Ok(entries@.push(entry)),
        });
        match entry {
            Ok(e) => entries.push(e),
            Err(e) => {
                proof {
                    lemma_entries_error_sticks(bytes@, base as int, (i + 1) as nat, count as nat);
                }
                return Err(e);
            },
        }
        i = i + 1;
    }
    Ok(entries)
}

/// Once parsing the first `m` entries fails, parsing more fails the same
/// way.
proof fn lemma_entries_error_sticks(bytes: Seq<u8>, base: int, m: nat, n: nat)
    requires
        m <= n,
        spec_parse_entries(bytes, base, m) is Err,
    ensures
        spec_parse_entries(bytes, base, n) == spec_parse_entries(bytes, base, m),
    decreases n - m,
{
    if m < n {
        lemma_entries_error_sticks(bytes, base, m, (n - 1) as nat);
    }
}

/// Low-level alternative to `ParsedFile`: the decoded header and slab
/// table, without binding the slabs to their bytes.
#[derive(Debug, Clone)]
pub struct SlabDirectory {
    /// Decoded 20-byte fixed header.
    pub header: Header,
    /// One entry per slab, in slab-table order.
    pub entries: Vec<SlabTableEntry>,
}

impl View for SlabDirectory {
    type V = (Header, Seq<SlabTableEntry>);

    open spec fn view(&self) -> (Header, Seq<SlabTableEntry>) {
        (self.header, self.entries@)
    }
}

impl SlabDirectory {
    /// Parse the fixed header and slab table from the front of an
    /// in-memory buffer. Payload bytes are not read or validated; call
    /// `validate_extents` separately to check that every slab body fits.
    pub fn parse(bytes: &[u8]) -> (r: Result<SlabDirectory, ParseError>)
        ensures
            match r {
                Ok(d) => spec_parse_directory(bytes@) == Ok::<
                    (Header, Seq<SlabTableEntry>),
                    ParseError,
                >(d@),
                Err(e) => spec_parse_directory(bytes@) == Err::<
                    (Header, Seq<SlabTableEntry>),
                    ParseError,
                >(e),
            },
    {
        let header = Header::parse(bytes)?;
        let n = bytes.len();
        let table_end: u64 = 20 + (header.slab_count as u64) * 12;
        if table_end > n as u64 {
            return Err(ParseError::SlabTableOverrun);
        }
        let entries = parse_entries(bytes, FIXED_HEADER_SIZE, header.slab_count)?;
        Ok(SlabDirectory { header, entries })
    }

    /// The number of bytes of the slab table that follows `header`, or
    /// `None` if it does not fit in a `usize`.
    pub fn table_len(header: &Header) -> (r: Option<usize>)
        ensures
            match r {
                Some(n) => n == 12 * header.slab_count,
                None => 12 * header.slab_count > usize::MAX,
            },
    {
        header.slab_count.checked_mul(SLAB_TABLE_ENTRY_SIZE)
    }

    /// Decode the slab table that follows `header`, given its bytes (as
    /// read from a stream). Entry `i` occupies `table[12 * i .. 12 * i + 12]`.
    pub fn from_table(header: Header, table: &[u8]) -> (r: Result<SlabDirectory, ParseError>)
        requires
            12 * header.slab_count <= table@.len(),
        ensures
            match r {
                Ok(d) => d.header == header && spec_parse_entries(
                    table@,
                    0,
                    header.slab_count as nat,
                ) == Ok::<Seq<SlabTableEntry>, ParseError>(d.entries@),
                Err(e) => spec_parse_entries(table@, 0, header.slab_count as nat) == Err::<
                    Seq<SlabTableEntry>,
                    ParseError,
                >(e),
            },
    {
        let entries = parse_entries(table, 0, header.slab_count)?;
        Ok(SlabDirectory { header, entries })
    }

    /// Check that every slab's `[start_offset, start_offset + byte_length)`
    /// range fits within a container of `file_len` bytes.
    pub fn validate_extents(&self, file_len: u64) -> (r: Result<(), ParseError>)
        ensures
            r == spec_validate_extents(self.entries@, file_len as int),
    {
        let n = self.entries.len();
        let mut i: usize = 0;
        while i < n
            invariant
                n == self.entries@.len(),
                i <= n,
                spec_validate_extents(self.entries@.subrange(0, i as int), file_len as int) == Ok::<
                    (),
                    ParseError,
                >(()),
            decreases n - i,
        {
            let entry = &self.entries[i];
            let ghost prefix = self.entries@.subrange(0, i + 1);
            assert(prefix.drop_last() =~= self.entries@.subrange(0, i as int));
            let fits = match entry.start_offset.checked_add(entry.byte_length) {
                Some(end) => end <= file_len,
                None => false,
            };
            if !fits {
                proof {
                    lemma_extents_error_sticks(self.entries@, file_len as int, (i + 1) as nat);
                }
                return Err(ParseError::SlabDataOverrun { index: i });
            }
            i = i + 1;
        }
        assert(self.entries@.subrange(0, n as int) =~= self.entries@);
        Ok(())
    }

    /// Index of the slab that holds the root JSON skeleton.
    pub fn root_json_index(&self) -> (i: usize)
        ensures
            i == self.header.root_json_slab_index,
    {
        self.header.root_json_slab_index
    }

    /// Slab-table entry for the root JSON skeleton slab.
    pub fn root_entry(&self) -> (e: &SlabTableEntry)
        requires
            self.header.root_json_slab_index < self.entries@.len(),
        ensures
            *e == self.entries@[self.header.root_json_slab_index as int],
    {
        &self.entries[self.root_json_index()]
    }

    /// Total byte size of the header and the slab table, i.e. the byte
    /// offset at which slab payloads may start.
    pub fn header_and_table_size(&self) -> (n: u64)
        requires
            20 + 12 * self.entries@.len() <= u64::MAX,
        ensures
            n == 20 + 12 * self.entries@.len(),
    {
        20 + (self.entries.len() as u64) * 12
    }
}

/// Once the extents of a prefix fail to validate, longer prefixes fail the
/// same way.
proof fn lemma_extents_error_sticks(entries: Seq<SlabTableEntry>, file_len: int, m: nat)
    requires
        m <= entries.len(),
        spec_validate_extents(entries.subrange(0, m as int), file_len) is Err,
    ensures
        spec_validate_extents(entries, file_len) == spec_validate_extents(
            entries.subrange(0, m as int),
            file_len,
        ),
    decreases entries.len() - m,
{
    if m < entries.len() {
        let next = entries.subrange(0, m as int + 1);
        assert(next.drop_last() =~= entries.subrange(0, m as int));
        lemma_extents_error_sticks(entries, file_len, m + 1);
    } else {
        assert(entries.subrange(0, m as int) =~= entries);
    }
}

/// Error from `ParsedFile::parse` and the `ParsedFile::read*` resolvers.
#[derive(Debug, Clone, Copy, PartialEq, Eq, Structural)]
pub enum DecodeError {
    /// The JSLB header or slab table is malformed.
    Parse(ParseError),
    /// A `SlabPlaceholder` referenced an index past the end of the slab table.
    SlabIndexOutOfRange {
        /// The out-of-range placeholder index.
        index: usize,
        /// The file's total slab count.
        slab_count: usize,
    },
    /// A typed read was performed against a slab of the wrong type.
    SlabTypeMismatch {
        /// Slab table index of the offending slab.
        index: usize,
        /// The type the caller asked for.
        expected: SlabType,
        /// The type the slab actually has on disk.
        found: SlabType,
    },
}

impl core::convert::From<ParseError> for DecodeError {
    fn from(e: ParseError) -> (r: DecodeError) {
        DecodeError::Parse(e)
    }
}

impl vstd::std_specs::convert::FromSpecImpl<ParseError> for DecodeError {
    open spec fn obeys_from_spec() -> bool {
        true
    }

    open spec fn from_spec(e: ParseError) -> DecodeError {
        DecodeError::Parse(e)
    }
}

/// The JSLB file contents, parsed from a slice of bytes: every slab bound
/// to its bytes inside the buffer.
///
/// Use `SlabDirectory` for a lower-level reading API.
#[derive(Debug)]
pub struct ParsedFile<'a> {
    root_json_slab_index: usize,
    slabs: Vec<SlabBytes<'a>>,
}

impl<'a> View for ParsedFile<'a> {
    type V = (usize, Seq<SlabView>);

    closed spec fn view(&self) -> (usize, Seq<SlabView>) {
        (self.root_json_slab_index, self.slabs@.map_values(|s: SlabBytes<'a>| s@))
    }
}

impl<'a> ParsedFile<'a> {
    /// The root index names a JSON slab, and every slab's length is a
    /// multiple of its element size.
    #[verifier::type_invariant]
    closed spec fn inv(self) -> bool {
        &&& self.root_json_slab_index < self.slabs@.len()
        &&& self.slabs@[self.root_json_slab_index as int].slab_type == SlabByteFormat::Json
        &&& forall|i: int|
            0 <= i < self.slabs@.len() ==> (#[trigger] self.slabs@[i]).bytes@.len() % (
            self.slabs@[i].slab_type.spec_element_size() as nat) == 0
    }

    /// Parse a `.jslb` byte buffer. Validates the fixed header, the slab
    /// table, that each slab's bytes fit in `data`, and that the root slab
    /// is a JSON slab. Returns borrowed views into `data`. Multi-byte slabs
    /// are tagged with their little-endian format, since the on-disk
    /// format is always little-endian.
    pub fn parse(data: &'a [u8]) -> (r: Result<ParsedFile<'a>, ParseError>)
        ensures
            match r {
                Ok(f) => spec_parse_file(data@) == Ok::<(usize, Seq<SlabView>), ParseError>(f@),
                Err(e) => spec_parse_file(data@) == Err::<(usize, Seq<SlabView>), ParseError>(e),
            },
    {
        let dir = SlabDirectory::parse(data)?;
        let n = data.len();
        dir.validate_extents(n as u64)?;
        proof {
            lemma_parse_entries_facts(data@, 20, dir.header.slab_count as nat);
            lemma_extents_all_fit(dir.entries@, n as int);
        }
        let count = dir.entries.len();
        let mut slabs: Vec<SlabBytes<'a>> = Vec::new();
        let mut i: usize = 0;
        while i < count
            invariant
                count == dir.entries@.len(),
                n == data@.len(),
                i <= count,
                slabs@.len() == i,
                forall|k: int|
                    0 <= k < count ==> extent_fits(#[trigger] dir.entries@[k], n as int),
                forall|k: int|
                    0 <= k < count ==> (#[trigger] dir.entries@[k]).byte_length % (
                    dir.entries@[k].slab_type.spec_element_size() as u64) == 0,
                forall|k: int|
                    0 <= k < i ==> (#[trigger] slabs@[k])@ == slab_of_entry(
                        data@,
                        dir.entries@[k],
                    ),
            decreases count - i,
        {
            let entry = &dir.entries[i];
            assert(extent_fits(dir.entries@[i as int], n as int));
            let start = entry.start_offset as usize;
            let end = (entry.start_offset + entry.byte_length) as usize;
            let bytes = slice_subrange(data, start, end);
            slabs.push(SlabBytes { slab_type: entry.slab_type.to_byte_format(), bytes });
            i = i + 1;
        }
        let root = dir.header.root_json_slab_index;
        let ghost views = dir.entries@.map_values(|e: SlabTableEntry| slab_of_entry(data@, e));
        assert(slabs@.map_values(|s: SlabBytes<'a>| s@) =~= views);
        if slabs[root].slab_type != SlabByteFormat::Json {
            return Err(ParseError::RootNotJson);
        }
        proof {
            assert forall|k: int| 0 <= k < slabs@.len() implies (#[trigger] slabs@[k]).bytes@.len()
                % (slabs@[k].slab_type.spec_element_size() as nat) == 0 by {
                let e = dir.entries@[k];
                crate::format::lemma_element_size_range(e.slab_type);
                assert(slabs@[k]@ == slab_of_entry(data@, e));
            }
        }
        Ok(ParsedFile { root_json_slab_index: root, slabs })
    }

    /// All slabs in slab-table order.
    pub fn slabs(&self) -> (s: &[SlabBytes<'a>])
        ensures
            s@.map_values(|b: SlabBytes<'a>| b@) == self@.1,
    {
        self.slabs.as_slice()
    }

    /// Index of the slab that holds the root JSON skeleton.
    pub fn root_json_slab_index(&self) -> (i: usize)
        ensures
            i == self@.0,
    {
        self.root_json_slab_index
    }

    /// Raw bytes of the root JSON skeleton slab.
    pub fn root_json_bytes(&self) -> (b: &'a [u8])
        ensures
            self@.0 < self@.1.len(),
            b@ == self@.1[self@.0 as int].1,
    {
        proof {
            use_type_invariant(self);
        }
        self.slabs[self.root_json_slab_index].bytes
    }

    /// Look up a placeholder's slab. Returns the underlying `SlabBytes`
    /// for callers that want to handle decoding themselves, or forward it
    /// to `Builder::add_slab_bytes` for re-emission.
    pub fn slab_at(&self, p: SlabPlaceholder) -> (r: Result<&SlabBytes<'a>, DecodeError>)
        ensures
            p.0 < self@.1.len() ==> (r matches Ok(s) && s@ == self@.1[p.0 as int]),
            p.0 >= self@.1.len() ==> r == Err::<&SlabBytes<'a>, DecodeError>(
                DecodeError::SlabIndexOutOfRange { index: p.0, slab_count: self@.1.len() as usize },
            ),
    {
        if p.0 < self.slabs.len() {
            Ok(&self.slabs[p.0])
        } else {
            Err(DecodeError::SlabIndexOutOfRange { index: p.0, slab_count: self.slabs.len() })
        }
    }

    /// Read a typed-array slab as `Vec<T>`. The slab's on-disk type must
    /// be `T`'s on-disk type.
    pub fn read<T: SlabPrimitive>(&self, p: SlabPlaceholder) -> (r: Result<Vec<T>, DecodeError>)
        ensures
            p.0 >= self@.1.len() ==> r == Err::<Vec<T>, DecodeError>(
                DecodeError::SlabIndexOutOfRange { index: p.0, slab_count: self@.1.len() as usize },
            ),
            p.0 < self@.1.len() && self@.1[p.0 as int].0.spec_on_disk_type()
                != T::spec_byte_format().spec_on_disk_type() ==> r == Err::<Vec<T>, DecodeError>(
                DecodeError::SlabTypeMismatch {
                    index: p.0,
                    expected: T::spec_byte_format().spec_on_disk_type(),
                    found: self@.1[p.0 as int].0.spec_on_disk_type(),
                },
            ),
            p.0 < self@.1.len() && self@.1[p.0 as int].0.spec_on_disk_type()
                == T::spec_byte_format().spec_on_disk_type() ==> (r matches Ok(v) && v@
                == decode_all::<T>(self@.1[p.0 as int].1)),
    {
        proof {
            use_type_invariant(self);
        }
        let slab = self.slab_at(p)?;
        proof {
            assert(self.slabs@[p.0 as int]@ == self@.1[p.0 as int]);
        }
        let found = slab.slab_type.on_disk_type();
        let expected = T::slab_type();
        if found != expected {
            return Err(DecodeError::SlabTypeMismatch { index: p.0, expected, found });
        }
        proof {
            crate::format::lemma_byte_format_roundtrip(slab.slab_type);
            crate::format::lemma_byte_format_roundtrip(T::spec_byte_format());
            assert(slab.slab_type.spec_element_size() == elem_size::<T>());
        }
        Ok(decode_slice::<T>(slab.bytes))
    }

    /// Read a JSON sub-slab as raw bytes. The slab must have type
    /// `SlabType::Json`.
    pub fn read_subjson_bytes(&self, p: SlabPlaceholder) -> (r: Result<&'a [u8], DecodeError>)
        ensures
            p.0 >= self@.1.len() ==> r == Err::<&'a [u8], DecodeError>(
                DecodeError::SlabIndexOutOfRange { index: p.0, slab_count: self@.1.len() as usize },
            ),
            p.0 < self@.1.len() && self@.1[p.0 as int].0.spec_on_disk_type() != SlabType::Json
                ==> r == Err::<&'a [u8], DecodeError>(
                DecodeError::SlabTypeMismatch {
                    index: p.0,
                    expected: SlabType::Json,
                    found: self@.1[p.0 as int].0.spec_on_disk_type(),
                },
            ),
            p.0 < self@.1.len() && self@.1[p.0 as int].0.spec_on_disk_type() == SlabType::Json
                ==> (r matches Ok(b) && b@ == self@.1[p.0 as int].1),
    {
        let slab = self.slab_at(p)?;
        let found = slab.slab_type.on_disk_type();
        if found != SlabType::Json {
            return Err(
                DecodeError::SlabTypeMismatch { index: p.0, expected: SlabType::Json, found },
            );
        }
        Ok(slab.bytes)
    }

    /// Raw bytes of an arbitrary slab regardless of its type. Multi-byte
    /// slabs are always little-endian on disk.
    pub fn read_raw(&self, p: SlabPlaceholder) -> (r: Result<&'a [u8], DecodeError>)
        ensures
            p.0 >= self@.1.len() ==> r == Err::<&'a [u8], DecodeError>(
                DecodeError::SlabIndexOutOfRange { index: p.0, slab_count: self@.1.len() as usize },
            ),
            p.0 < self@.1.len() ==> (r matches Ok(b) && b@ == self@.1[p.0 as int].1),
    {
        Ok(self.slab_at(p)?.bytes)
    }
}

/// When extent validation succeeds, every entry fits.
pub proof fn lemma_extents_all_fit(entries: Seq<SlabTableEntry>, file_len: int)
    requires
        spec_validate_extents(entries, file_len) is Ok,
    ensures
        forall|k: int| 0 <= k < entries.len() ==> extent_fits(#[trigger] entries[k], file_len),
    decreases entries.len(),
{
    if entries.len() > 0 {
        lemma_extents_all_fit(entries.drop_last(), file_len);
        assert forall|k: int| 0 <= k < entries.len() implies extent_fits(
            #[trigger] entries[k],
            file_len,
        ) by {
            if k < entries.len() - 1 {
                assert(entries.drop_last()[k] == entries[k]);
            }
        }
    }
}

} // verus!
