//! The decisions of streaming the root JSON slab out of a JSLB byte
//! stream, for callers that do not hold the whole file in memory.
//!
//! Opening a stream goes through `RootJsonOpen`: it is handed the 20
//! header bytes, then each 12-byte slab-table entry in turn, and finally
//! says how many bytes to skip before the root JSON slab begins. The
//! resulting `RootJsonReader` then bounds every read so that exactly the
//! root slab's bytes are yielded, whatever follows it in the stream.

use crate::format::{Header, SlabTableEntry, SlabType, FIXED_HEADER_SIZE, SLAB_TABLE_ENTRY_SIZE};
use crate::read::{spec_parse_entries, spec_parse_entry, spec_parse_header, ParseError};
use vstd::prelude::*;

verus! {

/// The kind of a streaming failure, matching the I/O error kinds that a
/// reader reports for it.
#[derive(Debug, Clone, Copy, PartialEq, Eq, Structural)]
pub enum StreamErrorKind {
    /// The stream's contents are not a valid JSLB prefix.
    InvalidData,
    /// The stream ended before the data the format requires.
    UnexpectedEof,
}

/// Why the root JSON slab of a stream cannot be read.
#[derive(Debug, Clone, Copy, PartialEq, Eq, Structural)]
pub enum StreamError {
    /// The header or a slab-table entry is malformed.
    Parse(ParseError),
    /// The designated root slab is not a JSON slab.
    RootNotJson,
    /// The root slab's byte range begins inside the header or slab table.
    RootOverlapsTable,
    /// The stream ended before the root slab's start offset.
    EndedBeforeRoot,
    /// The stream ended before all of the root slab's bytes were read.
    EndedInsideRoot,
}

impl StreamError {
    /// The I/O error kind this failure is reported as.
    pub open spec fn spec_kind(self) -> StreamErrorKind {
        match self {
            StreamError::EndedBeforeRoot | StreamError::EndedInsideRoot => StreamErrorKind::UnexpectedEof,
            _ => StreamErrorKind::InvalidData,
        }
    }

    /// The I/O error kind this failure is reported as.
    pub fn kind(&self) -> (k: StreamErrorKind)
        ensures
            k == self.spec_kind(),
    {
        match self {
            StreamError::EndedBeforeRoot | StreamError::EndedInsideRoot => StreamErrorKind::UnexpectedEof,
            _ => StreamErrorKind::InvalidData,
        }
    }
}

/// The state of opening a stream: the header is parsed and the first
/// `next_index` slab-table entries have been handed over.
pub struct RootJsonOpen {
    header: Header,
    next_index: usize,
    root: Option<SlabTableEntry>,
    table: Ghost<Seq<u8>>,
    entries: Ghost<Seq<SlabTableEntry>>,
}

impl RootJsonOpen {
    /// The parsed header.
    pub closed spec fn spec_header(&self) -> Header {
        self.header
    }

    /// The slab-table bytes handed over so far.
    pub closed spec fn spec_table(&self) -> Seq<u8> {
        self.table@
    }

    /// The number of slab-table entries handed over so far.
    pub closed spec fn spec_next_index(&self) -> usize {
        self.next_index
    }

    /// The slab-table entries parsed so far.
    pub closed spec fn spec_entries(&self) -> Seq<SlabTableEntry> {
        self.entries@
    }

    /// The entries parsed so far are those of the table bytes handed over,
    /// and the root entry is remembered once it has been seen.
    #[verifier::type_invariant]
    closed spec fn inv(self) -> bool {
        &&& self.header.root_json_slab_index < self.header.slab_count
        &&& self.header.slab_count <= u32::MAX
        &&& self.next_index <= self.header.slab_count
        &&& self.table@.len() == 12 * self.next_index
        &&& spec_parse_entries(self.table@, 0, self.next_index as nat) == Ok::<
            Seq<SlabTableEntry>,
            ParseError,
        >(self.entries@)
        &&& self.entries@.len() == self.next_index
        &&& if self.header.root_json_slab_index < self.next_index {
            self.root == Some(self.entries@[self.header.root_json_slab_index as int])
        } else {
            self.root.is_none()
        }
    }

    /// Begin opening a stream from its first 20 bytes.
    pub fn start(header_bytes: &[u8]) -> (r: Result<RootJsonOpen, StreamError>)
        requires
            header_bytes@.len() == FIXED_HEADER_SIZE,
        ensures
            match spec_parse_header(header_bytes@) {
                Ok(h) => r matches Ok(o) && o.spec_header() == h && o.spec_next_index() == 0
                    && o.spec_table() == Seq::<u8>::empty(),
                Err(e) => r == Err::<RootJsonOpen, StreamError>(StreamError::Parse(e)),
            },
    {
        match Header::parse(header_bytes) {
            Ok(header) => Ok(
                RootJsonOpen {
                    header,
                    next_index: 0,
                    root: None,
                    table: Ghost(Seq::empty()),
                    entries: Ghost(Seq::empty()),
                },
            ),
            Err(e) => Err(StreamError::Parse(e)),
        }
    }

    /// Whether another slab-table entry is due.
    pub fn wants_entry(&self) -> (b: bool)
        ensures
            b == (self.spec_next_index() < self.spec_header().slab_count),
    {
        self.next_index < self.header.slab_count
    }

    /// Hand over the next 12-byte slab-table entry.
    pub fn push_entry(self, entry_bytes: &[u8]) -> (r: Result<RootJsonOpen, StreamError>)
        requires
            self.spec_next_index() < self.spec_header().slab_count,
            entry_bytes@.len() == SLAB_TABLE_ENTRY_SIZE,
        ensures
            match spec_parse_entry(entry_bytes@, self.spec_next_index()) {
                Ok(_) => r matches Ok(o) && o.spec_header() == self.spec_header()
                    && o.spec_next_index() == self.spec_next_index() + 1 && o.spec_table()
                    == self.spec_table() + entry_bytes@,
                Err(e) => r == Err::<RootJsonOpen, StreamError>(StreamError::Parse(e)),
            },
    {
        proof {
            use_type_invariant(&self);
        }
        let index = self.next_index;
        match SlabTableEntry::parse(entry_bytes, index) {
            Err(e) => Err(StreamError::Parse(e)),
            Ok(entry) => {
                let ghost table = self.table@ + entry_bytes@;
                let ghost entries = self.entries@.push(entry);
                proof {
                    assert(table.subrange(0, 12 * index as int) =~= self.table@);
                    assert(table.subrange(12 * index as int, 12 * index as int + 12)
                        =~= entry_bytes@);
                    lemma_parse_entries_extend(self.table@, entry_bytes@, index as nat);
                }
                let root = if index == self.header.root_json_slab_index {
                    Some(entry)
                } else {
                    self.root
                };
                Ok(
                    RootJsonOpen {
                        header: self.header,
                        next_index: index + 1,
                        root,
                        table: Ghost(table),
                        entries: Ghost(entries),
                    },
                )
            },
        }
    }

    /// Once every slab-table entry has been handed over: check the root
    /// entry and say how many bytes to skip before the root slab.
    pub fn finish(self) -> (r: Result<RootJsonSkip, StreamError>)
        requires
            self.spec_next_index() == self.spec_header().slab_count,
        ensures
            ({
                let root = self.spec_entries()[self.spec_header().root_json_slab_index as int];
                let consumed = 20 + 12 * self.spec_header().slab_count;
                &&& spec_parse_entries(self.spec_table(), 0, self.spec_header().slab_count as nat)
                    == Ok::<Seq<SlabTableEntry>, ParseError>(self.spec_entries())
                &&& self.spec_header().root_json_slab_index < self.spec_entries().len()
                &&& root.slab_type != SlabType::Json ==> r == Err::<RootJsonSkip, StreamError>(
                    StreamError::RootNotJson,
                )
                &&& root.slab_type == SlabType::Json && root.start_offset < consumed ==> r == Err::<
                    RootJsonSkip,
                    StreamError,
                >(StreamError::RootOverlapsTable)
                &&& root.slab_type == SlabType::Json && root.start_offset >= consumed ==> r
                    == Ok::<RootJsonSkip, StreamError>(
                    RootJsonSkip {
                        to_skip: (root.start_offset - consumed) as u64,
                        byte_length: root.byte_length,
                    },
                )
            }),
    {
        proof {
            use_type_invariant(&self);
        }
        let root = match self.root {
            Some(e) => e,
            None => {
                assert(false);
                return Err(StreamError::RootNotJson);
            },
        };
        let consumed: u64 = 20 + (self.header.slab_count as u64) * 12;
        if root.slab_type != SlabType::Json {
            return Err(StreamError::RootNotJson);
        }
        if root.start_offset < consumed {
            return Err(StreamError::RootOverlapsTable);
        }
        Ok(RootJsonSkip { to_skip: root.start_offset - consumed, byte_length: root.byte_length })
    }
}

/// Parsing one more entry extends the parsed prefix.
proof fn lemma_parse_entries_extend(table: Seq<u8>, entry: Seq<u8>, n: nat)
    requires
        table.len() == 12 * n,
        entry.len() == 12,
    ensures
        spec_parse_entries(table + entry, 0, n) == spec_parse_entries(table, 0, n),
        (table + entry).subrange(12 * n as int, 12 * n as int + 12) == entry,
{
    lemma_parse_entries_prefix(table, entry, n);
    assert((table + entry).subrange(12 * n as int, 12 * n as int + 12) =~= entry);
}

/// Parsing the first `m` entries only looks at their bytes.
proof fn lemma_parse_entries_prefix(table: Seq<u8>, extra: Seq<u8>, m: nat)
    requires
        12 * m <= table.len(),
    ensures
        spec_parse_entries(table + extra, 0, m) == spec_parse_entries(table, 0, m),
    decreases m,
{
    if m > 0 {
        lemma_parse_entries_prefix(table, extra, (m - 1) as nat);
        let lo = 12 * (m as int - 1);
        let hi = 12 * m as int;
        assert((table + extra).subrange(lo, hi) =~= table.subrange(lo, hi));
    }
}

/// What remains of opening a stream once the slab table is read: skip
/// `to_skip` bytes, then the root JSON slab's `byte_length` bytes follow.
#[derive(Debug, Clone, Copy, PartialEq, Eq, Structural)]
pub struct RootJsonSkip {
    /// Bytes between the end of the slab table and the root slab.
    pub to_skip: u64,
    /// Length of the root JSON slab.
    pub byte_length: u64,
}

impl RootJsonSkip {
    /// After skipping: `skipped` is how many bytes the stream yielded (at
    /// most `to_skip`). Fewer means the stream ended before the root slab.
    pub fn after_skip(self, skipped: u64) -> (r: Result<RootJsonReader, StreamError>)
        ensures
            skipped < self.to_skip ==> r == Err::<RootJsonReader, StreamError>(
                StreamError::EndedBeforeRoot,
            ),
            skipped >= self.to_skip ==> (r matches Ok(rd) && rd.remaining() == self.byte_length),
    {
        if skipped < self.to_skip {
            Err(StreamError::EndedBeforeRoot)
        } else {
            Ok(RootJsonReader { remaining: self.byte_length })
        }
    }
}

/// Bounds the reads of a stream positioned at the start of the root JSON
/// slab, so that exactly the slab's bytes are read and then end-of-file,
/// whatever follows it.
#[derive(Debug, Clone, Copy, PartialEq, Eq, Structural)]
pub struct RootJsonReader {
    remaining: u64,
}

impl RootJsonReader {
    /// Bytes of the root slab not yet read.
    pub closed spec fn remaining(&self) -> u64 {
        self.remaining
    }

    /// A reader for a root slab of `byte_length` bytes, at its start.
    pub fn new(byte_length: u64) -> (r: RootJsonReader)
        ensures
            r.remaining() == byte_length,
    {
        RootJsonReader { remaining: byte_length }
    }

    /// Bytes of the root slab not yet read.
    pub fn remaining_bytes(&self) -> (n: u64)
        ensures
            n == self.remaining(),
    {
        self.remaining
    }

    /// How many bytes the next read may ask the stream for, given a buffer
    /// of `buf_len` bytes: none once the slab is exhausted, else as many as
    /// fit, up to what remains.
    pub fn read_len(&self, buf_len: usize) -> (n: usize)
        ensures
            n == if (buf_len as int) < self.remaining() {
                buf_len as int
            } else {
                self.remaining() as int
            },
    {
        if (buf_len as u64) < self.remaining {
            buf_len
        } else {
            self.remaining as usize
        }
    }

    /// Settle a read that asked the stream for `asked` bytes (as
    /// `read_len` computed) and got `n`: the bytes are consumed and `n` is
    /// the read's result, except that a stream that yields nothing while
    /// slab bytes were asked for has ended inside the root slab, which is
    /// an error (and the state is left as it was).
    pub fn after_read(&mut self, asked: usize, n: usize) -> (r: Result<usize, StreamError>)
        requires
            n <= asked <= old(self).remaining(),
        ensures
            n == 0 && asked > 0 ==> r == Err::<usize, StreamError>(StreamError::EndedInsideRoot)
                && final(self).remaining() == old(self).remaining(),
            !(n == 0 && asked > 0) ==> r == Ok::<usize, StreamError>(n)
                && final(self).remaining() == old(self).remaining() - n,
    {
        if n == 0 && asked > 0 {
            Err(StreamError::EndedInsideRoot)
        } else {
            self.consume(n);
            Ok(n)
        }
    }

    /// Record that the stream yielded `n` bytes of the slab.
    pub fn consume(&mut self, n: usize)
        requires
            n <= old(self).remaining(),
        ensures
            final(self).remaining() == old(self).remaining() - n,
    {
        self.remaining = self.remaining - n as u64;
    }
}

/// How many bytes a read with a buffer of `buf_len` bytes may ask the
/// stream for when `remaining` bytes of the root slab are left, as
/// `RootJsonReader::read_len` computes it.
pub open spec fn spec_read_len(remaining: int, buf_len: int) -> int {
    if buf_len < remaining {
        buf_len
    } else {
        remaining
    }
}

/// The bytes of the root slab left after `reads`, each a buffer length
/// and the count the stream then yielded, consumed one after another from
/// `remaining` as `RootJsonReader::consume` does; `None` if a read yielded
/// more than it could ask for.
pub open spec fn after_reads(remaining: int, reads: Seq<(usize, usize)>) -> Option<int>
    decreases reads.len(),
{
    if reads.len() == 0 {
        Some(remaining)
    } else {
        match after_reads(remaining, reads.drop_last()) {
            None => None,
            Some(r) => if reads.last().1 <= spec_read_len(r, reads.last().0 as int) {
                Some(r - reads.last().1)
            } else {
                None
            },
        }
    }
}

/// The bytes yielded by `reads` in all.
pub open spec fn total_read(reads: Seq<(usize, usize)>) -> int
    decreases reads.len(),
{
    if reads.len() == 0 {
        0
    } else {
        total_read(reads.drop_last()) + reads.last().1
    }
}

/// Repeated reads of the root slab never go past it: however the reads
/// are sized, the bytes yielded so far and the bytes left add up to the
/// slab's `byte_length`, each read asks for no more than its buffer holds,
/// and a read with a non-empty buffer asks for nothing (end of file)
/// exactly when the whole slab has been read. So reading until a read
/// yields nothing gives exactly `byte_length` bytes; a stream that ends
/// first is reported by `RootJsonReader::after_read` as an error.
pub proof fn law_root_reads_yield_the_slab(byte_length: u64, reads: Seq<(usize, usize)>)
    requires
        after_reads(byte_length as int, reads) is Some,
    ensures
        ({
            let r = after_reads(byte_length as int, reads)->0;
            &&& 0 <= r <= byte_length
            &&& total_read(reads) == byte_length - r
            &&& forall|b: usize|
                #![trigger spec_read_len(r, b as int)]
                0 <= spec_read_len(r, b as int) <= b && (b > 0 ==> (spec_read_len(r, b as int)
                    == 0 <==> r == 0))
        }),
    decreases reads.len(),
{
    if reads.len() > 0 {
        law_root_reads_yield_the_slab(byte_length, reads.drop_last());
    }
}

} // verus!
