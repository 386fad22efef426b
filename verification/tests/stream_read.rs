//! Tests for streaming the root JSON slab out of a JSLB byte stream.
//!
//! The library holds the decisions (`RootJsonOpen`, `RootJsonSkip`,
//! `RootJsonReader`); `RootStream` below is the thin `Read` adapter that
//! performs the reads they ask for.

use std::io::{self, Cursor, Read};

use json_slabs::stream_read::{RootJsonOpen, RootJsonReader, StreamError, StreamErrorKind};
use json_slabs::write::{Builder, JsonBytes};
use json_slabs::{SlabByteFormat, SlabBytes, FIXED_HEADER_SIZE, SLAB_TABLE_ENTRY_SIZE};

fn io_error(e: StreamError) -> io::Error {
    let kind = match e.kind() {
        StreamErrorKind::InvalidData => io::ErrorKind::InvalidData,
        StreamErrorKind::UnexpectedEof => io::ErrorKind::UnexpectedEof,
    };
    io::Error::new(kind, format!("{e:?}"))
}

/// A `Read` over the root JSON slab of a JSLB stream.
struct RootStream<R: Read> {
    inner: R,
    state: RootJsonReader,
}

impl<R: Read> RootStream<R> {
    fn new(mut inner: R) -> io::Result<Self> {
        let mut header_buf = [0u8; FIXED_HEADER_SIZE];
        inner.read_exact(&mut header_buf)?;
        let mut open = RootJsonOpen::start(&header_buf).map_err(io_error)?;
        let mut entry_buf = [0u8; SLAB_TABLE_ENTRY_SIZE];
        while open.wants_entry() {
            inner.read_exact(&mut entry_buf)?;
            open = open.push_entry(&entry_buf).map_err(io_error)?;
        }
        let skip = open.finish().map_err(io_error)?;
        let skipped = io::copy(&mut (&mut inner).take(skip.to_skip), &mut io::sink())?;
        let state = skip.after_skip(skipped).map_err(io_error)?;
        Ok(RootStream { inner, state })
    }
}

impl<R: Read> Read for RootStream<R> {
    fn read(&mut self, buf: &mut [u8]) -> io::Result<usize> {
        let take = self.state.read_len(buf.len());
        if take == 0 {
            return Ok(0);
        }
        let n = self.inner.read(&mut buf[..take])?;
        assert!(n <= take, "reader reported more bytes than it was given");
        self.state.after_read(take, n).map_err(io_error)
    }
}

fn build_with_root(root_json: &[u8]) -> Vec<u8> {
    // Include a couple of trailing slabs so the file has actual bytes past
    // the root; the reader should still yield exactly root_json.len().
    let floats: Vec<u8> = [0.5f64, 1.5, 2.5].iter().flat_map(|v| v.to_le_bytes()).collect();
    let mut b = Builder::new();
    let _ = b.add_slab(&[1u32, 2, 3]);
    let _ = b.add_slab_bytes(SlabBytes { slab_type: SlabByteFormat::F64LE, bytes: &floats });
    let _ = b.add_slab(JsonBytes(br#"{"nested":true}"#));
    b.finish(root_json)
}

#[test]
fn yields_exactly_the_root_json_bytes() {
    let root = br#"{"meta":{"version":1},"libs":[]}"#;
    let bytes = build_with_root(root);

    let mut reader = RootStream::new(Cursor::new(&bytes)).unwrap();
    let mut out = Vec::new();
    reader.read_to_end(&mut out).unwrap();
    assert_eq!(out, root);
}

#[test]
fn stops_at_root_end_even_with_trailing_bytes() {
    // Concatenate arbitrary junk after the JSLB file; the reader must not
    // read past the root slab's byte_length.
    let root = br#"[1,2,3]"#;
    let mut bytes = build_with_root(root);
    bytes.extend_from_slice(b"GARBAGE-AFTER-FILE");

    let mut reader = RootStream::new(Cursor::new(&bytes)).unwrap();
    let mut out = Vec::new();
    reader.read_to_end(&mut out).unwrap();
    assert_eq!(out, root);

    // A follow-up read still returns EOF.
    let mut buf = [0u8; 4];
    assert_eq!(reader.read(&mut buf).unwrap(), 0);
}

#[test]
fn small_read_buffer_returns_bytes_incrementally() {
    let root = br#"{"a":1,"b":2,"c":3}"#;
    let bytes = build_with_root(root);

    let mut reader = RootStream::new(Cursor::new(&bytes)).unwrap();
    let mut out = Vec::new();
    let mut buf = [0u8; 4];
    loop {
        let n = reader.read(&mut buf).unwrap();
        if n == 0 {
            break;
        }
        out.extend_from_slice(&buf[..n]);
    }
    assert_eq!(out, root);
}

#[test]
fn bad_magic_is_invalid_data() {
    let mut bytes = build_with_root(br#"{}"#);
    // Corrupt the first byte of the magic.
    bytes[0] ^= 0xFF;

    let err = RootStream::new(Cursor::new(&bytes)).err().unwrap();
    assert_eq!(err.kind(), io::ErrorKind::InvalidData);
}

#[test]
fn truncated_header_is_unexpected_eof() {
    let bytes = build_with_root(br#"{}"#);
    // Cut off partway through the fixed header.
    let truncated = &bytes[..10];

    let err = RootStream::new(Cursor::new(truncated)).err().unwrap();
    assert_eq!(err.kind(), io::ErrorKind::UnexpectedEof);
}

/// Hand-craft a two-slab JSLB whose root JSON slab is at index 1, forcing
/// the reader to actually skip past a preceding typed slab. This layout
/// is not reachable via `Builder`, which always emits root at index 0.
fn build_with_root_after_typed_slab(root_json: &[u8]) -> Vec<u8> {
    // Layout:
    //   [ 0..20)  header
    //   [20..44)  slab table (2 * 12 bytes)
    //   [44..52)  slab 0: i32 (8 bytes)
    //   [52..  )  slab 1: root JSON
    let typed: [i32; 2] = [0x1111_1111, 0x2222_2222];
    let typed_bytes: Vec<u8> = typed.iter().flat_map(|v| v.to_le_bytes()).collect();
    let table_end: u32 = 44;
    let typed_len: u32 = typed_bytes.len() as u32;
    let root_offset: u32 = table_end + typed_len;
    let root_len: u32 = root_json.len() as u32;

    let mut out = Vec::new();
    // Fixed header.
    out.extend_from_slice(&[0xDC, 0xDF, 0x4A, 0x53, 0x4C, 0x42, 0x01, 0x00]); // MAGIC
    out.extend_from_slice(&1u32.to_le_bytes()); // VERSION
    out.extend_from_slice(&2u32.to_le_bytes()); // slab_count
    out.extend_from_slice(&1u32.to_le_bytes()); // root_json_slab_index
    // Slab table.
    out.extend_from_slice(&0x04u32.to_le_bytes()); // slab 0 type: i32
    out.extend_from_slice(&table_end.to_le_bytes());
    out.extend_from_slice(&typed_len.to_le_bytes());
    out.extend_from_slice(&0x0Au32.to_le_bytes()); // slab 1 type: JSON
    out.extend_from_slice(&root_offset.to_le_bytes());
    out.extend_from_slice(&root_len.to_le_bytes());
    // Slab data.
    out.extend_from_slice(&typed_bytes);
    out.extend_from_slice(root_json);
    out
}

#[test]
fn root_at_non_zero_index_skips_preceding_slab() {
    let root = br#"{"root":"after typed"}"#;
    let bytes = build_with_root_after_typed_slab(root);

    let mut reader = RootStream::new(Cursor::new(&bytes)).unwrap();
    let mut out = Vec::new();
    reader.read_to_end(&mut out).unwrap();
    assert_eq!(out, root);
}

#[test]
fn truncated_before_root_slab_is_unexpected_eof() {
    let bytes = build_with_root_after_typed_slab(br#"{"x":1}"#);
    // Header (20) + slab table (24) = 44. Cut mid-way through the
    // preceding typed slab so the skip-to-root phase runs out of bytes.
    let truncated = &bytes[..47];

    let err = RootStream::new(Cursor::new(truncated)).err().unwrap();
    assert_eq!(err.kind(), io::ErrorKind::UnexpectedEof);
}

#[test]
fn empty_root_slab_yields_eof_immediately() {
    let bytes = build_with_root(b"");

    let mut reader = RootStream::new(Cursor::new(&bytes)).unwrap();
    let mut buf = [0u8; 8];
    assert_eq!(reader.read(&mut buf).unwrap(), 0);
}

#[test]
fn root_not_json_is_invalid_data() {
    let mut bytes = build_with_root_after_typed_slab(br#"{}"#);
    // Point the root index at the typed slab.
    bytes[16..20].copy_from_slice(&0u32.to_le_bytes());
    let err = RootStream::new(Cursor::new(&bytes)).err().unwrap();
    assert_eq!(err.kind(), io::ErrorKind::InvalidData);
}

#[test]
fn root_overlapping_table_is_invalid_data() {
    let mut bytes = build_with_root_after_typed_slab(br#"{}"#);
    // Move the root slab's start offset (slab 1, second field) into the table.
    bytes[36..40].copy_from_slice(&40u32.to_le_bytes());
    let err = RootStream::new(Cursor::new(&bytes)).err().unwrap();
    assert_eq!(err.kind(), io::ErrorKind::InvalidData);
}

#[test]
fn reader_state_bounds_each_read() {
    let mut r = RootJsonReader::new(5);
    assert_eq!(r.read_len(3), 3);
    r.consume(3);
    assert_eq!(r.remaining_bytes(), 2);
    assert_eq!(r.read_len(8), 2);
    r.consume(2);
    assert_eq!(r.read_len(8), 0);
}

#[test]
fn one_byte_reads_yield_the_root_then_eof() {
    let root = br#"[1,2,3]"#;
    let mut bytes = build_with_root(root);
    bytes.extend_from_slice(b"GARBAGE");
    let mut reader = RootStream::new(Cursor::new(&bytes)).unwrap();
    let mut out = Vec::new();
    let mut buf = [0u8; 1];
    loop {
        let n = reader.read(&mut buf).unwrap();
        if n == 0 {
            break;
        }
        assert_eq!(n, 1);
        out.push(buf[0]);
    }
    assert_eq!(out, root);
    assert_eq!(reader.read(&mut buf).unwrap(), 0);
    assert_eq!(reader.read(&mut [0u8; 0]).unwrap(), 0);
}

#[test]
fn stream_ending_inside_root_is_unexpected_eof() {
    let root = br#"{"a":[1,2,3,4,5,6]}"#;
    let bytes = build_with_root(root);
    let dir = json_slabs::SlabDirectory::parse(&bytes).unwrap();
    let start = dir.entries[0].start_offset as usize;
    let truncated = &bytes[..start + 5];
    let mut reader = RootStream::new(Cursor::new(truncated)).unwrap();
    let mut out = Vec::new();
    let err = reader.read_to_end(&mut out).unwrap_err();
    assert_eq!(err.kind(), io::ErrorKind::UnexpectedEof);
    assert_eq!(out, &root[..5]);
}

#[test]
fn after_read_settles_each_read() {
    let mut r = RootJsonReader::new(10);
    assert_eq!(r.read_len(4), 4);
    assert_eq!(r.after_read(4, 3), Ok(3));
    assert_eq!(r.remaining_bytes(), 7);
    assert_eq!(r.after_read(4, 0), Err(StreamError::EndedInsideRoot));
    assert_eq!(r.remaining_bytes(), 7);
    assert_eq!(r.after_read(0, 0), Ok(0));
    assert_eq!(r.read_len(100), 7);
    assert_eq!(r.after_read(7, 7), Ok(7));
    assert_eq!(r.read_len(100), 0);
    assert_eq!(StreamError::EndedInsideRoot.kind(), StreamErrorKind::UnexpectedEof);
}
