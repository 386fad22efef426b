//! End-to-end tests exercising the crate's read and write APIs. Callers
//! hand-build the root JSON skeleton.

use json_slabs::{
    BorrowedSlab, Builder, DecodeError, Header, JsonBytes, ParsedFile, SlabByteFormat, SlabBytes,
    SlabDirectory, SlabElems, SlabPlaceholder, SlabType, FIXED_HEADER_SIZE,
};
use std::fmt::Debug;
use std::io::{self, Read};

/// Little-endian bytes of `f64`s, for slabs of a float type.
fn f64_bytes(values: &[f64]) -> Vec<u8> {
    values.iter().flat_map(|v| v.to_le_bytes()).collect()
}

/// Little-endian bytes of `f32`s, for slabs of a float type.
fn f32_bytes(values: &[f32]) -> Vec<u8> {
    values.iter().flat_map(|v| v.to_le_bytes()).collect()
}

/// Read the fixed header and slab table from a stream, leaving it at the
/// first byte after the table.
fn read_directory<R: Read>(r: &mut R) -> io::Result<SlabDirectory> {
    let mut header_buf = [0u8; FIXED_HEADER_SIZE];
    r.read_exact(&mut header_buf)?;
    let header = Header::parse(&header_buf)
        .map_err(|e| io::Error::new(io::ErrorKind::InvalidData, format!("{e:?}")))?;
    let table_len = SlabDirectory::table_len(&header)
        .ok_or_else(|| io::Error::new(io::ErrorKind::InvalidData, "slab table size overflow"))?;
    let mut table = vec![0u8; table_len];
    r.read_exact(&mut table)?;
    SlabDirectory::from_table(header, &table)
        .map_err(|e| io::Error::new(io::ErrorKind::InvalidData, format!("{e:?}")))
}

#[test]
fn byte_level_roundtrip() {
    let mut b = Builder::new();
    let frame = b.add_slab(&[10i32, 20, 30]);
    let sub = b.add_slab(JsonBytes(br#"{"name":"Firefox","version":28}"#));

    let skeleton = format!(
        r#"{{"frame":{{"$s":{}}},"meta":{{"$s":{}}}}}"#,
        frame.index(),
        sub.index(),
    );
    let bytes = b.finish(skeleton.as_bytes());

    let parsed = ParsedFile::parse(&bytes).expect("parse");

    let frame_back: Vec<i32> = parsed.read(frame).expect("frame");
    assert_eq!(frame_back, vec![10, 20, 30]);

    let sub_bytes = parsed.read_subjson_bytes(sub).expect("sub");
    assert_eq!(sub_bytes, br#"{"name":"Firefox","version":28}"#);

    let skel_bytes = parsed.root_json_bytes();
    assert!(skel_bytes.starts_with(br#"{"frame":{"$s":"#));
}

#[test]
fn read_subjson_bytes_rejects_typed_array() {
    let mut b = Builder::new();
    let typed = b.add_slab(&[1u32, 2, 3]);
    let skeleton = format!(r#"{{"x":{{"$s":{}}}}}"#, typed.index());
    let bytes = b.finish(skeleton.as_bytes());

    let parsed = ParsedFile::parse(&bytes).unwrap();
    let err = parsed
        .read_subjson_bytes(typed)
        .expect_err("should reject typed-array slab");
    match err {
        DecodeError::SlabTypeMismatch { index, expected, found } => {
            assert_eq!(index, 1);
            assert_eq!(expected, SlabType::Json);
            assert_eq!(found, SlabType::Uint32);
        }
        other => panic!("unexpected error variant: {other:?}"),
    }
}

#[test]
fn json_bytes_creates_json_slab() {
    let mut b = Builder::new();
    let p = b.add_slab(JsonBytes(b"[1,2,3]"));
    let skeleton = format!(r#"{{"x":{{"$s":{}}}}}"#, p.index());
    let bytes = b.finish(skeleton.as_bytes());
    let parsed = ParsedFile::parse(&bytes).unwrap();
    let slab = parsed.slab_at(p).unwrap();
    assert_eq!(slab.slab_type, SlabByteFormat::Json);
    assert_eq!(slab.bytes, b"[1,2,3]");
}

#[test]
fn placeholder_construct_and_inspect() {
    let p = SlabPlaceholder(42);
    assert_eq!(p.index(), 42);
    assert_eq!(p.to_string(), "42");
    assert_eq!(p.to_json_string(), r#"{"$s":42}"#);
}

#[test]
fn to_writer_matches_finish() {
    let frame: &[i32] = &[1, 2, -3, i32::MAX];
    let weights = f64_bytes(&[0.5, 1.0, 1.5]);
    let skeleton = r#"{"f":{"$s":1},"w":{"$s":2}}"#;

    let mut b1 = Builder::new();
    let _ = b1.add_slab(frame);
    let _ = b1.add_slab_bytes(SlabBytes { slab_type: SlabByteFormat::F64LE, bytes: &weights });
    let from_finish = b1.finish(skeleton.as_bytes());

    let mut b2 = Builder::new();
    let _ = b2.add_slab(frame);
    let _ = b2.add_slab_bytes(SlabBytes { slab_type: SlabByteFormat::F64LE, bytes: &weights });
    let mut buf: Vec<u8> = Vec::new();
    b2.to_writer(skeleton.as_bytes(), &mut buf);

    assert_eq!(from_finish, buf);
    let parsed = ParsedFile::parse(&buf).expect("parse");
    assert_eq!(parsed.slabs().len(), 3);
}

#[test]
fn add_slab_bytes_with_runtime_type() {
    // Raw little-endian bytes for [-1i16, 0, 1].
    let raw: [u8; 6] = [0xff, 0xff, 0x00, 0x00, 0x01, 0x00];
    let mut b = Builder::new();
    let p = b.add_slab_bytes(SlabBytes { slab_type: SlabByteFormat::I16LE, bytes: &raw });
    let skeleton = format!(r#"{{"x":{{"$s":{}}}}}"#, p.index());
    let bytes = b.finish(skeleton.as_bytes());
    let parsed = ParsedFile::parse(&bytes).unwrap();
    let back: Vec<i16> = parsed.read(p).unwrap();
    assert_eq!(back, vec![-1, 0, 1]);
}

#[test]
fn slab_index_out_of_range_is_structured_error() {
    let b: Builder = Builder::new();
    let bytes = b.finish(b"{}");
    let parsed = ParsedFile::parse(&bytes).unwrap();
    // `f64` is not an integer slab element; the out-of-range check comes
    // first whatever the element type, so `u64` stands in for it here.
    let err = parsed.read::<u64>(SlabPlaceholder(7)).expect_err("should reject");
    match err {
        DecodeError::SlabIndexOutOfRange { index, slab_count } => {
            assert_eq!(index, 7);
            assert_eq!(slab_count, 1);
        }
        other => panic!("unexpected: {other:?}"),
    }
    let err = parsed.read_raw(SlabPlaceholder(7)).expect_err("should reject");
    assert_eq!(err, DecodeError::SlabIndexOutOfRange { index: 7, slab_count: 1 });
}

#[test]
fn slab_offsets_are_aligned() {
    let mut b = Builder::new();
    let a = b.add_slab(&[1u8, 2, 3]);
    let c = b.add_slab(&[10u16]);
    let d = b.add_slab(&[100u32, 200, 300]);
    let e_bytes = f64_bytes(&[1.5, 2.5]);
    let e = b.add_slab_bytes(SlabBytes { slab_type: SlabByteFormat::F64LE, bytes: &e_bytes });
    let skeleton = format!(
        r#"{{"a":{{"$s":{}}},"c":{{"$s":{}}},"d":{{"$s":{}}},"e":{{"$s":{}}}}}"#,
        a.index(),
        c.index(),
        d.index(),
        e.index(),
    );
    let bytes = b.finish(skeleton.as_bytes());
    let parsed = ParsedFile::parse(&bytes).unwrap();
    for (i, slab) in parsed.slabs().iter().enumerate() {
        let elem_size = slab.slab_type.element_size();
        let start = slab.bytes.as_ptr() as usize - bytes.as_ptr() as usize;
        assert_eq!(
            start % elem_size,
            0,
            "slab {i} ({:?}) starts at offset {start}, not a multiple of {elem_size}",
            slab.slab_type
        );
    }
}

fn check_roundtrip<T: BorrowedSlab + PartialEq + Debug>(vals: &[T]) {
    let mut b = Builder::new();
    let p = b.add_slab(vals);
    let skeleton = format!(r#"{{"x":{{"$s":{}}}}}"#, p.index());
    let bytes = b.finish(skeleton.as_bytes());
    let parsed = ParsedFile::parse(&bytes).unwrap();
    let back: Vec<T> = parsed.read::<T>(p).unwrap();
    assert_eq!(back, vals.to_vec());
}

fn check_float_roundtrip<const N: usize>(
    format: SlabByteFormat,
    bytes_of: impl Fn(&[u8]) -> Vec<u8>,
    raw: &[u8],
) {
    let mut b = Builder::new();
    let p = b.add_slab_bytes(SlabBytes { slab_type: format, bytes: raw });
    let skeleton = format!(r#"{{"x":{{"$s":{}}}}}"#, p.index());
    let bytes = b.finish(skeleton.as_bytes());
    let parsed = ParsedFile::parse(&bytes).unwrap();
    let back = parsed.read_raw(p).unwrap();
    assert_eq!(bytes_of(back), raw.to_vec());
    assert_eq!(back.len() % N, 0);
}

#[test]
fn all_element_types_roundtrip() {
    check_roundtrip::<i8>(&[-1_i8, 0, 127]);
    check_roundtrip::<u8>(&[1_u8, 2, 255]);
    check_roundtrip::<i16>(&[-1000_i16, 1000]);
    check_roundtrip::<u16>(&[0_u16, 65535]);
    check_roundtrip::<i32>(&[-100_000_i32, 100_000]);
    check_roundtrip::<u32>(&[1_u32, 4_000_000_000]);
    let f32s = [1.5_f32, -2.5];
    check_float_roundtrip::<4>(SlabByteFormat::F32LE, |b| b.to_vec(), &f32_bytes(&f32s));
    let f32_back: Vec<f32> = f32_bytes(&f32s)
        .chunks_exact(4)
        .map(|c| f32::from_le_bytes([c[0], c[1], c[2], c[3]]))
        .collect();
    assert_eq!(f32_back, f32s.to_vec());
    let f64s = [std::f64::consts::PI, -1e100];
    check_float_roundtrip::<8>(SlabByteFormat::F64LE, |b| b.to_vec(), &f64_bytes(&f64s));
    let f64_back: Vec<f64> = f64_bytes(&f64s)
        .chunks_exact(8)
        .map(|c| f64::from_le_bytes([c[0], c[1], c[2], c[3], c[4], c[5], c[6], c[7]]))
        .collect();
    assert_eq!(f64_back, f64s.to_vec());
    check_roundtrip::<i64>(&[i64::MIN, 0, i64::MAX]);
    check_roundtrip::<u64>(&[0_u64, u64::MAX]);
}

#[test]
fn slab_directory_read_matches_parse() {
    let mut b = Builder::new();
    let frame = b.add_slab(&[10i32, 20, 30]);
    let sub = b.add_slab(JsonBytes(br#"{"name":"Firefox"}"#));
    let skeleton = format!(
        r#"{{"frame":{{"$s":{}}},"meta":{{"$s":{}}}}}"#,
        frame.index(),
        sub.index(),
    );
    let bytes = b.finish(skeleton.as_bytes());

    let from_buf = SlabDirectory::parse(&bytes).unwrap();
    let from_stream = {
        let mut cursor = std::io::Cursor::new(&bytes);
        read_directory(&mut cursor).unwrap()
    };

    assert_eq!(from_buf.header.slab_count, from_stream.header.slab_count);
    assert_eq!(
        from_buf.header.root_json_slab_index,
        from_stream.header.root_json_slab_index,
    );
    assert_eq!(from_buf.entries.len(), from_stream.entries.len());
    for (a, b) in from_buf.entries.iter().zip(&from_stream.entries) {
        assert_eq!(a.slab_type, b.slab_type);
        assert_eq!(a.start_offset, b.start_offset);
        assert_eq!(a.byte_length, b.byte_length);
    }

    from_buf.validate_extents(bytes.len() as u64).unwrap();
    assert_eq!(from_buf.root_entry().slab_type, SlabType::Json);
    assert_eq!(
        from_buf.header_and_table_size(),
        from_buf.root_entry().start_offset,
        "no gap between slab table and the root JSON slab in this file",
    );
}

#[test]
fn slab_directory_read_leaves_cursor_after_table() {
    let mut b = Builder::new();
    let p = b.add_slab(&[1u32, 2, 3]);
    let skeleton = format!(r#"{{"x":{{"$s":{}}}}}"#, p.index());
    let bytes = b.finish(skeleton.as_bytes());

    let mut cursor = std::io::Cursor::new(&bytes);
    let dir = read_directory(&mut cursor).unwrap();
    assert_eq!(cursor.position(), dir.header_and_table_size());
}

#[test]
fn slab_directory_validate_extents_rejects_overrun() {
    let mut b = Builder::new();
    let _ = b.add_slab(&[1u32, 2, 3]);
    let bytes = b.finish(br#"{}"#);
    let dir = SlabDirectory::parse(&bytes).unwrap();
    let short = (bytes.len() - 1) as u64;
    assert!(dir.validate_extents(short).is_err());
}

#[test]
fn slab_elems_encode_little_endian() {
    let vals = [1i32, -2];
    let e = SlabElems::I32(&vals);
    assert_eq!(e.format(), SlabByteFormat::I32LE);
    assert_eq!(e.byte_length(), 8);
    let mut out = vec![9u8];
    e.write_to(&mut out);
    assert_eq!(out, vec![9, 1, 0, 0, 0, 0xFE, 0xFF, 0xFF, 0xFF]);

    let raw = [7u8, 8, 9];
    let b = SlabElems::Bytes(SlabByteFormat::Json, &raw);
    assert_eq!(b.format(), SlabByteFormat::Json);
    assert_eq!(b.byte_length(), 3);
    let mut out = Vec::new();
    b.write_to(&mut out);
    assert_eq!(out, vec![7, 8, 9]);
}

#[test]
fn add_slab_borrows_a_vec_until_finish() {
    let data: Vec<u16> = vec![1, 0x0203, u16::MAX];
    let same: Vec<u16> = data.clone();
    let mut b1 = Builder::new();
    let p1 = b1.add_slab(data.as_slice());
    let mut b2 = Builder::new();
    let p2 = b2.add_slab_from_vec(same);
    assert_eq!(p1, p2);
    let skeleton = format!(r#"{{"x":{{"$s":{}}}}}"#, p1.index());
    let bytes1 = b1.finish(skeleton.as_bytes());
    let bytes2 = b2.finish(skeleton.as_bytes());
    assert_eq!(bytes1, bytes2);
    let parsed = ParsedFile::parse(&bytes1).unwrap();
    assert_eq!(parsed.read::<u16>(p1).unwrap(), data);
    let raw = parsed.slab_at(p1).unwrap().bytes.to_vec();
    assert_eq!(raw, vec![1, 0, 3, 2, 0xFF, 0xFF]);
}

#[test]
fn add_slab_from_iter_reads_back_the_items() {
    let mut b = Builder::new();
    let _ = b.add_slab(&[5u8]);
    let p = b.add_slab_from_iter(4, (0..4i64).map(|i| i * -3));
    assert_eq!(p.index(), 2);
    let bytes = b.finish(b"{}");
    let parsed = ParsedFile::parse(&bytes).unwrap();
    assert_eq!(parsed.read::<i64>(p).unwrap(), vec![0, -3, -6, -9]);
}

#[test]
fn finished_table_rows_are_aligned_and_ordered() {
    let mut b = Builder::new();
    let _ = b.add_slab(&[1u8, 2, 3]);
    let _ = b.add_slab(&[7u64]);
    let _ = b.add_json_slab(b"[true]".to_vec());
    let _ = b.add_slab(&[1i16, 2, 3]);
    let root = br#"{"r":1}"#;
    let bytes = b.finish(root);
    let dir = SlabDirectory::parse(&bytes).unwrap();
    assert_eq!(dir.entries.len(), 5);
    assert_eq!(dir.entries[0].slab_type, SlabType::Json);
    assert_eq!(dir.entries[0].start_offset, 20 + 12 * 5);
    assert_eq!(dir.entries[0].byte_length, root.len() as u64);
    for e in &dir.entries {
        let size = e.slab_type.element_size() as u64;
        assert_eq!(e.start_offset % size, 0);
        assert_eq!(e.byte_length % size, 0);
    }
    for w in dir.entries.windows(2) {
        assert!(w[0].start_offset + w[0].byte_length <= w[1].start_offset);
    }
    assert_eq!(dir.entries[2].start_offset % 8, 0);
}
