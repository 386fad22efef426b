//! End-to-end tests for rendering a `.jslb` file as JSON: files are built
//! in memory with `Builder`, their skeletons tokenized with `actson`, and
//! walked with `SkeletonWalker` into a `JsonEmitter`.

use actson::feeder::SliceJsonFeeder;
use actson::{JsonEvent, JsonParser};
use json_slabs::format::{SlabTableEntry, SlabType};
use json_slabs::read::SlabDirectory;
use json_slabs::skeleton::{SkeletonEvent, SkeletonWalker, VisitorCall};
use json_slabs::to_json::{chunk_capacity, resolve_placeholder, JsonEmitter, RenderError};
use json_slabs::util::check_walkable;
use json_slabs::write::{Builder, JsonBytes};
use json_writer::JSONWriterValue;

fn slab_bytes<'a>(file: &'a [u8], e: &SlabTableEntry) -> &'a [u8] {
    let start = e.start_offset as usize;
    &file[start..start + e.byte_length as usize]
}

fn convert(ev: JsonEvent, parser: &JsonParser<SliceJsonFeeder<'_>>) -> Result<SkeletonEvent, String> {
    let text = || parser.current_str().map(|s| s.to_string()).map_err(|e| format!("{e}"));
    Ok(match ev {
        JsonEvent::StartObject => SkeletonEvent::StartObject,
        JsonEvent::EndObject => SkeletonEvent::EndObject,
        JsonEvent::StartArray => SkeletonEvent::StartArray,
        JsonEvent::EndArray => SkeletonEvent::EndArray,
        JsonEvent::FieldName => SkeletonEvent::FieldName(text()?),
        JsonEvent::ValueString => SkeletonEvent::ValueString(text()?),
        JsonEvent::ValueInt => SkeletonEvent::ValueInt(text()?),
        JsonEvent::ValueFloat => SkeletonEvent::ValueFloat(text()?),
        JsonEvent::ValueTrue => SkeletonEvent::ValueTrue,
        JsonEvent::ValueFalse => SkeletonEvent::ValueFalse,
        JsonEvent::ValueNull => SkeletonEvent::ValueNull,
        JsonEvent::NeedMoreInput => return Err("unexpected NeedMoreInput".to_string()),
    })
}

trait Sink {
    fn call(&mut self, c: VisitorCall, file: &[u8], dir: &SlabDirectory) -> Result<(), String>;
}

/// Walk JSON slab `idx` of `file`, handing each visitor call to `sink`.
fn walk<S: Sink>(file: &[u8], dir: &SlabDirectory, idx: usize, sink: &mut S) -> Result<(), String> {
    let json = slab_bytes(file, &dir.entries[idx]);
    let mut parser = JsonParser::new(SliceJsonFeeder::new(json));
    let mut walker = SkeletonWalker::new();
    while walker.is_open() {
        let ev = loop {
            match parser.next_event().map_err(|e| format!("parsing JSON skeleton: {e}"))? {
                Some(JsonEvent::NeedMoreInput) => continue,
                Some(ev) => break Some(convert(ev, &parser)?),
                None => break None,
            }
        };
        assert!(walker.has_index_room());
        let mut calls = Vec::new();
        let r = walker.step(ev, &mut calls);
        for c in calls {
            sink.call(c, file, dir)?;
        }
        r.map_err(|e| format!("{e:?}"))?;
    }
    Ok(())
}

struct Emit {
    emitter: JsonEmitter,
    out: String,
}

impl Emit {
    fn take(&mut self, d: Option<String>) {
        if let Some(s) = d {
            self.out.push_str(&s);
        }
    }
}

fn float_text(t: SlabType, c: &[u8]) -> String {
    let mut s = String::new();
    match t {
        SlabType::Float32 => f32::from_le_bytes([c[0], c[1], c[2], c[3]]).write_json(&mut s),
        _ => f64::from_le_bytes([c[0], c[1], c[2], c[3], c[4], c[5], c[6], c[7]]).write_json(&mut s),
    }
    s
}

impl Sink for Emit {
    fn call(&mut self, c: VisitorCall, file: &[u8], dir: &SlabDirectory) -> Result<(), String> {
        match c {
            VisitorCall::Placeholder(idx) => {
                let slab = resolve_placeholder(&dir.entries, idx).map_err(|e| match e {
                    RenderError::SlabIndexOutOfRange(i) => format!("slab index {i} out of range"),
                })?;
                if slab.slab_type == SlabType::Json {
                    return walk(file, dir, idx, self);
                }
                let bytes = slab_bytes(file, &slab);
                self.emitter.begin_typed_array();
                let mut first = true;
                let cap = chunk_capacity(slab.slab_type);
                for chunk in bytes.chunks(cap) {
                    match slab.slab_type {
                        SlabType::Float32 | SlabType::Float64 => {
                            let size = slab.slab_type.element_size();
                            for e in chunk.chunks_exact(size) {
                                let text = float_text(slab.slab_type, e);
                                let d = self.emitter.typed_element_text(first, &text);
                                first = false;
                                self.take(d);
                            }
                        }
                        t => {
                            let (still_first, handed) = self.emitter.typed_elements(t, chunk, first);
                            first = still_first;
                            self.out.push_str(&handed);
                        }
                    }
                }
                let d = self.emitter.end_typed_array();
                self.take(d);
                Ok(())
            }
            other => {
                let d = self.emitter.visit(&other);
                self.take(d);
                Ok(())
            }
        }
    }
}

fn render(file: &[u8]) -> Result<String, String> {
    let dir = SlabDirectory::parse(file).map_err(|e| format!("{e:?}"))?;
    check_walkable(&dir, file.len() as u64).map_err(|e| format!("{e:?}"))?;
    let mut sink = Emit { emitter: JsonEmitter::new(), out: String::new() };
    walk(file, &dir, dir.root_json_index(), &mut sink)?;
    let rest = sink.emitter.flush();
    sink.out.push_str(&rest);
    Ok(sink.out)
}

#[test]
fn covers_all_typed_arrays_and_subjson() {
    let f32s_bytes: Vec<u8> = [0.5f32, -1.25].iter().flat_map(|v| v.to_le_bytes()).collect();
    let f64s_bytes: Vec<u8> = [1.0f64, 0.5, -0.25].iter().flat_map(|v| v.to_le_bytes()).collect();
    let mut b = Builder::new();
    let i8s = b.add_slab(&[-1i8, 0, 1]);
    let u8s = b.add_slab(&[0u8, 255]);
    let i16s = b.add_slab(&[i16::MIN, 0, i16::MAX]);
    let u16s = b.add_slab(&[0u16, u16::MAX]);
    let i32s = b.add_slab(&[i32::MIN, 0, i32::MAX]);
    let u32s = b.add_slab(&[0u32, u32::MAX]);
    let f32s = b.add_slab_bytes(json_slabs::SlabBytes {
        slab_type: json_slabs::SlabByteFormat::F32LE,
        bytes: &f32s_bytes,
    });
    let f64s = b.add_slab_bytes(json_slabs::SlabBytes {
        slab_type: json_slabs::SlabByteFormat::F64LE,
        bytes: &f64s_bytes,
    });
    let i64s = b.add_slab(&[-1i64, 0, 1]);
    let u64s = b.add_slab(&[0u64, 1, 2]);

    // Sub-JSON slab whose own skeleton contains a placeholder.
    let nested_u8 = b.add_slab(&[7u8, 8, 9]);
    let sub = format!(r#"{{"items":{{"$s":{}}},"label":"nested"}}"#, nested_u8.index());
    let sub_idx = b.add_slab(JsonBytes(sub.as_bytes()));

    let skeleton = format!(
        r#"{{
            "i8":  {{"$s":{}}},
            "u8":  {{"$s":{}}},
            "i16": {{"$s":{}}},
            "u16": {{"$s":{}}},
            "i32": {{"$s":{}}},
            "u32": {{"$s":{}}},
            "f32": {{"$s":{}}},
            "f64": {{"$s":{}}},
            "i64": {{"$s":{}}},
            "u64": {{"$s":{}}},
            "sub": {{"$s":{}}}
        }}"#,
        i8s.index(),
        u8s.index(),
        i16s.index(),
        u16s.index(),
        i32s.index(),
        u32s.index(),
        f32s.index(),
        f64s.index(),
        i64s.index(),
        u64s.index(),
        sub_idx.index(),
    );
    let bytes = b.finish(skeleton.as_bytes());
    let got = render(&bytes).unwrap();
    assert_eq!(
        got,
        [
            r#"{"i8":[-1,0,1],"u8":[0,255],"i16":[-32768,0,32767],"u16":[0,65535],"#,
            r#""i32":[-2147483648,0,2147483647],"u32":[0,4294967295],"f32":[0.5,-1.25],"#,
            r#""f64":[1,0.5,-0.25],"i64":[-1,0,1],"u64":[0,1,2],"#,
            r#""sub":{"items":[7,8,9],"label":"nested"}}"#,
        ]
        .concat()
    );
}

#[test]
fn dollar_s_plus_other_key_is_regular_object() {
    let mut b = Builder::new();
    let payload = b.add_slab(&[1u8, 2, 3]);
    let p = payload.index();
    let skel = format!(r#"{{"$s":{p},"tag":"real","other":{{"$s":{p}}}}}"#);
    let bytes = b.finish(skel.as_bytes());
    let got = render(&bytes).unwrap();
    assert_eq!(got, format!(r#"{{"$s":{p},"tag":"real","other":[1,2,3]}}"#));
}

#[test]
fn dollar_s_with_non_integer_is_regular_object() {
    let b: Builder = Builder::new();
    let bytes = b.finish(br#"{"$s":"hello"}"#);
    assert_eq!(render(&bytes).unwrap(), r#"{"$s":"hello"}"#);
}

#[test]
fn dollar_s_with_negative_is_regular_object() {
    let b: Builder = Builder::new();
    let bytes = b.finish(br#"{"$s":-1}"#);
    assert_eq!(render(&bytes).unwrap(), r#"{"$s":-1}"#);
}

#[test]
fn placeholder_nested_in_real_object() {
    let mut b = Builder::new();
    let payload = b.add_slab(&[10i32, 20, 30]);
    let skel = format!(r#"{{"foo":{{"$s":{}}}}}"#, payload.index());
    let bytes = b.finish(skel.as_bytes());
    assert_eq!(render(&bytes).unwrap(), r#"{"foo":[10,20,30]}"#);
}

#[test]
fn large_typed_array_streams_correctly() {
    let n = 100_000usize;
    let data: Vec<i32> = (0..n as i32).collect();
    let mut b = Builder::new();
    let idx = b.add_slab(&data[..]);
    let skel = format!(r#"{{"big":{{"$s":{}}}}}"#, idx.index());
    let bytes = b.finish(skel.as_bytes());
    let got = render(&bytes).unwrap();
    let inner = got.strip_prefix(r#"{"big":["#).unwrap().strip_suffix("]}").unwrap();
    let items: Vec<i64> = inner.split(',').map(|s| s.parse().unwrap()).collect();
    assert_eq!(items.len(), n);
    assert_eq!(items[0], 0);
    assert_eq!(items[n - 1], (n - 1) as i64);
    assert_eq!(items[n / 2], (n / 2) as i64);
}

#[test]
fn placeholder_then_long_string_does_not_corrupt_parser() {
    let mut b = Builder::new();
    let payload = b.add_slab(&[1i32, 2, 3]);
    let big = "x".repeat(100 * 1024);
    let skel = format!(r#"{{"big":{{"$s":{}}},"note":"{big}"}}"#, payload.index());
    let bytes = b.finish(skel.as_bytes());
    let got = render(&bytes).unwrap();
    assert_eq!(got, format!(r#"{{"big":[1,2,3],"note":"{big}"}}"#));
}

#[test]
fn empty_containers() {
    let b: Builder = Builder::new();
    let bytes = b.finish(br#"{"obj":{},"arr":[],"both":[{},[]]}"#);
    assert_eq!(render(&bytes).unwrap(), r#"{"obj":{},"arr":[],"both":[{},[]]}"#);
}

#[test]
fn booleans_and_null() {
    let b: Builder = Builder::new();
    let bytes = b.finish(br#"{"a":true,"b":false,"c":null,"d":[true,null,false]}"#);
    assert_eq!(
        render(&bytes).unwrap(),
        r#"{"a":true,"b":false,"c":null,"d":[true,null,false]}"#
    );
}

#[test]
fn strings_with_escapes() {
    let b: Builder = Builder::new();
    let bytes = b.finish(r#"{"k":"hello\nworld","u":"snow☃man","q":"a\"b"}"#.as_bytes());
    assert_eq!(
        render(&bytes).unwrap(),
        r#"{"k":"hello\nworld","u":"snow☃man","q":"a\"b"}"#
    );
}

#[test]
fn out_of_range_slab_index_errors() {
    let b: Builder = Builder::new();
    let bytes = b.finish(br#"{"x":{"$s":99}}"#);
    let err = render(&bytes).unwrap_err();
    assert!(err.contains("slab index 99 out of range"), "error: {err:?}");
}

#[test]
fn numbers_keep_their_spelling() {
    let b: Builder = Builder::new();
    let bytes = b.finish(br#"[1.50,-0,1e3,12345678901234567890123]"#);
    assert_eq!(render(&bytes).unwrap(), "[1.50,-0,1e3,12345678901234567890123]");
}

#[test]
fn trailing_content_after_skeleton_is_an_error() {
    let b: Builder = Builder::new();
    let bytes = b.finish(br#"{} {}"#);
    assert!(render(&bytes).is_err());
}

#[test]
fn placeholder_as_the_whole_skeleton_resolves() {
    let mut b = Builder::new();
    let payload = b.add_slab(&[5u16, 6]);
    let skel = format!(r#"{{"$s":{}}}"#, payload.index());
    let bytes = b.finish(skel.as_bytes());
    assert_eq!(render(&bytes).unwrap(), "[5,6]");
}
