//! Tests of the logic behind the `jslb` tools: path components, the
//! skeleton walk, slab paths, the `ls` table, `explode` file names and
//! the small helpers.

use actson::feeder::SliceJsonFeeder;
use actson::{JsonEvent, JsonParser};
use json_slabs::explode::{file_name, file_names_of, report_line};
use json_slabs::format::{Header, SlabTableEntry, SlabType};
use json_slabs::ls::{format_table, table_lines};
use json_slabs::paths::{format_index, format_key, is_simple_identifier, PathFinder};
use json_slabs::read::{ParseError, SlabDirectory};
use json_slabs::skeleton::{
    is_ref_key, parse_index, SkeletonEvent, SkeletonWalker, VisitorCall, WalkError,
};
use json_slabs::to_json::{write_typed_elem, JsonEmitter, DRAIN_THRESHOLD};
use json_slabs::util::{check_walkable, digits, fill_step, FillStep, ReadOutcome};
use json_slabs::write::{Builder, JsonBytes};
use json_slabs::ParsedFile;

fn events(json: &[u8]) -> Vec<Option<SkeletonEvent>> {
    let mut parser = JsonParser::new(SliceJsonFeeder::new(json));
    let mut out = Vec::new();
    loop {
        let ev = parser.next_event().unwrap();
        let text = |p: &JsonParser<SliceJsonFeeder<'_>>| p.current_str().unwrap().to_string();
        let e = match ev {
            None => {
                out.push(None);
                return out;
            }
            Some(JsonEvent::NeedMoreInput) => continue,
            Some(JsonEvent::StartObject) => SkeletonEvent::StartObject,
            Some(JsonEvent::EndObject) => SkeletonEvent::EndObject,
            Some(JsonEvent::StartArray) => SkeletonEvent::StartArray,
            Some(JsonEvent::EndArray) => SkeletonEvent::EndArray,
            Some(JsonEvent::FieldName) => SkeletonEvent::FieldName(text(&parser)),
            Some(JsonEvent::ValueString) => SkeletonEvent::ValueString(text(&parser)),
            Some(JsonEvent::ValueInt) => SkeletonEvent::ValueInt(text(&parser)),
            Some(JsonEvent::ValueFloat) => SkeletonEvent::ValueFloat(text(&parser)),
            Some(JsonEvent::ValueTrue) => SkeletonEvent::ValueTrue,
            Some(JsonEvent::ValueFalse) => SkeletonEvent::ValueFalse,
            Some(JsonEvent::ValueNull) => SkeletonEvent::ValueNull,
        };
        out.push(Some(e));
    }
}

/// All visitor calls of a walk, or the first error.
fn walk_calls(evs: Vec<Option<SkeletonEvent>>) -> Result<Vec<VisitorCall>, WalkError> {
    let mut w = SkeletonWalker::new();
    let mut calls = Vec::new();
    for ev in evs {
        if !w.is_open() {
            break;
        }
        w.step(ev, &mut calls)?;
    }
    assert!(w.is_finished());
    Ok(calls)
}

fn describe(calls: &[VisitorCall]) -> Vec<String> {
    calls
        .iter()
        .map(|c| match c {
            VisitorCall::EnterObject => "{".to_string(),
            VisitorCall::ExitObject(e) => format!("}}{}", if *e { "e" } else { "" }),
            VisitorCall::EnterArray => "[".to_string(),
            VisitorCall::ExitArray(e) => format!("]{}", if *e { "e" } else { "" }),
            VisitorCall::ObjectKey(k, f) => format!("key:{k}:{f}"),
            VisitorCall::ArrayElement(i) => format!("elem:{i}"),
            VisitorCall::ValueString(s) => format!("str:{s}"),
            VisitorCall::ValueNumber(s) => format!("num:{s}"),
            VisitorCall::ValueTrue => "true".to_string(),
            VisitorCall::ValueFalse => "false".to_string(),
            VisitorCall::ValueNull => "null".to_string(),
            VisitorCall::Placeholder(i) => format!("ref:{i}"),
        })
        .collect()
}

fn walk_str(json: &str) -> Vec<String> {
    describe(&walk_calls(events(json.as_bytes())).unwrap())
}

#[test]
fn key_components() {
    assert_eq!(format_key("frame"), ".frame");
    assert_eq!(format_key("_x1"), "._x1");
    assert_eq!(format_key("a b"), r#"["a b"]"#);
    assert_eq!(format_key("1a"), r#"["1a"]"#);
    assert_eq!(format_key(""), r#"[""]"#);
    assert_eq!(format_key("a/b"), r#"["a\/b"]"#);
    assert_eq!(format_key("q\"t"), r#"["q\"t"]"#);
    assert_eq!(format_key("line\nbreak\t"), r#"["line\nbreak\t"]"#);
    assert_eq!(format_key("\u{1}\u{1f}\\"), r#"["\u0001\u001F\\"]"#);
    assert_eq!(format_key("snow☃"), r#"["snow☃"]"#);
    assert_eq!(format_index(0), "[0]");
    assert_eq!(format_index(1234), "[1234]");
}

#[test]
fn simple_identifiers() {
    assert!(is_simple_identifier("a"));
    assert!(is_simple_identifier("_"));
    assert!(is_simple_identifier("Z9_z"));
    assert!(!is_simple_identifier(""));
    assert!(!is_simple_identifier("9a"));
    assert!(!is_simple_identifier("a-b"));
    assert!(!is_simple_identifier("é"));
}

#[test]
fn index_literals_read_as_usize_parse_does() {
    for text in ["0", "7", "+5", "007", "18446744073709551615", "-0", "-1", "", "+", "1.5", "1e3", " 1", "18446744073709551616"] {
        assert_eq!(parse_index(text), text.parse::<usize>().ok(), "text {text:?}");
    }
    assert!(is_ref_key("$s"));
    assert!(!is_ref_key("$"));
    assert!(!is_ref_key("$ss"));
    assert!(!is_ref_key("s"));
}

#[test]
fn placeholder_is_a_single_call() {
    assert_eq!(walk_str(r#"{"$s":3}"#), vec!["ref:3"]);
    assert_eq!(walk_str(r#"[{"$s":0},{"$s":1}]"#), vec!["[", "elem:0", "ref:0", "elem:1", "ref:1", "]"]);
}

#[test]
fn dollar_s_objects_are_replayed() {
    assert_eq!(walk_str(r#"{"$s":3,"a":1}"#), vec!["{", "key:$s:true", "num:3", "key:a:false", "num:1", "}"]);
    assert_eq!(walk_str(r#"{"$s":"x"}"#), vec!["{", "key:$s:true", "str:x", "}"]);
    assert_eq!(walk_str(r#"{"$s":-1}"#), vec!["{", "key:$s:true", "num:-1", "}"]);
    assert_eq!(walk_str(r#"{"$s":{"$s":2}}"#), vec!["{", "key:$s:true", "ref:2", "}"]);
    assert_eq!(walk_str(r#"{"$s":[]}"#), vec!["{", "key:$s:true", "[", "]e", "}"]);
    assert_eq!(walk_str(r#"{"b":{"$s":2}}"#), vec!["{", "key:b:true", "ref:2", "}"]);
}

#[test]
fn containers_and_scalars() {
    assert_eq!(walk_str("{}"), vec!["{", "}e"]);
    assert_eq!(walk_str("[]"), vec!["[", "]e"]);
    assert_eq!(walk_str(r#"[1,"a",true,false,null,2.5]"#), vec!["[", "elem:0", "num:1", "elem:1", "str:a", "elem:2", "true", "elem:3", "false", "elem:4", "null", "elem:5", "num:2.5", "]"]);
    assert_eq!(walk_str(r#"{"a":{},"b":[[]]}"#), vec!["{", "key:a:true", "{", "}e", "key:b:false", "[", "elem:0", "[", "]e", "]", "}"]);
    assert_eq!(walk_str("42"), vec!["num:42"]);
}

#[test]
fn walk_errors() {
    assert_eq!(walk_calls(vec![None]).unwrap_err(), WalkError::EndInValue);
    assert_eq!(walk_calls(vec![Some(SkeletonEvent::StartObject), None]).unwrap_err(), WalkError::EndInObject);
    assert_eq!(
        walk_calls(vec![Some(SkeletonEvent::StartObject), Some(SkeletonEvent::FieldName("$s".into())), None]).unwrap_err(),
        WalkError::EndAfterRefKey
    );
    assert_eq!(
        walk_calls(vec![Some(SkeletonEvent::StartObject), Some(SkeletonEvent::FieldName("$s".into())), Some(SkeletonEvent::ValueInt("1".into())), None])
            .unwrap_err(),
        WalkError::EndAfterRefValue
    );
    assert_eq!(walk_calls(vec![Some(SkeletonEvent::StartArray), None]).unwrap_err(), WalkError::EndInArray);
    assert!(matches!(walk_calls(vec![Some(SkeletonEvent::EndArray)]), Err(WalkError::UnexpectedInValue(_))));
    assert!(matches!(
        walk_calls(vec![Some(SkeletonEvent::StartObject), Some(SkeletonEvent::ValueNull)]),
        Err(WalkError::UnexpectedAfterStartObject(_))
    ));
    assert!(matches!(
        walk_calls(vec![
            Some(SkeletonEvent::StartObject),
            Some(SkeletonEvent::FieldName("$s".into())),
            Some(SkeletonEvent::ValueInt("1".into())),
            Some(SkeletonEvent::ValueNull)
        ]),
        Err(WalkError::UnexpectedAfterRefValue(_))
    ));
    assert!(matches!(
        walk_calls(vec![Some(SkeletonEvent::StartObject), Some(SkeletonEvent::FieldName("a".into())), Some(SkeletonEvent::ValueNull), Some(SkeletonEvent::ValueNull)]),
        Err(WalkError::UnexpectedInObject(_))
    ));
    assert!(matches!(walk_calls(vec![Some(SkeletonEvent::ValueNull), Some(SkeletonEvent::ValueNull)]), Err(WalkError::Trailing(_))));
}

#[test]
fn walk_keeps_calls_made_before_an_error() {
    let mut w = SkeletonWalker::new();
    let mut calls = Vec::new();
    w.step(Some(SkeletonEvent::StartArray), &mut calls).unwrap();
    let r = w.step(Some(SkeletonEvent::EndObject), &mut calls);
    assert!(matches!(r, Err(WalkError::UnexpectedInValue(_))));
    assert_eq!(describe(&calls), vec!["[", "elem:0"]);
    assert!(!w.is_open());
}

/// Record the first path of each slab by walking the skeletons of `file`.
fn find_paths(file: &[u8]) -> Vec<Option<String>> {
    let parsed = SlabDirectory::parse(file).unwrap();
    let mut finder = PathFinder::new(parsed.entries.len(), parsed.root_json_index());
    fn walk_slab(file: &[u8], dir: &SlabDirectory, idx: usize, finder: &mut PathFinder) {
        let e = dir.entries[idx];
        let json = &file[e.start_offset as usize..(e.start_offset + e.byte_length) as usize];
        for c in walk_calls(events(json)).unwrap() {
            if finder.visit(&c, &dir.entries) {
                if let VisitorCall::Placeholder(i) = c {
                    walk_slab(file, dir, i, finder);
                }
            }
        }
    }
    walk_slab(file, &parsed, parsed.root_json_index(), &mut finder);
    assert_eq!(finder.depth(), 0);
    finder.into_paths()
}

#[test]
fn paths_record_the_first_reference() {
    let mut b = Builder::new();
    let frame = b.add_slab(&[1i32, 2]);
    let unused = b.add_slab(&[1u8]);
    let sub = b.add_slab(JsonBytes(br#"{"inner":[{"$s":1}],"x y":{"$s":4}}"#));
    let tail = b.add_slab(&[1u16]);
    let skel = format!(
        r#"{{"frame":{{"$s":{}}},"list":[0,{{"$s":{}}}],"again":{{"$s":{}}}}}"#,
        frame.index(),
        sub.index(),
        frame.index()
    );
    let bytes = b.finish(skel.as_bytes());
    assert_eq!((unused.index(), tail.index()), (2, 4));
    let paths = find_paths(&bytes);
    assert_eq!(
        paths,
        vec![
            Some(".".to_string()),
            Some(".frame".to_string()),
            None,
            Some(".list[1]".to_string()),
            Some(r#".list[1]["x y"]"#.to_string()),
        ]
    );
}

#[test]
fn placeholder_at_top_records_dot_and_cycles_stop() {
    let mut b = Builder::new();
    let sub = b.add_slab(JsonBytes(br#"{"self":{"$s":1}}"#));
    let skel = format!(r#"{{"$s":{}}}"#, sub.index());
    let bytes = b.finish(skel.as_bytes());
    let paths = find_paths(&bytes);
    assert_eq!(paths, vec![Some(".".to_string()), Some(".".to_string())]);
}

/// The table as `jslb ls` printed it, rendered with `format!`.
fn reference_table(header: &Header, entries: &[SlabTableEntry], paths: Option<&[Option<String>]>) -> Vec<String> {
    const UNREFERENCED: &str = "(unreferenced)";
    let mut out = Vec::new();
    let byte_len = |e: &SlabTableEntry| e.byte_length as usize;
    let elem_count = |e: &SlabTableEntry| byte_len(e) / e.slab_type.element_size();
    let fmt_bytes = |n: usize| humansize::format_size(n as u64, humansize::DECIMAL);
    let total_bytes: usize = entries.iter().map(byte_len).sum();
    let idx_w = digits(entries.len().saturating_sub(1)).max(3);
    let bytes_w = entries
        .iter()
        .map(|e| fmt_bytes(byte_len(e)).len())
        .max()
        .unwrap_or(0)
        .max(fmt_bytes(total_bytes).len())
        .max(5);
    let elems_w = entries
        .iter()
        .filter(|e| e.slab_type != SlabType::Json)
        .map(|e| digits(elem_count(e)))
        .max()
        .unwrap_or(0)
        .max(8);
    let path_w = paths.map(|ps| {
        let max_resolved = ps.iter().filter_map(|p| p.as_ref()).map(|s| s.len()).max().unwrap_or(0);
        let unref_w = if ps.iter().any(|p| p.is_none()) { UNREFERENCED.len() } else { 0 };
        max_resolved.max(unref_w).max(4)
    });
    let rule = || match path_w {
        Some(pw) => format!("{0:-<idx_w$}  {0:-<7}  {0:->bytes_w$}  {0:->elems_w$}  {0:-<pw$}", ""),
        None => format!("{0:-<idx_w$}  {0:-<7}  {0:->bytes_w$}  {0:->elems_w$}", ""),
    };
    out.push(match path_w {
        Some(pw) => format!("{:>idx_w$}  {:<7}  {:>bytes_w$}  {:>elems_w$}  {:<pw$}", "idx", "type", "bytes", "elements", "path"),
        None => format!("{:>idx_w$}  {:<7}  {:>bytes_w$}  {:>elems_w$}", "idx", "type", "bytes", "elements"),
    });
    out.push(rule());
    for (i, entry) in entries.iter().enumerate() {
        let is_root = i == header.root_json_slab_index;
        let elems = if entry.slab_type == SlabType::Json { "-".to_string() } else { elem_count(entry).to_string() };
        let notes = if is_root { "  (root)" } else { "" };
        match (path_w, paths) {
            (Some(pw), Some(ps)) => {
                let path = ps[i].as_deref().unwrap_or(UNREFERENCED);
                out.push(format!(
                    "{i:>idx_w$}  {:<7}  {:>bytes_w$}  {:>elems_w$}  {:<pw$}{notes}",
                    entry.slab_type.name(),
                    fmt_bytes(byte_len(entry)),
                    elems,
                    path,
                ));
            }
            _ => out.push(format!(
                "{i:>idx_w$}  {:<7}  {:>bytes_w$}  {:>elems_w$}{notes}",
                entry.slab_type.name(),
                fmt_bytes(byte_len(entry)),
                elems,
            )),
        }
    }
    out.push(rule());
    let total_label = format!("{} slab{}", entries.len(), if entries.len() == 1 { "" } else { "s" });
    out.push(format!("{:>idx_w$}  {:<7}  {:>bytes_w$}", "", total_label, fmt_bytes(total_bytes)));
    out
}

fn sample_file() -> Vec<u8> {
    let mut b = Builder::new();
    let big: Vec<u32> = (0..3000).collect();
    let a = b.add_slab(&big[..]);
    let _unused = b.add_slab(&[1u8, 2, 3]);
    let sub = b.add_slab(JsonBytes("{\"ключ\":{\"$s\":1}}".as_bytes()));
    let skel = format!(r#"{{"a":{{"$s":{}}},"sub":{{"$s":{}}}}}"#, a.index(), sub.index());
    b.finish(skel.as_bytes())
}

#[test]
fn table_matches_the_format_rendering() {
    let bytes = sample_file();
    let dir = SlabDirectory::parse(&bytes).unwrap();
    let paths = find_paths(&bytes);
    let with_paths = table_lines(&dir.header, &dir.entries, Some(&paths));
    assert_eq!(with_paths, reference_table(&dir.header, &dir.entries, Some(&paths)));
    let without = table_lines(&dir.header, &dir.entries, None);
    assert_eq!(without, reference_table(&dir.header, &dir.entries, None));
    assert_eq!(without.len(), 4 + dir.entries.len());
    assert!(with_paths[5].trim_end().ends_with(".sub"));
    assert!(with_paths[2].contains("(root)"));
    assert!(with_paths[4].contains("(unreferenced)"));
}

#[test]
fn table_of_one_slab_says_slab() {
    let b: Builder = Builder::new();
    let bytes = b.finish(b"{}");
    let dir = SlabDirectory::parse(&bytes).unwrap();
    let lines = table_lines(&dir.header, &dir.entries, None);
    assert_eq!(lines.last().unwrap(), "     1 slab     2 B");
    assert_eq!(lines, reference_table(&dir.header, &dir.entries, None));
}

#[test]
fn table_with_given_sizes() {
    let header = Header { slab_count: 1, root_json_slab_index: 0 };
    let entries = [SlabTableEntry { slab_type: SlabType::Json, start_offset: 32, byte_length: 2 }];
    let lines = format_table(&header, &entries, None, &["two".to_string()], "sum");
    assert_eq!(lines[2], "  0  json       two         -  (root)");
    assert_eq!(lines[4], "     1 slab     sum");
}

#[test]
fn explode_names() {
    assert_eq!(file_name(3, 2, SlabType::Int32, false), "slab-03-i32.bin");
    assert_eq!(file_name(0, 2, SlabType::Json, true), "slab-00-json-root.json");
    assert_eq!(file_name(12, 2, SlabType::Json, false), "slab-12-json.json");
    assert_eq!(file_name(123, 1, SlabType::Float64, false), "slab-123-f64.bin");
    let bytes = sample_file();
    let dir = SlabDirectory::parse(&bytes).unwrap();
    let names = file_names_of(&dir);
    assert_eq!(names, vec!["slab-0-json-root.json", "slab-1-u32.bin", "slab-2-u8.bin", "slab-3-json.json"]);
    assert_eq!(report_line("slab-1-u32.bin", 12000), "slab-1-u32.bin  (12000 bytes)");
}

#[test]
fn digit_counts() {
    for n in [0usize, 1, 9, 10, 99, 100, 12345, usize::MAX] {
        assert_eq!(digits(n), n.to_string().len());
    }
}

#[test]
fn fill_steps() {
    assert_eq!(fill_step(0, 10, ReadOutcome::Read(4)), FillStep::Continue(4));
    assert_eq!(fill_step(4, 10, ReadOutcome::Read(6)), FillStep::Finished(10));
    assert_eq!(fill_step(4, 10, ReadOutcome::Read(0)), FillStep::Finished(4));
    assert_eq!(fill_step(4, 10, ReadOutcome::Interrupted), FillStep::Continue(4));
    assert_eq!(fill_step(4, 10, ReadOutcome::Failed), FillStep::Failed);
}

#[test]
fn walkable_checks() {
    let bytes = sample_file();
    let mut dir = SlabDirectory::parse(&bytes).unwrap();
    assert_eq!(check_walkable(&dir, bytes.len() as u64), Ok(()));
    assert_eq!(
        check_walkable(&dir, bytes.len() as u64 - 1),
        Err(ParseError::SlabDataOverrun { index: 3 })
    );
    dir.header.root_json_slab_index = 1;
    assert_eq!(check_walkable(&dir, bytes.len() as u64), Err(ParseError::RootNotJson));
}

#[test]
fn typed_elements_render_integers() {
    let mut s = String::new();
    write_typed_elem(&mut s, SlabType::Int8, &[0xff]);
    s.push(' ');
    write_typed_elem(&mut s, SlabType::Uint16, &[0x34, 0x12]);
    s.push(' ');
    write_typed_elem(&mut s, SlabType::Int32, &(-7i32).to_le_bytes());
    s.push(' ');
    write_typed_elem(&mut s, SlabType::Uint64, &u64::MAX.to_le_bytes());
    s.push(' ');
    write_typed_elem(&mut s, SlabType::Int64, &i64::MIN.to_le_bytes());
    assert_eq!(s, "-1 4660 -7 18446744073709551615 -9223372036854775808");

    let mut e = JsonEmitter::new();
    e.begin_typed_array();
    let (first, handed) = e.typed_elements(SlabType::Uint8, &[1, 2], true);
    assert!(!first && handed.is_empty());
    let (first, _) = e.typed_elements(SlabType::Uint16, &[9], first);
    assert!(!first);
    let (first, _) = e.typed_elements(SlabType::Uint8, &[3], first);
    assert!(!first);
    assert_eq!(e.end_typed_array(), None);
    assert_eq!(e.flush(), "[1,2,3]");
}

#[test]
fn emitter_drains_at_the_threshold() {
    let mut e = JsonEmitter::new();
    let long = "y".repeat(DRAIN_THRESHOLD - 2);
    assert_eq!(e.visit(&VisitorCall::ValueString(long.clone())), Some(format!("\"{long}\"")));
    assert_eq!(e.visit(&VisitorCall::EnterArray), None);
    assert_eq!(e.visit(&VisitorCall::ValueNull), None);
    assert_eq!(e.flush(), "[null");
    assert_eq!(e.flush(), "");
    assert_eq!(e.maybe_drain(), None);
    assert_eq!(e.visit(&VisitorCall::ObjectKey("k".into(), false)), None);
    assert_eq!(e.visit(&VisitorCall::ArrayElement(0)), None);
    assert_eq!(e.visit(&VisitorCall::ArrayElement(1)), None);
    assert_eq!(e.typed_element_text(false, "0.5"), None);
    assert_eq!(e.flush(), ",\"k\":,,0.5");
}

#[test]
fn builder_from_iter_matches_slice() {
    let mut b = Builder::new();
    let p = b.add_slab_from_iter(4, vec![1i16, -2, 3, -4].into_iter());
    let bytes = b.finish(br#"{"v":{"$s":1}}"#);
    let parsed = ParsedFile::parse(&bytes).unwrap();
    let back: Vec<i16> = parsed.read(p).unwrap();
    assert_eq!(back, vec![1, -2, 3, -4]);
}

#[test]
fn written_placeholder_index_reads_back() {
    for n in [0usize, 1, 9, 10, 4096, usize::MAX] {
        let p = json_slabs::SlabPlaceholder(n);
        assert_eq!(parse_index(&p.to_string()), Some(n));
        let calls = walk_calls(events(p.to_json_string().as_bytes())).unwrap();
        assert_eq!(describe(&calls), vec![format!("ref:{n}")]);
    }
}

#[test]
fn walks_open_and_close_in_nested_order() {
    let doc = r#"{"a":[{"b":{}},[],[[1]],{"$s":"x","y":[{"$s":2}]}],"c":{"$s":7,"d":null}}"#;
    let calls = walk_calls(events(doc.as_bytes())).unwrap();
    let mut open: Vec<char> = Vec::new();
    for c in &calls {
        match c {
            VisitorCall::EnterObject => open.push('{'),
            VisitorCall::EnterArray => open.push('['),
            VisitorCall::ExitObject(_) => assert_eq!(open.pop(), Some('{')),
            VisitorCall::ExitArray(_) => assert_eq!(open.pop(), Some('[')),
            _ => {}
        }
    }
    assert!(open.is_empty());
}

#[test]
fn drained_pieces_concatenate_to_the_same_text() {
    let doc = format!(r#"["{}",["{}"],{{"k":1}}]"#, "a".repeat(70_000), "b".repeat(70_000));
    let calls = walk_calls(events(doc.as_bytes())).unwrap();
    let mut emitter = JsonEmitter::new();
    let mut pieces: Vec<String> = Vec::new();
    for c in &calls {
        if let Some(p) = emitter.visit(c) {
            pieces.push(p);
        }
    }
    pieces.push(emitter.flush());
    assert_eq!(pieces.len(), 3);
    assert_eq!(pieces.concat(), doc);
}
