//! Properties that relate the writer and the reader: what `Builder`
//! writes, `ParsedFile::parse` reads back.

use crate::format::{
    lemma_byte_format_roundtrip, lemma_tag_roundtrip, lemma_u32_bytes_roundtrip, magic_seq,
    u32_at, u32_bytes, SlabByteFormat, SlabTableEntry, SlabType,
};
use crate::layout::{
    file_slabs, header_bytes, jslb_file, jslb_file_len, layout_end, lemma_align_up,
    lemma_layout_end_monotone, lemma_layout_end_start, lemma_layout_end_step, lemma_payload_len,
    lemma_payload_step, lemma_slab_align_pos, payload, row_bytes, slab_align, slab_offset,
    slabs_file, table_bytes, table_end,
};
use crate::read::{
    extent_fits, slab_of_entry, spec_parse_directory, spec_parse_entries, spec_parse_entry,
    spec_parse_file, spec_parse_header, spec_validate_extents, ParseError, SlabView,
};
use crate::format::Header;
use vstd::prelude::*;

verus! {

/// Every slab's length is a multiple of its element size.
pub open spec fn slabs_aligned(slabs: Seq<SlabView>) -> bool {
    forall|i: int|
        0 <= i < slabs.len() ==> (#[trigger] slabs[i]).1.len() % (slabs[i].0.spec_element_size() as nat)
            == 0
}

/// The slab-table entry that the writer records for slab `i`.
pub open spec fn written_entry(te: int, slabs: Seq<SlabView>, i: int) -> SlabTableEntry {
    SlabTableEntry {
        slab_type: slabs[i].0.spec_on_disk_type(),
        start_offset: slab_offset(te, slabs, i) as u64,
        byte_length: slabs[i].1.len() as u64,
    }
}

/// The rows of the table are laid out one after another, 12 bytes each.
pub proof fn lemma_table_rows(te: int, slabs: Seq<SlabView>, n: nat)
    ensures
        table_bytes(te, slabs, n).len() == 12 * n,
        forall|i: int|
            0 <= i < n ==> #[trigger] table_bytes(te, slabs, n).subrange(12 * i, 12 * i + 12)
                == row_bytes(slabs[i], slab_offset(te, slabs, i)),
    decreases n,
{
    crate::layout::lemma_table_len(te, slabs, n);
    if n > 0 {
        lemma_table_rows(te, slabs, (n - 1) as nat);
        let prev = table_bytes(te, slabs, (n - 1) as nat);
        let t = table_bytes(te, slabs, n);
        assert forall|i: int| 0 <= i < n implies #[trigger] t.subrange(12 * i, 12 * i + 12)
            == row_bytes(slabs[i], slab_offset(te, slabs, i)) by {
            if i < n - 1 {
                assert(t.subrange(12 * i, 12 * i + 12) =~= prev.subrange(12 * i, 12 * i + 12));
            } else {
                assert(t.subrange(12 * i, 12 * i + 12) =~= row_bytes(
                    slabs[i],
                    slab_offset(te, slabs, i),
                ));
            }
        }
    }
}

/// The payload of a prefix of the slabs is a prefix of the payload.
proof fn lemma_payload_prefix(te: int, slabs: Seq<SlabView>, i: int)
    requires
        te >= 0,
        0 <= i <= slabs.len(),
    ensures
        payload(te, slabs.take(i)).len() <= payload(te, slabs).len(),
        payload(te, slabs).subrange(0, payload(te, slabs.take(i)).len() as int) == payload(
            te,
            slabs.take(i),
        ),
    decreases slabs.len(),
{
    if i == slabs.len() {
        assert(slabs.take(i) =~= slabs);
        assert(payload(te, slabs).subrange(0, payload(te, slabs).len() as int) =~= payload(
            te,
            slabs,
        ));
    } else {
        let prefix = slabs.drop_last();
        assert(prefix.take(i) =~= slabs.take(i));
        lemma_payload_prefix(te, prefix, i);
        let p = payload(te, slabs);
        let q = payload(te, prefix);
        let r = payload(te, slabs.take(i));
        assert(p.subrange(0, r.len() as int) =~= q.subrange(0, r.len() as int));
    }
}

/// Slab `i`'s bytes sit in the payload at its offset.
proof fn lemma_payload_slab(te: int, slabs: Seq<SlabView>, i: int)
    requires
        te >= 0,
        0 <= i < slabs.len(),
    ensures
        te <= slab_offset(te, slabs, i),
        slab_offset(te, slabs, i) + slabs[i].1.len() <= layout_end(te, slabs),
        payload(te, slabs).subrange(
            slab_offset(te, slabs, i) - te,
            slab_offset(te, slabs, i) - te + slabs[i].1.len(),
        ) == slabs[i].1,
{
    lemma_payload_step(te, slabs, i);
    lemma_payload_len(te, slabs.take(i));
    lemma_payload_len(te, slabs.take(i + 1));
    lemma_layout_end_start(te, slabs.take(i));
    lemma_slab_align_pos(slabs[i]);
    lemma_align_up(layout_end(te, slabs.take(i)), slab_align(slabs[i]));
    lemma_layout_end_step(te, slabs, i);
    lemma_layout_end_monotone(te, slabs, i + 1);
    lemma_payload_prefix(te, slabs, i + 1);
    let off = slab_offset(te, slabs, i);
    let len = slabs[i].1.len() as int;
    let whole = payload(te, slabs);
    let upto = payload(te, slabs.take(i + 1));
    assert(upto.len() == off + len - te);
    assert(upto.subrange(off - te, off - te + len) =~= slabs[i].1);
    assert(whole.subrange(off - te, off - te + len) =~= upto.subrange(off - te, off - te + len));
}

/// Extent validation succeeds when every entry fits.
proof fn lemma_extents_ok(entries: Seq<SlabTableEntry>, file_len: int)
    requires
        forall|k: int| 0 <= k < entries.len() ==> extent_fits(#[trigger] entries[k], file_len),
    ensures
        spec_validate_extents(entries, file_len) == Ok::<(), ParseError>(()),
    decreases entries.len(),
{
    if entries.len() > 0 {
        let prefix = entries.drop_last();
        assert forall|k: int| 0 <= k < prefix.len() implies extent_fits(
            #[trigger] prefix[k],
            file_len,
        ) by {
            assert(prefix[k] == entries[k]);
        }
        lemma_extents_ok(prefix, file_len);
        assert(extent_fits(entries[entries.len() - 1], file_len));
    }
}

/// The 4 bytes at `pos` of `s` decode to `v` when they are `v`'s bytes.
proof fn lemma_u32_at(s: Seq<u8>, pos: int, v: u32)
    requires
        0 <= pos,
        pos + 4 <= s.len(),
        s.subrange(pos, pos + 4) == u32_bytes(v as int),
    ensures
        u32_at(s, pos) == v,
{
    lemma_u32_bytes_roundtrip(v);
}

/// The facts about the parts of a written file.
pub proof fn lemma_file_parts(slabs: Seq<SlabView>)
    ensures
        ({
            let n = slabs.len();
            let te = table_end(n);
            let f = slabs_file(slabs);
            &&& f.len() == layout_end(te, slabs)
            &&& te <= f.len()
            &&& f.subrange(20, te) == table_bytes(te, slabs, n)
            &&& f.subrange(te, f.len() as int) == payload(te, slabs)
            &&& f.subrange(0, 20) == header_bytes(n)
        }),
{
    let n = slabs.len();
    let te = table_end(n);
    let h = header_bytes(n);
    let t = table_bytes(te, slabs, n);
    let p = payload(te, slabs);
    let f = slabs_file(slabs);
    lemma_u32_bytes_roundtrip(1);
    lemma_u32_bytes_roundtrip(n as u32);
    lemma_u32_bytes_roundtrip(0);
    crate::layout::lemma_table_len(te, slabs, n);
    lemma_payload_len(te, slabs);
    lemma_layout_end_start(te, slabs);
    assert(h.len() == 20);
    assert(f == h + t + p);
    assert(f.subrange(20, te) =~= t);
    assert(f.subrange(te, f.len() as int) =~= p);
    assert(f.subrange(0, 20) =~= h);
}

/// The header of a written file parses to `slabs.len()` slabs with root 0.
proof fn lemma_file_header(slabs: Seq<SlabView>)
    requires
        slabs.len() > 0,
        12 * slabs.len() <= u32::MAX,
    ensures
        spec_parse_header(slabs_file(slabs)) == Ok::<Header, ParseError>(
            Header { slab_count: slabs.len() as usize, root_json_slab_index: 0 },
        ),
{
    let n = slabs.len();
    let f = slabs_file(slabs);
    lemma_file_parts(slabs);
    let h = header_bytes(n);
    lemma_u32_bytes_roundtrip(1);
    lemma_u32_bytes_roundtrip(n as u32);
    lemma_u32_bytes_roundtrip(0);
    assert((n as int) as u32 == n as u32);
    assert(f.subrange(0, 8) =~= h.subrange(0, 8));
    assert(h.subrange(0, 8) =~= magic_seq());
    assert(f.subrange(8, 12) =~= h.subrange(8, 12));
    assert(h.subrange(8, 12) =~= u32_bytes(1));
    assert(f.subrange(12, 16) =~= h.subrange(12, 16));
    assert(h.subrange(12, 16) =~= u32_bytes(n as int));
    assert(f.subrange(16, 20) =~= h.subrange(16, 20));
    assert(h.subrange(16, 20) =~= u32_bytes(0));
    lemma_u32_at(f, 8, 1);
    lemma_u32_at(f, 12, n as u32);
    lemma_u32_at(f, 16, 0);
}

/// Slab `i`'s bytes sit in a written file at its offset.
proof fn lemma_file_slab(slabs: Seq<SlabView>, i: int)
    requires
        0 <= i < slabs.len(),
    ensures
        ({
            let te = table_end(slabs.len());
            let off = slab_offset(te, slabs, i);
            let f = slabs_file(slabs);
            &&& te <= off
            &&& off + slabs[i].1.len() <= f.len()
            &&& f.subrange(off, off + slabs[i].1.len()) == slabs[i].1
        }),
{
    let te = table_end(slabs.len());
    let f = slabs_file(slabs);
    lemma_file_parts(slabs);
    lemma_payload_slab(te, slabs, i);
    let off = slab_offset(te, slabs, i);
    let p = f.subrange(te, f.len() as int);
    assert(f.subrange(off, off + slabs[i].1.len()) =~= p.subrange(
        off - te,
        off - te + slabs[i].1.len(),
    ));
}

/// Reading back a file written for aligned slabs gives the root index 0
/// and exactly those slabs, provided the file fits the format's 32-bit
/// offsets.
pub proof fn lemma_parse_slabs_file(slabs: Seq<SlabView>)
    requires
        slabs.len() > 0,
        slabs[0].0 == SlabByteFormat::Json,
        slabs_aligned(slabs),
        layout_end(table_end(slabs.len()), slabs) <= u32::MAX,
    ensures
        spec_parse_file(slabs_file(slabs)) == Ok::<(usize, Seq<SlabView>), ParseError>(
            (0usize, slabs),
        ),
        spec_parse_directory(slabs_file(slabs)) == Ok::<(Header, Seq<SlabTableEntry>), ParseError>(
            (
                Header { slab_count: slabs.len() as usize, root_json_slab_index: 0 },
                Seq::new(slabs.len(), |i: int| written_entry(table_end(slabs.len()), slabs, i)),
            ),
        ),
{
    let n = slabs.len();
    let te = table_end(n);
    let len = layout_end(te, slabs);
    let f = slabs_file(slabs);
    lemma_file_parts(slabs);
    lemma_file_header(slabs);
    let header = Header { slab_count: n as usize, root_json_slab_index: 0 };
    let expected = Seq::new(n, |i: int| written_entry(te, slabs, i));
    assert forall|i: int| 0 <= i < n implies te <= slab_offset(te, slabs, i) && slab_offset(
        te,
        slabs,
        i,
    ) + slabs[i].1.len() <= len && f.subrange(
        slab_offset(te, slabs, i),
        slab_offset(te, slabs, i) + slabs[i].1.len(),
    ) == slabs[i].1 by {
        lemma_file_slab(slabs, i);
    }
    lemma_entries_written(f, te, slabs, n);
    assert(expected.take(n as int) =~= expected);
    assert(spec_parse_directory(f) == Ok::<(Header, Seq<SlabTableEntry>), ParseError>(
        (header, expected),
    ));
    assert forall|k: int| 0 <= k < expected.len() implies extent_fits(
        #[trigger] expected[k],
        len,
    ) by {
    }
    lemma_extents_ok(expected, len);
    let views = expected.map_values(|e: SlabTableEntry| slab_of_entry(f, e));
    assert forall|i: int| 0 <= i < n implies #[trigger] views[i] == slabs[i] by {
        lemma_byte_format_roundtrip(slabs[i].0);
    }
    assert(views =~= slabs);
}

/// The first `m` rows of a written table parse to the written entries.
proof fn lemma_entries_written(f: Seq<u8>, te: int, slabs: Seq<SlabView>, m: nat)
    requires
        te == table_end(slabs.len()),
        m <= slabs.len(),
        slabs_aligned(slabs),
        f.len() >= te,
        f.subrange(20, te) == table_bytes(te, slabs, slabs.len()),
        forall|i: int|
            0 <= i < slabs.len() ==> te <= slab_offset(te, slabs, i) && slab_offset(te, slabs, i)
                + slabs[i].1.len() <= u32::MAX,
    ensures
        spec_parse_entries(f, 20, m) == Ok::<Seq<SlabTableEntry>, ParseError>(
            Seq::new(slabs.len(), |i: int| written_entry(te, slabs, i)).take(m as int),
        ),
    decreases m,
{
    let expected = Seq::new(slabs.len(), |i: int| written_entry(te, slabs, i));
    if m == 0 {
        assert(expected.take(0) =~= Seq::<SlabTableEntry>::empty());
    } else {
        lemma_entries_written(f, te, slabs, (m - 1) as nat);
        let i = m - 1;
        let n = slabs.len();
        lemma_table_rows(te, slabs, n);
        let t = table_bytes(te, slabs, n);
        let row = f.subrange(20 + 12 * i, 20 + 12 * (m as int));
        assert(row =~= t.subrange(12 * i, 12 * i + 12));
        let s = slabs[i];
        let off = slab_offset(te, slabs, i);
        let tag = s.0.spec_on_disk_type().spec_tag();
        assert(row == row_bytes(s, off));
        lemma_u32_bytes_roundtrip(tag);
        lemma_u32_bytes_roundtrip(off as u32);
        lemma_u32_bytes_roundtrip(s.1.len() as u32);
        assert((off as u32) as int == off);
        assert((s.1.len() as u32) as int == s.1.len());
        assert(row.subrange(0, 4) =~= u32_bytes(tag as int));
        assert(row.subrange(4, 8) =~= u32_bytes(off));
        assert(row.subrange(8, 12) =~= u32_bytes(s.1.len() as int));
        lemma_u32_at(row, 0, tag);
        lemma_u32_at(row, 4, off as u32);
        lemma_u32_at(row, 8, s.1.len() as u32);
        lemma_tag_roundtrip(s.0.spec_on_disk_type());
        lemma_byte_format_roundtrip(s.0);
        assert(s.1.len() % (s.0.spec_element_size() as nat) == 0);
        assert(spec_parse_entry(row, i as usize) == Ok::<SlabTableEntry, ParseError>(
            written_entry(te, slabs, i),
        ));
        assert(expected.take(m as int) =~= expected.take(i).push(written_entry(te, slabs, i)));
    }
}

/// What `Builder::finish` writes, `ParsedFile::parse` reads back: the root
/// JSON slab at index 0 and every added slab after it, in order, with its
/// format and bytes unchanged. This holds when every added slab's length
/// is a multiple of its element size (as it is for every slab added from
/// typed elements) and the file fits the format's 32-bit offsets.
pub proof fn law_finish_parse_roundtrip(root_json: Seq<u8>, entries: Seq<SlabView>)
    requires
        slabs_aligned(entries),
        jslb_file_len(root_json, entries) <= u32::MAX,
    ensures
        spec_parse_file(jslb_file(root_json, entries)) == Ok::<(usize, Seq<SlabView>), ParseError>(
            (0usize, file_slabs(root_json, entries)),
        ),
        jslb_file(root_json, entries).subrange(0, 8) == magic_seq(),
{
    let slabs = file_slabs(root_json, entries);
    assert forall|i: int| 0 <= i < slabs.len() implies (#[trigger] slabs[i]).1.len() % (
    slabs[i].0.spec_element_size() as nat) == 0 by {
        if i > 0 {
            assert(slabs[i] == entries[i - 1]);
        }
    }
    lemma_parse_slabs_file(slabs);
    lemma_file_parts(slabs);
    let f = jslb_file(root_json, entries);
    assert(f.subrange(0, 8) =~= f.subrange(0, 20).subrange(0, 8));
    assert(header_bytes(slabs.len()).subrange(0, 8) =~= magic_seq());
}

/// Every slab that `Builder` lays out starts at a multiple of its element
/// size, so typed-array views on the file buffer are aligned.
pub proof fn law_slab_offsets_aligned(root_json: Seq<u8>, entries: Seq<SlabView>, i: int)
    requires
        0 <= i < entries.len() + 1,
    ensures
        ({
            let slabs = file_slabs(root_json, entries);
            slab_offset(table_end(slabs.len()), slabs, i) % (slabs[i].0.spec_element_size() as int)
                == 0
        }),
{
    let slabs = file_slabs(root_json, entries);
    let te = table_end(slabs.len());
    lemma_layout_end_start(te, slabs.take(i));
    lemma_slab_align_pos(slabs[i]);
    lemma_align_up(layout_end(te, slabs.take(i)), slab_align(slabs[i]));
}

/// Parsing `n` entries at `base` of a buffer is parsing the same entries
/// from the table bytes alone, as `SlabDirectory::from_table` does for a
/// table read from a stream: the buffer and stream readers agree.
pub proof fn lemma_parse_entries_shift(bytes: Seq<u8>, base: int, n: nat)
    requires
        0 <= base,
        base + 12 * n <= bytes.len(),
    ensures
        spec_parse_entries(bytes, base, n) == spec_parse_entries(
            bytes.subrange(base, base + 12 * n),
            0,
            n,
        ),
    decreases n,
{
    if n > 0 {
        let m = (n - 1) as nat;
        lemma_parse_entries_shift(bytes, base, m);
        let whole = bytes.subrange(base, base + 12 * n);
        let part = bytes.subrange(base, base + 12 * m);
        assert(whole.subrange(0, 12 * m as int) =~= part);
        crate::laws::lemma_parse_entries_prefix_of(whole, m);
        assert(whole.subrange(12 * m as int, 12 * n as int) =~= bytes.subrange(
            base + 12 * m,
            base + 12 * n,
        ));
    }
}

/// Parsing the first `m` entries of a table only looks at their bytes.
proof fn lemma_parse_entries_prefix_of(table: Seq<u8>, m: nat)
    requires
        12 * m <= table.len(),
    ensures
        spec_parse_entries(table, 0, m) == spec_parse_entries(table.subrange(0, 12 * m as int), 0, m),
    decreases m,
{
    if m > 0 {
        let k = (m - 1) as nat;
        lemma_parse_entries_prefix_of(table, k);
        let short = table.subrange(0, 12 * m as int);
        lemma_parse_entries_prefix_of(short, k);
        assert(short.subrange(0, 12 * k as int) =~= table.subrange(0, 12 * k as int));
        assert(short.subrange(12 * k as int, 12 * m as int) =~= table.subrange(
            12 * k as int,
            12 * m as int,
        ));
    }
}

/// Streaming the root JSON slab yields the same bytes that parsing the
/// whole buffer binds to the root slab: when `data` parses as a file and
/// the opening of a stream over `data` succeeds (its header and table are
/// `data`'s, and it skips `to_skip` bytes and then bounds reads to
/// `byte_length` bytes), the bytes after the skip are the root slab's.
pub proof fn law_stream_root_matches_parse(
    data: Seq<u8>,
    header: Header,
    table: Seq<u8>,
    entries: Seq<SlabTableEntry>,
    to_skip: u64,
    byte_length: u64,
)
    requires
        spec_parse_file(data) is Ok,
        spec_parse_header(data) == Ok::<Header, ParseError>(header),
        table == data.subrange(20, 20 + 12 * header.slab_count),
        spec_parse_entries(table, 0, header.slab_count as nat) == Ok::<
            Seq<SlabTableEntry>,
            ParseError,
        >(entries),
        header.root_json_slab_index < entries.len(),
        to_skip == entries[header.root_json_slab_index as int].start_offset - (20 + 12
            * header.slab_count),
        byte_length == entries[header.root_json_slab_index as int].byte_length,
    ensures
        ({
            let start = 20 + 12 * header.slab_count + to_skip;
            &&& start + byte_length <= data.len()
            &&& data.subrange(start, start + byte_length)
                == spec_parse_file(data).unwrap().1[header.root_json_slab_index as int].1
            &&& spec_parse_file(data).unwrap().0 == header.root_json_slab_index
        }),
{
    let n = header.slab_count;
    lemma_parse_entries_shift(data, 20, n as nat);
    let dir = spec_parse_directory(data);
    assert(dir == Ok::<(Header, Seq<SlabTableEntry>), ParseError>((header, entries)));
    let r = header.root_json_slab_index as int;
    crate::read::lemma_extents_all_fit(entries, data.len() as int);
    assert(extent_fits(entries[r], data.len() as int));
}

} // verus!
