//! Laws of the builder and of reading its files back: what each way of
//! adding a slab writes, how the finished slab table is laid out, and how
//! reading the header and table from a stream agrees with parsing the
//! whole buffer.

use crate::format::{Header, SlabByteFormat, SlabTableEntry, SlabType};
use crate::laws::{law_finish_parse_roundtrip, lemma_parse_slabs_file, slabs_aligned, written_entry};
use crate::layout::{
    file_slabs, jslb_file, jslb_file_len, layout_end, lemma_align_up, lemma_layout_end_monotone,
    lemma_layout_end_start, lemma_layout_end_step, lemma_slab_align_pos, slab_align, slab_offset,
    table_end,
};
use crate::read::{
    spec_parse_directory, spec_parse_entries, spec_parse_file, spec_parse_header, ParseError,
    SlabView,
};
use crate::types::{
    decode_all, elem_size, encode_all, law_decode_encode, lemma_elem_size_pos,
    lemma_encode_all_chunks, AsSlabBytes, BorrowedSlab, SlabPrimitive,
};
use vstd::prelude::*;

verus! {

/// Reading the 20 header bytes and then the `12 * slab_count` table bytes
/// from a stream, as `Header::parse` and `SlabDirectory::from_table` do,
/// decodes the same directory as parsing the whole buffer: the header
/// depends on the first 20 bytes alone, and the entries on the table bytes
/// alone. Where the buffer is too short for the table, parsing reports
/// `SlabTableOverrun` (and a stream would end early).
pub proof fn law_stream_directory_matches_parse(bytes: Seq<u8>)
    requires
        bytes.len() >= 20,
    ensures
        spec_parse_header(bytes.subrange(0, 20)) == spec_parse_header(bytes),
        spec_parse_directory(bytes) == match spec_parse_header(bytes) {
            Ok(h) => if 20 + 12 * h.slab_count <= bytes.len() {
                match spec_parse_entries(
                    bytes.subrange(20, 20 + 12 * h.slab_count),
                    0,
                    h.slab_count as nat,
                ) {
                    Ok(es) => Ok::<(Header, Seq<SlabTableEntry>), ParseError>((h, es)),
                    Err(e) => Err(e),
                }
            } else {
                Err(ParseError::SlabTableOverrun)
            },
            Err(e) => Err(e),
        },
{
    let head = bytes.subrange(0, 20);
    assert(head.subrange(0, 8) =~= bytes.subrange(0, 8));
    assert(head.subrange(8, 12) =~= bytes.subrange(8, 12));
    assert(head.subrange(12, 16) =~= bytes.subrange(12, 16));
    assert(head.subrange(16, 20) =~= bytes.subrange(16, 20));
    if let Ok(h) = spec_parse_header(bytes) {
        if 20 + 12 * h.slab_count <= bytes.len() {
            crate::laws::lemma_parse_entries_shift(bytes, 20, h.slab_count as nat);
        }
    }
}

/// `add_slab_from_vec(v)` and `add_slab(&v)` add the same slab: both push
/// the element format of `T` and the little-endian encoding of the same
/// elements (and both return the next slab index). So two builders that
/// held the same slabs `entries` hold the same slabs after either add, and
/// write the same file for any root JSON.
pub proof fn law_vec_add_is_slice_add<T: BorrowedSlab>(
    s: &[T],
    v: Seq<T>,
    entries: Seq<SlabView>,
    root_json: Seq<u8>,
)
    requires
        s@ == v,
    ensures
        s.spec_slab_format() == T::spec_byte_format(),
        s.spec_slab_bytes() == encode_all(v),
        entries.push((T::spec_byte_format(), encode_all(v))) == entries.push(
            (s.spec_slab_format(), s.spec_slab_bytes()),
        ),
        jslb_file(root_json, entries.push((T::spec_byte_format(), encode_all(v)))) == jslb_file(
            root_json,
            entries.push((s.spec_slab_format(), s.spec_slab_bytes())),
        ),
{
}

/// A typed slab's length is a multiple of its element size.
pub proof fn lemma_typed_slab_aligned<T: SlabPrimitive>(items: Seq<T>)
    ensures
        encode_all(items).len() % (T::spec_byte_format().spec_element_size() as nat) == 0,
{
    lemma_encode_all_chunks(items);
    lemma_elem_size_pos::<T>();
    let es = elem_size::<T>();
    let n = items.len() as int;
    assert((n * es) % es == 0) by (nonlinear_arith)
        requires
            es > 0,
    ;
}

/// A slab added from typed elements (by `add_slab`, `add_slab_from_vec`
/// or `add_slab_from_iter`) reads back as those elements: after
/// `finish`, the file parses, its slab `k + 1` is the added slab with the
/// element type's tag, and decoding it gives the elements in order. This
/// holds when every added slab's length is a multiple of its element size
/// and the file fits the format's 32-bit offsets.
pub proof fn law_typed_slab_reads_back<T: SlabPrimitive>(
    root_json: Seq<u8>,
    entries: Seq<SlabView>,
    k: int,
    items: Seq<T>,
)
    requires
        slabs_aligned(entries),
        jslb_file_len(root_json, entries) <= u32::MAX,
        0 <= k < entries.len(),
        entries[k] == (T::spec_byte_format(), encode_all(items)),
    ensures
        ({
            let p = spec_parse_file(jslb_file(root_json, entries));
            &&& p is Ok
            &&& k + 1 < p->Ok_0.1.len()
            &&& p->Ok_0.1[k + 1] == entries[k]
            &&& p->Ok_0.1[k + 1].0.spec_on_disk_type() == T::spec_byte_format().spec_on_disk_type()
            &&& decode_all::<T>(p->Ok_0.1[k + 1].1) == items
        }),
{
    law_finish_parse_roundtrip(root_json, entries);
    let slabs = file_slabs(root_json, entries);
    assert(slabs[k + 1] == entries[k]);
    law_decode_encode(items);
}

/// A JSON slab added with `add_json_slab` (or as `JsonBytes`) reads back
/// verbatim: after `finish`, the file parses and its slab `k + 1` is a
/// JSON slab holding exactly the given bytes, whatever they are. This
/// holds when every added slab's length is a multiple of its element size
/// and the file fits the format's 32-bit offsets.
pub proof fn law_json_slab_reads_back(root_json: Seq<u8>, entries: Seq<SlabView>, k: int)
    requires
        slabs_aligned(entries),
        jslb_file_len(root_json, entries) <= u32::MAX,
        0 <= k < entries.len(),
        entries[k].0 == SlabByteFormat::Json,
    ensures
        ({
            let p = spec_parse_file(jslb_file(root_json, entries));
            &&& p is Ok
            &&& k + 1 < p->Ok_0.1.len()
            &&& p->Ok_0.1[k + 1].0.spec_on_disk_type() == SlabType::Json
            &&& p->Ok_0.1[k + 1].1 == entries[k].1
        }),
{
    law_finish_parse_roundtrip(root_json, entries);
    let slabs = file_slabs(root_json, entries);
    assert(slabs[k + 1] == entries[k]);
}

/// The slab table that `finish` writes: one row per slab, the root JSON
/// slab first and starting right after the table, every slab starting at
/// a multiple of its element size and with a length that is a multiple of
/// it, and each slab starting at or after the end of every earlier one,
/// so that no two slabs overlap. This holds when every added slab's length
/// is a multiple of its element size and the file fits the format's
/// 32-bit offsets.
pub proof fn law_finished_table_is_aligned_and_ordered(root_json: Seq<u8>, entries: Seq<SlabView>)
    requires
        slabs_aligned(entries),
        jslb_file_len(root_json, entries) <= u32::MAX,
    ensures
        spec_parse_directory(jslb_file(root_json, entries)) matches Ok((h, es)) && {
            &&& h.root_json_slab_index == 0
            &&& es.len() == entries.len() + 1
            &&& es[0].slab_type == SlabType::Json
            &&& es[0].start_offset == 20 + 12 * es.len()
            &&& es[0].byte_length == root_json.len()
            &&& forall|i: int|
                0 <= i < es.len() ==> #[trigger] es[i].start_offset % (
                es[i].slab_type.spec_element_size() as u64) == 0 && es[i].byte_length % (
                es[i].slab_type.spec_element_size() as u64) == 0
            &&& forall|i: int, j: int|
                0 <= i < j < es.len() ==> #[trigger] es[i].start_offset + es[i].byte_length
                    <= #[trigger] es[j].start_offset
        },
{
    let slabs = file_slabs(root_json, entries);
    let n = slabs.len();
    let te = table_end(n);
    assert forall|i: int| 0 <= i < slabs.len() implies (#[trigger] slabs[i]).1.len() % (
    slabs[i].0.spec_element_size() as nat) == 0 by {
        if i > 0 {
            assert(slabs[i] == entries[i - 1]);
        }
    }
    lemma_parse_slabs_file(slabs);
    let es = Seq::new(n, |i: int| written_entry(te, slabs, i));
    assert forall|i: int| 0 <= i < n implies te <= #[trigger] slab_offset(te, slabs, i)
        && slab_offset(te, slabs, i) % slab_align(slabs[i]) == 0 && slab_offset(te, slabs, i)
        + slabs[i].1.len() == layout_end(te, slabs.take(i + 1)) && layout_end(
        te,
        slabs.take(i + 1),
    ) <= layout_end(te, slabs) by {
        lemma_layout_end_start(te, slabs.take(i));
        lemma_slab_align_pos(slabs[i]);
        lemma_align_up(layout_end(te, slabs.take(i)), slab_align(slabs[i]));
        lemma_layout_end_step(te, slabs, i);
        lemma_layout_end_monotone(te, slabs, i + 1);
    }
    assert forall|i: int| 0 <= i < n implies #[trigger] es[i].start_offset % (
    es[i].slab_type.spec_element_size() as u64) == 0 && es[i].byte_length % (
    es[i].slab_type.spec_element_size() as u64) == 0 by {
        crate::format::lemma_byte_format_roundtrip(slabs[i].0);
        lemma_slab_align_pos(slabs[i]);
    }
    assert forall|i: int, j: int| 0 <= i < j < n implies #[trigger] es[i].start_offset
        + es[i].byte_length <= #[trigger] es[j].start_offset by {
        let prefix = slabs.take(j);
        assert(prefix.take(i + 1) =~= slabs.take(i + 1));
        lemma_layout_end_monotone(te, prefix, i + 1);
        lemma_slab_align_pos(slabs[j]);
        lemma_align_up(layout_end(te, prefix), slab_align(slabs[j]));
        lemma_layout_end_start(te, slabs.take(i));
        lemma_align_up(layout_end(te, slabs.take(i)), slab_align(slabs[i]));
        lemma_layout_end_step(te, slabs, i);
        lemma_layout_end_monotone(te, slabs, i + 1);
    }
    assert(slabs.take(0) =~= Seq::<SlabView>::empty());
    lemma_align_up(te, 1);
}

/// `to_writer` on an empty writer leaves exactly the bytes that `finish`
/// returns: `to_writer` appends `jslb_file` of the builder's slabs to its
/// writer, `finish` returns the same `jslb_file`. Two builders given the
/// same adds hold the same slabs (each add's contract fixes the slab it
/// pushes), so they write the same file either way.
pub proof fn law_to_writer_matches_finish(root_json: Seq<u8>, entries: Seq<SlabView>, w: Seq<u8>)
    requires
        w.len() == 0,
    ensures
        w + jslb_file(root_json, entries) == jslb_file(root_json, entries),
{
    assert(w + jslb_file(root_json, entries) =~= jslb_file(root_json, entries));
}

} // verus!
