//! The byte layout that `Builder` writes: where each slab is placed and
//! what bytes the whole file consists of.

use crate::format::{magic_seq, u32_bytes, SlabByteFormat};
use crate::read::SlabView;
use vstd::prelude::*;

verus! {

/// `pos` rounded up to the next multiple of `align` (`align > 0`).
pub open spec fn align_up(pos: int, align: int) -> int {
    if pos % align == 0 {
        pos
    } else {
        pos + (align - pos % align)
    }
}

/// The alignment of a slab: the element size of its format.
pub open spec fn slab_align(s: SlabView) -> int {
    s.0.spec_element_size() as int
}

/// The position just past the last of `slabs`, when they are laid out one
/// after another from `start`, each at its alignment.
pub open spec fn layout_end(start: int, slabs: Seq<SlabView>) -> int
    decreases slabs.len(),
{
    if slabs.len() == 0 {
        start
    } else {
        align_up(layout_end(start, slabs.drop_last()), slab_align(slabs.last()))
            + slabs.last().1.len()
    }
}

/// The offset of slab `i` when `slabs` are laid out from `start`.
pub open spec fn slab_offset(start: int, slabs: Seq<SlabView>, i: int) -> int {
    align_up(layout_end(start, slabs.take(i)), slab_align(slabs[i]))
}

/// The offset at which slab payloads may start in a file of `n` slabs.
pub open spec fn table_end(n: nat) -> int {
    (20 + 12 * n) as int
}

/// `n` zero bytes.
pub open spec fn zeros(n: int) -> Seq<u8> {
    Seq::new(n as nat, |i: int| 0u8)
}

/// The fixed header of a file with `count` slabs whose root is slab 0.
pub open spec fn header_bytes(count: nat) -> Seq<u8> {
    magic_seq() + u32_bytes(1) + u32_bytes(count as int) + u32_bytes(0)
}

/// The slab-table row of a slab placed at `offset`.
pub open spec fn row_bytes(s: SlabView, offset: int) -> Seq<u8> {
    u32_bytes(s.0.spec_on_disk_type().spec_tag() as int) + u32_bytes(offset) + u32_bytes(
        s.1.len() as int,
    )
}

/// The first `n` rows of the slab table of `slabs` laid out from `start`.
pub open spec fn table_bytes(start: int, slabs: Seq<SlabView>, n: nat) -> Seq<u8>
    decreases n,
{
    if n == 0 {
        Seq::empty()
    } else {
        table_bytes(start, slabs, (n - 1) as nat) + row_bytes(
            slabs[n - 1],
            slab_offset(start, slabs, n - 1),
        )
    }
}

/// The payload region: each slab's bytes preceded by the zero padding
/// that brings it to its offset.
pub open spec fn payload(start: int, slabs: Seq<SlabView>) -> Seq<u8>
    decreases slabs.len(),
{
    if slabs.len() == 0 {
        Seq::empty()
    } else {
        let before = layout_end(start, slabs.drop_last());
        payload(start, slabs.drop_last()) + zeros(
            align_up(before, slab_align(slabs.last())) - before,
        ) + slabs.last().1
    }
}

/// All slabs of a file: the root JSON slab first, then the added slabs.
pub open spec fn file_slabs(root_json: Seq<u8>, entries: Seq<SlabView>) -> Seq<SlabView> {
    seq![(SlabByteFormat::Json, root_json)] + entries
}

/// The complete bytes of a file: header, slab table, payload.
pub open spec fn slabs_file(slabs: Seq<SlabView>) -> Seq<u8> {
    let n = slabs.len();
    header_bytes(n) + table_bytes(table_end(n), slabs, n) + payload(table_end(n), slabs)
}

/// The complete bytes of the file that `Builder::finish` writes for the
/// root JSON `root_json` and the added slabs `entries`.
pub open spec fn jslb_file(root_json: Seq<u8>, entries: Seq<SlabView>) -> Seq<u8> {
    slabs_file(file_slabs(root_json, entries))
}

/// The length of that file.
pub open spec fn jslb_file_len(root_json: Seq<u8>, entries: Seq<SlabView>) -> int {
    let slabs = file_slabs(root_json, entries);
    layout_end(table_end(slabs.len()), slabs)
}

/// Rounding up to an alignment gives the least multiple at or above.
pub proof fn lemma_align_up(pos: int, align: int)
    requires
        align > 0,
        pos >= 0,
    ensures
        pos <= align_up(pos, align) < pos + align,
        align_up(pos, align) % align == 0,
{
    if pos % align != 0 {
        vstd::arithmetic::div_mod::lemma_fundamental_div_mod(pos, align);
        assert((pos + (align - pos % align)) % align == 0) by (nonlinear_arith)
            requires
                align > 0,
                0 <= pos % align < align,
                pos == align * (pos / align) + pos % align,
        ;
    }
}

/// Element sizes are positive.
pub proof fn lemma_slab_align_pos(s: SlabView)
    ensures
        slab_align(s) == 1 || slab_align(s) == 2 || slab_align(s) == 4 || slab_align(s) == 8,
{
    crate::format::lemma_byte_format_roundtrip(s.0);
}

/// The layout of a prefix ends no later than the layout of the whole, and
/// the layout never ends before it starts.
pub proof fn lemma_layout_end_monotone(start: int, slabs: Seq<SlabView>, i: int)
    requires
        start >= 0,
        0 <= i <= slabs.len(),
    ensures
        start <= layout_end(start, slabs.take(i)) <= layout_end(start, slabs),
    decreases slabs.len(),
{
    if i == slabs.len() {
        assert(slabs.take(i) =~= slabs);
        lemma_layout_end_start(start, slabs);
    } else {
        let prefix = slabs.drop_last();
        assert(prefix.take(i) =~= slabs.take(i));
        lemma_layout_end_monotone(start, prefix, i);
        lemma_layout_end_start(start, prefix);
        lemma_slab_align_pos(slabs.last());
        lemma_align_up(layout_end(start, prefix), slab_align(slabs.last()));
    }
}

/// The layout never ends before it starts.
pub proof fn lemma_layout_end_start(start: int, slabs: Seq<SlabView>)
    requires
        start >= 0,
    ensures
        start <= layout_end(start, slabs),
    decreases slabs.len(),
{
    if slabs.len() > 0 {
        lemma_layout_end_start(start, slabs.drop_last());
        lemma_slab_align_pos(slabs.last());
        lemma_align_up(layout_end(start, slabs.drop_last()), slab_align(slabs.last()));
    }
}

/// The layout of the first `i + 1` slabs ends where slab `i` ends.
pub proof fn lemma_layout_end_step(start: int, slabs: Seq<SlabView>, i: int)
    requires
        0 <= i < slabs.len(),
    ensures
        layout_end(start, slabs.take(i + 1)) == slab_offset(start, slabs, i) + slabs[i].1.len(),
{
    let next = slabs.take(i + 1);
    assert(next.drop_last() =~= slabs.take(i));
    assert(next.last() == slabs[i]);
}

/// The payload of the first `i + 1` slabs extends that of the first `i`.
pub proof fn lemma_payload_step(start: int, slabs: Seq<SlabView>, i: int)
    requires
        0 <= i < slabs.len(),
    ensures
        payload(start, slabs.take(i + 1)) == payload(start, slabs.take(i)) + zeros(
            slab_offset(start, slabs, i) - layout_end(start, slabs.take(i)),
        ) + slabs[i].1,
{
    let next = slabs.take(i + 1);
    assert(next.drop_last() =~= slabs.take(i));
    assert(next.last() == slabs[i]);
}

/// The table of the first `k` rows depends only on the offsets.
pub proof fn lemma_table_len(start: int, slabs: Seq<SlabView>, n: nat)
    ensures
        table_bytes(start, slabs, n).len() == 12 * n,
    decreases n,
{
    if n > 0 {
        lemma_table_len(start, slabs, (n - 1) as nat);
        let s = slabs[n - 1];
        crate::le::lemma_u32_le(s.0.spec_on_disk_type().spec_tag());
        crate::le::lemma_u32_le(slab_offset(start, slabs, n - 1) as u32);
        crate::le::lemma_u32_le(s.1.len() as u32);
        assert(u32_bytes(s.0.spec_on_disk_type().spec_tag() as int).len() == 4);
        assert(u32_bytes(slab_offset(start, slabs, n - 1)).len() == 4);
        assert(u32_bytes(s.1.len() as int).len() == 4);
    }
}

/// The payload spans from `start` to the end of the layout.
pub proof fn lemma_payload_len(start: int, slabs: Seq<SlabView>)
    requires
        start >= 0,
    ensures
        payload(start, slabs).len() == layout_end(start, slabs) - start,
    decreases slabs.len(),
{
    if slabs.len() > 0 {
        lemma_payload_len(start, slabs.drop_last());
        lemma_layout_end_start(start, slabs.drop_last());
        lemma_slab_align_pos(slabs.last());
        lemma_align_up(layout_end(start, slabs.drop_last()), slab_align(slabs.last()));
    }
}

} // verus!
