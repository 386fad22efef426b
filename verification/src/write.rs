//! `Builder` and the other writing-related items.

use crate::format::{push_u32_le, SlabByteFormat, SlabType, FIXED_HEADER_SIZE, SLAB_TABLE_ENTRY_SIZE, VERSION};
use crate::layout::{
    file_slabs, header_bytes, jslb_file, jslb_file_len, layout_end, lemma_align_up,
    lemma_layout_end_monotone, lemma_layout_end_start, lemma_layout_end_step,
    lemma_payload_step, lemma_slab_align_pos, payload, row_bytes, slab_align, slab_offset,
    slabs_file, table_bytes, table_end, zeros,
};
use crate::placeholder::SlabPlaceholder;
use crate::read::SlabView;
use crate::types::{encode_all, encode_slice, AsSlabBytes, SlabBytes, SlabElems, SlabPrimitive};
pub use crate::types::JsonBytes;
use vstd::prelude::*;
use vstd::std_specs::iter::IteratorSpec;

verus! {

/// A slab whose bytes are produced by the slab itself, for use with
/// `Builder::add_streamed_slab`.
///
/// `Builder::add_slab` (slices, arrays, `JsonBytes`, `SlabBytes`),
/// `Builder::add_slab_from_vec`, `Builder::add_slab_from_iter` and
/// `Builder::add_json_slab` cover most uses.
pub trait StreamedSlab {
    /// The slab type tag written into the slab table.
    spec fn spec_slab_type(&self) -> SlabType;

    /// The bytes that `write` produces.
    spec fn spec_bytes(&self) -> Seq<u8>;

    /// The slab type tag written into the slab table.
    fn slab_type(&self) -> (t: SlabType)
        ensures
            t == self.spec_slab_type(),
    ;

    /// The exact number of bytes `write` will produce.
    fn byte_length(&self) -> (n: usize)
        ensures
            n == self.spec_bytes().len(),
    ;

    /// Append the slab bytes to `out`: exactly `byte_length` bytes.
    fn write(self, out: &mut Vec<u8>)
        ensures
            final(out)@ == old(out)@ + self.spec_bytes(),
    ;
}

/// Append `bytes` to `out`.
pub fn push_bytes(out: &mut Vec<u8>, bytes: &[u8])
    ensures
        final(out)@ == old(out)@ + bytes@,
{
    let n = bytes.len();
    let ghost start = out@;
    let mut i: usize = 0;
    while i < n
        invariant
            n == bytes@.len(),
            i <= n,
            out@ == start + bytes@.subrange(0, i as int),
        decreases n - i,
    {
        out.push(bytes[i]);
        assert(bytes@.subrange(0, i + 1) =~= bytes@.subrange(0, i as int).push(bytes@[i as int]));
        i = i + 1;
    }
    assert(bytes@.subrange(0, n as int) =~= bytes@);
}

/// Append `n` zero bytes to `out`.
pub fn write_padding(out: &mut Vec<u8>, n: usize)
    ensures
        final(out)@ == old(out)@ + zeros(n as int),
{
    let ghost start = out@;
    let mut i: usize = 0;
    while i < n
        invariant
            i <= n,
            out@ == start + zeros(i as int),
        decreases n - i,
    {
        out.push(0u8);
        assert(zeros(i + 1) =~= zeros(i as int).push(0u8));
        i = i + 1;
    }
}

impl<'a> StreamedSlab for SlabBytes<'a> {
    open spec fn spec_slab_type(&self) -> SlabType {
        self.slab_type.spec_on_disk_type()
    }

    open spec fn spec_bytes(&self) -> Seq<u8> {
        self.bytes@
    }

    fn slab_type(&self) -> (t: SlabType) {
        self.slab_type.on_disk_type()
    }

    fn byte_length(&self) -> (n: usize) {
        self.bytes.len()
    }

    fn write(self, out: &mut Vec<u8>) {
        push_bytes(out, self.bytes);
    }
}

impl<'a> StreamedSlab for JsonBytes<'a> {
    open spec fn spec_slab_type(&self) -> SlabType {
        SlabType::Json
    }

    open spec fn spec_bytes(&self) -> Seq<u8> {
        self.0@
    }

    fn slab_type(&self) -> (t: SlabType) {
        SlabType::Json
    }

    fn byte_length(&self) -> (n: usize) {
        self.0.len()
    }

    fn write(self, out: &mut Vec<u8>) {
        push_bytes(out, self.0);
    }
}

/// One slab registered with a `Builder`: elements borrowed from the
/// caller, encoded when the file is written, or bytes the builder owns.
enum PendingSlab<'a> {
    Borrowed(SlabElems<'a>),
    Owned(SlabByteFormat, Vec<u8>),
}

/// The format and bytes of a registered slab.
spec fn pending_slab_view(p: PendingSlab) -> SlabView {
    match p {
        PendingSlab::Borrowed(e) => (e.spec_format(), e.spec_bytes()),
        PendingSlab::Owned(f, b) => (f, b@),
    }
}

/// The view of the registered slabs.
spec fn pending_view(entries: Seq<PendingSlab>) -> Seq<SlabView> {
    entries.map_values(|e: PendingSlab| pending_slab_view(e))
}

/// Create a JsonSlabs (JSLB) file.
///
/// Callers add slabs one at a time and receive `SlabPlaceholder`s that can
/// be interpolated into the root JSON skeleton. `finish` / `to_writer`
/// then lay out the file: the root JSON slab is slab 0, the added slabs
/// follow in the order they were added, and each slab starts at a multiple
/// of its element size.
///
/// Slices, arrays, `JsonBytes` and `SlabBytes` given to `add_slab` are
/// borrowed, not copied: their bytes are produced when the file is
/// written. The `'a` lifetime bounds what the builder borrows.
pub struct Builder<'a> {
    entries: Vec<PendingSlab<'a>>,
}

impl<'a> View for Builder<'a> {
    type V = Seq<SlabView>;

    /// The added slabs, in order (the root JSON slab is not among them).
    closed spec fn view(&self) -> Seq<SlabView> {
        pending_view(self.entries@)
    }
}

impl<'a> Builder<'a> {
    /// Create an empty builder with no slabs registered.
    pub fn new() -> (b: Builder<'a>)
        ensures
            b@ == Seq::<SlabView>::empty(),
    {
        let b = Builder { entries: Vec::new() };
        assert(b@ =~= Seq::<SlabView>::empty());
        b
    }

    /// The slab table index the next added slab will get. Index 0 is
    /// reserved for the root JSON slab, so added slabs are numbered from 1.
    fn next_slab_index(&self) -> (i: usize)
        requires
            self@.len() < usize::MAX,
        ensures
            i == self@.len() + 1,
    {
        self.entries.len() + 1
    }

    /// Register a slab and return its placeholder.
    fn push_slab(&mut self, slab: PendingSlab<'a>) -> (p: SlabPlaceholder)
        requires
            old(self)@.len() < usize::MAX,
        ensures
            final(self)@ == old(self)@.push(pending_slab_view(slab)),
            p.0 == old(self)@.len() + 1,
    {
        let idx = self.next_slab_index();
        let ghost before = self.entries@;
        let ghost v = pending_slab_view(slab);
        self.entries.push(slab);
        assert(pending_view(self.entries@) =~= pending_view(before).push(v));
        SlabPlaceholder(idx)
    }

    /// Register bytes the builder owns as a slab of `format`.
    fn push_owned(&mut self, format: SlabByteFormat, bytes: Vec<u8>) -> (p: SlabPlaceholder)
        requires
            old(self)@.len() < usize::MAX,
        ensures
            final(self)@ == old(self)@.push((format, bytes@)),
            p.0 == old(self)@.len() + 1,
    {
        self.push_slab(PendingSlab::Owned(format, bytes))
    }

    /// Add a slab: a slice or array of primitives, raw JSON bytes
    /// (`JsonBytes`), or runtime-typed slab bytes (`SlabBytes`). It is
    /// borrowed until the file is written, so it must outlive the builder.
    pub fn add_slab<S: AsSlabBytes<'a>>(&mut self, values: S) -> (p: SlabPlaceholder)
        requires
            old(self)@.len() < usize::MAX,
        ensures
            final(self)@ == old(self)@.push((values.spec_slab_format(), values.spec_slab_bytes())),
            p.0 == old(self)@.len() + 1,
    {
        let elems = values.slab_elems();
        self.push_slab(PendingSlab::Borrowed(elems))
    }

    /// Add a slab whose format is only known at run time, e.g. to re-emit a
    /// slab read from another file.
    pub fn add_slab_bytes(&mut self, slab: SlabBytes<'a>) -> (p: SlabPlaceholder)
        requires
            old(self)@.len() < usize::MAX,
        ensures
            final(self)@ == old(self)@.push(slab@),
            p.0 == old(self)@.len() + 1,
    {
        self.add_slab(slab)
    }

    /// Add a typed-array slab from an owned `Vec`.
    pub fn add_slab_from_vec<T: SlabPrimitive>(&mut self, values: Vec<T>) -> (p: SlabPlaceholder)
        requires
            old(self)@.len() < usize::MAX,
        ensures
            final(self)@ == old(self)@.push((T::spec_byte_format(), encode_all(values@))),
            p.0 == old(self)@.len() + 1,
    {
        let bytes = encode_slice(values.as_slice());
        self.push_owned(T::byte_format(), bytes)
    }

    /// Add a typed-array slab whose elements are produced by an iterator,
    /// which must yield exactly `count` items. The iterator is drained
    /// when the slab is added, not when the file is written: `count` items
    /// and one more pull, which yields nothing.
    pub fn add_slab_from_iter<T: SlabPrimitive, I: Iterator<Item = T>>(
        &mut self,
        count: usize,
        iter: I,
    ) -> (p: SlabPlaceholder)
        requires
            old(self)@.len() < usize::MAX,
            iter.obeys_prophetic_iter_laws(),
            iter.remaining().len() == count,
        ensures
            final(self)@ == old(self)@.push((T::spec_byte_format(), encode_all(iter.remaining()))),
            p.0 == old(self)@.len() + 1,
    {
        let ghost items = iter.remaining();
        let mut it = iter;
        let mut values: Vec<T> = Vec::new();
        let mut i: usize = 0;
        while i < count
            invariant
                i <= count,
                items.len() == count,
                it.obeys_prophetic_iter_laws(),
                it.remaining() == items.subrange(i as int, count as int),
                values@ == items.subrange(0, i as int),
            decreases count - i,
        {
            let next = it.next();
            match next {
                Some(v) => {
                    values.push(v);
                    assert(items.subrange(0, i + 1) =~= items.subrange(0, i as int).push(v));
                    assert(it.remaining() =~= items.subrange(i + 1, count as int));
                },
                None => {
                    assert(false);
                },
            }
            i = i + 1;
        }
        // One more pull, as a check that the iterator holds no item past
        // the declared `count`; by the contract it yields none.
        let extra = it.next();
        assert(extra is None);
        assert(values@ =~= items);
        self.add_slab_from_vec(values)
    }

    /// Add a JSON sub-document slab. The bytes are stored as they are; the
    /// caller is responsible for producing well-formed UTF-8 JSON.
    pub fn add_json_slab(&mut self, bytes: Vec<u8>) -> (p: SlabPlaceholder)
        requires
            old(self)@.len() < usize::MAX,
        ensures
            final(self)@ == old(self)@.push((SlabByteFormat::Json, bytes@)),
            p.0 == old(self)@.len() + 1,
    {
        self.push_owned(SlabByteFormat::Json, bytes)
    }

    /// Advanced: add a slab whose bytes are produced by a custom
    /// `StreamedSlab`. Its bytes are taken (by one call of `write`) when it
    /// is added, not when the file is written.
    pub fn add_streamed_slab<S: StreamedSlab>(&mut self, s: S) -> (p: SlabPlaceholder)
        requires
            old(self)@.len() < usize::MAX,
        ensures
            final(self)@ == old(self)@.push(
                (s.spec_slab_type().spec_to_byte_format(), s.spec_bytes()),
            ),
            p.0 == old(self)@.len() + 1,
    {
        let format = s.slab_type().to_byte_format();
        let mut bytes: Vec<u8> = Vec::new();
        s.write(&mut bytes);
        assert(bytes@ =~= s.spec_bytes());
        self.push_owned(format, bytes)
    }

    /// Finalize the file into a contiguous `Vec<u8>`. `root_json` is the
    /// UTF-8 JSON skeleton that becomes the root JSON slab (slab 0).
    pub fn finish(self, root_json: &[u8]) -> (r: Vec<u8>)
        requires
            jslb_file_len(root_json@, self@) <= usize::MAX,
        ensures
            r@ == jslb_file(root_json@, self@),
    {
        let mut buf: Vec<u8> = Vec::new();
        self.to_writer(root_json, &mut buf);
        assert(buf@ =~= jslb_file(root_json@, self@));
        buf
    }

    /// Finalize the file and append it to `out`. `root_json` is the UTF-8
    /// JSON skeleton that becomes the root JSON slab (slab 0).
    pub fn to_writer(self, root_json: &[u8], out: &mut Vec<u8>)
        requires
            jslb_file_len(root_json@, self@) <= usize::MAX,
        ensures
            final(out)@ == old(out)@ + jslb_file(root_json@, self@),
    {
        write_jslb(&self.entries, root_json, out);
    }
}

impl<'a> Default for Builder<'a> {
    fn default() -> (b: Builder<'a>)
        ensures
            b@ == Seq::<SlabView>::empty(),
    {
        Builder::new()
    }
}

/// The format and length of slab `i` of the file (slab 0 is the root).
fn slab_meta(entries: &Vec<PendingSlab>, root_json: &[u8], i: usize) -> (r: (SlabByteFormat, usize))
    requires
        i <= entries@.len(),
        file_slabs(root_json@, pending_view(entries@))[i as int].1.len() <= usize::MAX,
    ensures
        ({
            let s = file_slabs(root_json@, pending_view(entries@))[i as int];
            r.0 == s.0 && r.1 == s.1.len()
        }),
{
    if i == 0 {
        (SlabByteFormat::Json, root_json.len())
    } else {
        match &entries[i - 1] {
            PendingSlab::Borrowed(e) => (e.format(), e.byte_length()),
            PendingSlab::Owned(f, b) => (*f, b.len()),
        }
    }
}

/// Append the bytes of a registered slab to `out`.
fn write_pending(slab: &PendingSlab, out: &mut Vec<u8>)
    ensures
        final(out)@ == old(out)@ + pending_slab_view(*slab).1,
{
    match slab {
        PendingSlab::Borrowed(e) => e.write_to(out),
        PendingSlab::Owned(_, b) => push_bytes(out, b.as_slice()),
    }
}

/// Write header, slab table and payload of the file for `root_json` and
/// `entries` to `out`.
fn write_jslb(entries: &Vec<PendingSlab>, root_json: &[u8], out: &mut Vec<u8>)
    requires
        jslb_file_len(root_json@, pending_view(entries@)) <= usize::MAX,
    ensures
        final(out)@ == old(out)@ + jslb_file(root_json@, pending_view(entries@)),
{
    let ghost slabs = file_slabs(root_json@, pending_view(entries@));
    let ghost te = table_end(slabs.len());
    proof {
        lemma_layout_end_start(te, slabs);
    }
    let count = entries.len() + 1;
    assert(count == slabs.len());
    let table_end_pos = FIXED_HEADER_SIZE + count * SLAB_TABLE_ENTRY_SIZE;
    // Plan: the offset of every slab.
    let mut rows: Vec<(SlabByteFormat, usize, usize)> = Vec::new();
    let mut pos = table_end_pos;
    let mut i: usize = 0;
    assert(slabs.take(0) =~= Seq::<SlabView>::empty());
    while i < count
        invariant
            count == slabs.len(),
            count == entries@.len() + 1,
            te == table_end_pos,
            slabs == file_slabs(root_json@, pending_view(entries@)),
            layout_end(te, slabs) <= usize::MAX,
            i <= count,
            pos == layout_end(te, slabs.take(i as int)),
            rows@.len() == i,
            forall|k: int|
                0 <= k < i ==> #[trigger] rows@[k] == (
                    slabs[k].0,
                    slab_offset(te, slabs, k) as usize,
                    slabs[k].1.len() as usize,
                ),
            forall|k: int| 0 <= k < i ==> 0 <= slab_offset(te, slabs, k) && slab_offset(te, slabs, k) + slabs[k].1.len() <= usize::MAX,
        decreases count - i,
    {
        proof {
            lemma_slab_align_pos(slabs[i as int]);
            lemma_layout_end_start(te, slabs.take(i as int));
            lemma_align_up(pos as int, slab_align(slabs[i as int]));
            lemma_layout_end_step(te, slabs, i as int);
            lemma_layout_end_monotone(te, slabs, i + 1);
        }
        let (format, len) = slab_meta(entries, root_json, i);
        let align = format.element_size();
        let r = pos % align;
        let off = if r == 0 {
            pos
        } else {
            pos + (align - r)
        };
        assert(off == slab_offset(te, slabs, i as int));
        rows.push((format, off, len));
        pos = off + len;
        i = i + 1;
    }
    assert(slabs.take(count as int) =~= slabs);
    // Fixed header.
    let ghost start = out@;
    out.push(0xDCu8);
    out.push(0xDFu8);
    out.push(0x4Au8);
    out.push(0x53u8);
    out.push(0x4Cu8);
    out.push(0x42u8);
    out.push(0x01u8);
    out.push(0x00u8);
    push_u32_le(out, VERSION);
    push_u32_le(out, count as u32);
    push_u32_le(out, 0);
    assert(out@ =~= start + header_bytes(count as nat));
    // Slab table.
    let mut k: usize = 0;
    while k < count
        invariant
            count == slabs.len(),
            rows@.len() == count,
            forall|j: int|
                0 <= j < count ==> #[trigger] rows@[j] == (
                    slabs[j].0,
                    slab_offset(te, slabs, j) as usize,
                    slabs[j].1.len() as usize,
                ),
            forall|j: int| 0 <= j < count ==> 0 <= slab_offset(te, slabs, j) && slab_offset(te, slabs, j) + slabs[j].1.len() <= usize::MAX,
            k <= count,
            out@ == start + header_bytes(count as nat) + table_bytes(te, slabs, k as nat),
        decreases count - k,
    {
        let (format, off, len) = rows[k];
        let ghost before = out@;
        push_u32_le(out, format.on_disk_type().tag());
        push_u32_le(out, off as u32);
        push_u32_le(out, len as u32);
        proof {
            let s = slabs[k as int];
            assert(off as u32 == (off as int) as u32) by (bit_vector);
            assert(len as u32 == (len as int) as u32) by (bit_vector);
            let o32 = off as u32;
            let l32 = len as u32;
            assert((o32 as int) as u32 == o32);
            assert((l32 as int) as u32 == l32);
            assert(off as int == slab_offset(te, slabs, k as int));
            assert(len as int == s.1.len());
            assert(crate::format::u32_bytes(o32 as int) == crate::format::u32_bytes(slab_offset(te, slabs, k as int)));
            assert(crate::format::u32_bytes(l32 as int) == crate::format::u32_bytes(s.1.len() as int));
            assert(table_bytes(te, slabs, (k + 1) as nat) == table_bytes(te, slabs, k as nat)
                + row_bytes(s, slab_offset(te, slabs, k as int)));
            assert(out@ =~= before + row_bytes(s, slab_offset(te, slabs, k as int)));
        }
        k = k + 1;
    }
    // Payload, with alignment padding.
    let ghost mid = out@;
    let mut written = table_end_pos;
    let mut j: usize = 0;
    while j < count
        invariant
            count == slabs.len(),
            count == entries@.len() + 1,
            slabs == file_slabs(root_json@, pending_view(entries@)),
            rows@.len() == count,
            forall|m: int|
                0 <= m < count ==> #[trigger] rows@[m] == (
                    slabs[m].0,
                    slab_offset(te, slabs, m) as usize,
                    slabs[m].1.len() as usize,
                ),
            forall|m: int| 0 <= m < count ==> 0 <= slab_offset(te, slabs, m) && slab_offset(te, slabs, m) + slabs[m].1.len() <= usize::MAX,
            layout_end(te, slabs) <= usize::MAX,
            te == table_end_pos,
            j <= count,
            written == layout_end(te, slabs.take(j as int)),
            out@ == mid + payload(te, slabs.take(j as int)),
        decreases count - j,
    {
        let (_, off, len) = rows[j];
        proof {
            lemma_slab_align_pos(slabs[j as int]);
            lemma_layout_end_start(te, slabs.take(j as int));
            lemma_align_up(written as int, slab_align(slabs[j as int]));
            lemma_layout_end_step(te, slabs, j as int);
            lemma_layout_end_monotone(te, slabs, j + 1);
            lemma_payload_step(te, slabs, j as int);
        }
        write_padding(out, off - written);
        if j == 0 {
            push_bytes(out, root_json);
        } else {
            write_pending(&entries[j - 1], out);
        }
        written = off + len;
        j = j + 1;
    }
    proof {
        assert(slabs.take(count as int) =~= slabs);
        assert(out@ =~= start + slabs_file(slabs));
    }
}

} // verus!
