//! Rendering a `.jslb` file as one JSON document, as `jslb to-json` does.
//!
//! `JsonEmitter` follows the visitor calls of skeleton walks and builds
//! the resolved JSON text: JSON sub-slabs are walked in place of their
//! placeholders, typed-array slabs are written inline as JSON arrays of
//! numbers. The text collects in a buffer, which is handed out to be
//! written whenever it reaches `DRAIN_THRESHOLD` bytes; where it is
//! handed out never changes the text.

use crate::format::{SlabTableEntry, SlabType};
use crate::json_text::{
    bool_text, json_quoted, push_begin_array, push_begin_object, push_bool, push_end_array,
    push_end_object, push_json_integer, push_null, push_object_key, push_separator, separator,
    signed_decimal,
};
use crate::skeleton::{CallView, VisitorCall};
use crate::types::SlabPrimitive;
use crate::util::byte_len;
use vstd::prelude::*;
use vstd::slice::slice_subrange;
use vstd::string::StringExecFns;

verus! {

/// Buffered output is handed out once it reaches this many bytes.
pub const DRAIN_THRESHOLD: usize = 65536;

/// Typed-array slabs are read in pieces of about this many bytes.
pub const READ_BUF: usize = 65536;

/// Whether a slab type holds integers (rather than floats or JSON).
pub open spec fn is_integer_type(t: SlabType) -> bool {
    !(t == SlabType::Float32 || t == SlabType::Float64 || t == SlabType::Json)
}

/// The value of one little-endian element of an integer slab type.
pub open spec fn elem_value(t: SlabType, e: Seq<u8>) -> int {
    match t {
        SlabType::Int8 => <i8 as SlabPrimitive>::spec_from_le(e) as int,
        SlabType::Uint8 => <u8 as SlabPrimitive>::spec_from_le(e) as int,
        SlabType::Int16 => <i16 as SlabPrimitive>::spec_from_le(e) as int,
        SlabType::Uint16 => <u16 as SlabPrimitive>::spec_from_le(e) as int,
        SlabType::Int32 => <i32 as SlabPrimitive>::spec_from_le(e) as int,
        SlabType::Uint32 => <u32 as SlabPrimitive>::spec_from_le(e) as int,
        SlabType::Int64 => <i64 as SlabPrimitive>::spec_from_le(e) as int,
        SlabType::Uint64 => <u64 as SlabPrimitive>::spec_from_le(e) as int,
        _ => 0,
    }
}

/// The JSON text of the elements of an integer slab whose bytes are
/// `bytes`, each preceded by its separator (none before the very first
/// one when `first`). A trailing part shorter than an element is ignored.
pub open spec fn typed_text(t: SlabType, bytes: Seq<u8>, first: bool) -> Seq<char>
    decreases bytes.len(),
{
    let sz = t.spec_element_size() as int;
    if sz <= 0 || bytes.len() < sz {
        Seq::empty()
    } else {
        separator(first) + signed_decimal(elem_value(t, bytes.subrange(0, sz))) + typed_text(
            t,
            bytes.subrange(sz, bytes.len() as int),
            false,
        )
    }
}

/// Appends the JSON number of one element of an integer slab.
pub fn write_typed_elem(buffer: &mut String, slab_type: SlabType, c: &[u8])
    requires
        is_integer_type(slab_type),
        c@.len() == slab_type.spec_element_size(),
    ensures
        final(buffer)@ == old(buffer)@ + signed_decimal(elem_value(slab_type, c@)),
{
    match slab_type {
        SlabType::Int8 => push_json_integer(buffer, <i8 as SlabPrimitive>::from_le_bytes(c) as i128),
        SlabType::Uint8 => push_json_integer(buffer, <u8 as SlabPrimitive>::from_le_bytes(c) as i128),
        SlabType::Int16 => push_json_integer(
            buffer,
            <i16 as SlabPrimitive>::from_le_bytes(c) as i128,
        ),
        SlabType::Uint16 => push_json_integer(
            buffer,
            <u16 as SlabPrimitive>::from_le_bytes(c) as i128,
        ),
        SlabType::Int32 => push_json_integer(
            buffer,
            <i32 as SlabPrimitive>::from_le_bytes(c) as i128,
        ),
        SlabType::Uint32 => push_json_integer(
            buffer,
            <u32 as SlabPrimitive>::from_le_bytes(c) as i128,
        ),
        SlabType::Int64 => push_json_integer(
            buffer,
            <i64 as SlabPrimitive>::from_le_bytes(c) as i128,
        ),
        _ => push_json_integer(buffer, <u64 as SlabPrimitive>::from_le_bytes(c) as i128),
    }
}

/// The size of the pieces in which a typed-array slab is read: the most
/// whole elements that fit in `READ_BUF` bytes.
pub fn chunk_capacity(slab_type: SlabType) -> (n: usize)
    ensures
        n == (READ_BUF / slab_type.spec_element_size()) * slab_type.spec_element_size(),
{
    let elem = slab_type.element_size();
    (READ_BUF / elem) * elem
}

/// Why a skeleton cannot be rendered.
#[derive(Debug, Clone, Copy, PartialEq, Eq, Structural)]
pub enum RenderError {
    /// A placeholder refers to a slab index past the slab table.
    SlabIndexOutOfRange(usize),
}

/// The slab a placeholder refers to, or the error for an index past the
/// slab table. A JSON slab is then walked in place of the placeholder; a
/// typed-array slab is written as a JSON array.
pub fn resolve_placeholder(slabs: &[SlabTableEntry], slab_idx: usize) -> (r: Result<
    SlabTableEntry,
    RenderError,
>)
    ensures
        slab_idx < slabs@.len() ==> r == Ok::<SlabTableEntry, RenderError>(slabs@[slab_idx as int]),
        slab_idx >= slabs@.len() ==> r == Err::<SlabTableEntry, RenderError>(
            RenderError::SlabIndexOutOfRange(slab_idx),
        ),
{
    if slab_idx < slabs.len() {
        Ok(slabs[slab_idx])
    } else {
        Err(RenderError::SlabIndexOutOfRange(slab_idx))
    }
}

/// What a `JsonEmitter` holds: the text already handed out to be
/// written, and the text still buffered.
pub struct EmitterView {
    pub handed: Seq<char>,
    pub pending: Seq<char>,
}

/// All the text an emitter has produced.
pub open spec fn output(v: EmitterView) -> Seq<char> {
    v.handed + v.pending
}

/// That `text` was added to the buffer of `before`, leaving `after`,
/// with nothing handed out.
pub open spec fn buffered(before: EmitterView, after: EmitterView, text: Seq<char>) -> bool {
    &&& after.pending == before.pending + text
    &&& after.handed == before.handed
}

/// That `text` was added to the buffer of `before`, which was then
/// handed out as `r` if it reached `DRAIN_THRESHOLD` bytes, leaving
/// `after`.
pub open spec fn drained(
    before: EmitterView,
    after: EmitterView,
    text: Seq<char>,
    r: Option<Seq<char>>,
) -> bool {
    let p = before.pending + text;
    if byte_len(p) >= DRAIN_THRESHOLD {
        &&& r == Some(p)
        &&& after.pending == Seq::<char>::empty()
        &&& after.handed == before.handed + p
    } else {
        &&& r is None
        &&& after.pending == p
        &&& after.handed == before.handed
    }
}

/// The view of text that may have been handed out.
pub open spec fn opt_text(r: Option<String>) -> Option<Seq<char>> {
    match r {
        Some(s) => Some(s@),
        None => None,
    }
}

/// The JSON text that a visitor call adds, for the calls that add text by
/// themselves (`Placeholder` adds the text of the slab it refers to).
pub open spec fn call_text(c: CallView) -> Seq<char> {
    match c {
        CallView::EnterObject => seq!['{'],
        CallView::ExitObject(_) => seq!['}'],
        CallView::EnterArray => seq!['['],
        CallView::ExitArray(_) => seq![']'],
        CallView::ObjectKey(k, first) => separator(first) + json_quoted(k) + seq![':'],
        CallView::ArrayElement(i) => separator(i == 0),
        CallView::ValueString(s) => json_quoted(s),
        CallView::ValueNumber(raw) => raw,
        CallView::ValueTrue => bool_text(true),
        CallView::ValueFalse => bool_text(false),
        CallView::ValueNull => seq!['n', 'u', 'l', 'l'],
        CallView::Placeholder(_) => Seq::empty(),
    }
}

/// Whether the buffer may be handed out after a call: after closing a
/// container and after a scalar value.
pub open spec fn call_drains(c: CallView) -> bool {
    match c {
        CallView::ExitObject(_) => true,
        CallView::ExitArray(_) => true,
        CallView::ValueString(_) => true,
        CallView::ValueNumber(_) => true,
        CallView::ValueTrue => true,
        CallView::ValueFalse => true,
        CallView::ValueNull => true,
        _ => false,
    }
}

/// Streams resolved JSON: every visitor call appends its text, and the
/// buffer is handed out to be written once it is large enough.
pub struct JsonEmitter {
    buffer: String,
    handed: Ghost<Seq<char>>,
}

impl View for JsonEmitter {
    type V = EmitterView;

    closed spec fn view(&self) -> EmitterView {
        EmitterView { handed: self.handed@, pending: self.buffer@ }
    }
}

impl JsonEmitter {
    /// An emitter that has produced nothing.
    pub fn new() -> (e: JsonEmitter)
        ensures
            e@.handed == Seq::<char>::empty(),
            e@.pending == Seq::<char>::empty(),
    {
        JsonEmitter { buffer: String::new(), handed: Ghost(Seq::empty()) }
    }

    /// Hands out the whole buffer, which is then empty.
    pub fn flush(&mut self) -> (out: String)
        ensures
            out@ == old(self)@.pending,
            final(self)@.pending == Seq::<char>::empty(),
            final(self)@.handed == old(self)@.handed + old(self)@.pending,
    {
        let mut out = String::new();
        std::mem::swap(&mut out, &mut self.buffer);
        self.handed = Ghost(self.handed@ + out@);
        out
    }

    /// Hands out the buffer if it holds at least `DRAIN_THRESHOLD` bytes.
    pub fn maybe_drain(&mut self) -> (r: Option<String>)
        ensures
            drained(old(self)@, final(self)@, Seq::empty(), opt_text(r)),
    {
        assert(old(self)@.pending + Seq::<char>::empty() =~= old(self)@.pending);
        if self.buffer.as_str().len() >= DRAIN_THRESHOLD {
            Some(self.flush())
        } else {
            None
        }
    }

    /// Appends the text of a visitor call, for every call but
    /// `Placeholder`, handing out the buffer after the calls that drain.
    pub fn visit(&mut self, call: &VisitorCall) -> (r: Option<String>)
        requires
            !(call@ is Placeholder),
        ensures
            call_drains(call@) ==> drained(old(self)@, final(self)@, call_text(call@), opt_text(r)),
            !call_drains(call@) ==> buffered(old(self)@, final(self)@, call_text(call@)) && r is None,
    {
        let ghost p0 = self.buffer@;
        match call {
            VisitorCall::EnterObject => {
                push_begin_object(&mut self.buffer);
                assert(self@.pending =~= p0 + call_text(call@));
                None
            },
            VisitorCall::ExitObject(_) => {
                push_end_object(&mut self.buffer);
                self.maybe_drain()
            },
            VisitorCall::EnterArray => {
                push_begin_array(&mut self.buffer);
                assert(self@.pending =~= p0 + call_text(call@));
                None
            },
            VisitorCall::ExitArray(_) => {
                push_end_array(&mut self.buffer);
                self.maybe_drain()
            },
            VisitorCall::ObjectKey(k, first) => {
                push_object_key(&mut self.buffer, k.as_str(), *first);
                assert(self@.pending =~= p0 + call_text(call@));
                None
            },
            VisitorCall::ArrayElement(i) => {
                push_separator(&mut self.buffer, *i == 0);
                assert(self@.pending =~= p0 + call_text(call@));
                None
            },
            VisitorCall::ValueString(s) => {
                crate::json_text::push_json_string(&mut self.buffer, s.as_str());
                self.maybe_drain()
            },
            VisitorCall::ValueNumber(raw) => {
                self.buffer.append(raw.as_str());
                self.maybe_drain()
            },
            VisitorCall::ValueTrue => {
                push_bool(&mut self.buffer, true);
                self.maybe_drain()
            },
            VisitorCall::ValueFalse => {
                push_bool(&mut self.buffer, false);
                self.maybe_drain()
            },
            VisitorCall::ValueNull => {
                push_null(&mut self.buffer);
                self.maybe_drain()
            },
            VisitorCall::Placeholder(_) => {
                assert(self@.pending =~= p0 + call_text(call@));
                None
            },
        }
    }

    /// Opens the JSON array of a typed-array slab.
    pub fn begin_typed_array(&mut self)
        ensures
            buffered(old(self)@, final(self)@, seq!['[']),
    {
        push_begin_array(&mut self.buffer);
    }

    /// Closes the JSON array of a typed-array slab, handing out the buffer
    /// if it is large enough.
    pub fn end_typed_array(&mut self) -> (r: Option<String>)
        ensures
            drained(old(self)@, final(self)@, seq![']'], opt_text(r)),
    {
        push_end_array(&mut self.buffer);
        self.maybe_drain()
    }

    /// Appends one element of a typed-array slab given as its JSON text
    /// (`first` for the array's first element), handing out the buffer if
    /// it is large enough.
    pub fn typed_element_text(&mut self, first: bool, text: &str) -> (r: Option<String>)
        ensures
            drained(old(self)@, final(self)@, separator(first) + text@, opt_text(r)),
    {
        let ghost p0 = self@.pending;
        push_separator(&mut self.buffer, first);
        self.buffer.append(text);
        assert(self@.pending =~= p0 + (separator(first) + text@));
        self.maybe_drain()
    }

    /// Appends the elements of a piece of an integer slab (`first` when
    /// none of the slab's elements was written yet), handing out the
    /// buffer after each element that brings it to `DRAIN_THRESHOLD`
    /// bytes. Returns whether still no element was written, and all the
    /// text handed out, in order.
    #[verifier::rlimit(40)]
    pub fn typed_elements(&mut self, slab_type: SlabType, chunk: &[u8], first: bool) -> (r: (
        bool,
        String,
    ))
        requires
            is_integer_type(slab_type),
        ensures
            output(final(self)@) == output(old(self)@) + typed_text(slab_type, chunk@, first),
            final(self)@.handed == old(self)@.handed + r.1@,
            chunk@.len() >= slab_type.spec_element_size() ==> byte_len(final(self)@.pending)
                < DRAIN_THRESHOLD,
            chunk@.len() < slab_type.spec_element_size() ==> final(self)@.pending == old(
                self,
            )@.pending && final(self)@.handed == old(self)@.handed,
            r.0 == (first && chunk@.len() < slab_type.spec_element_size()),
    {
        let sz = slab_type.element_size();
        proof {
            crate::format::lemma_element_size_range(slab_type);
        }
        let n = chunk.len();
        let mut off: usize = 0;
        let mut first_now = first;
        let mut handed_now = String::new();
        let ghost out0 = output(self@);
        let ghost h0 = self@.handed;
        assert(chunk@.subrange(0, n as int) =~= chunk@);
        while n - off >= sz
            invariant
                sz == slab_type.spec_element_size(),
                1 <= sz <= 8,
                is_integer_type(slab_type),
                n == chunk@.len(),
                off <= n,
                off == 0 || sz <= off,
                output(self@) + typed_text(slab_type, chunk@.subrange(off as int, n as int), first_now)
                    == out0 + typed_text(slab_type, chunk@, first),
                self@.handed == h0 + handed_now@,
                first_now == (first && off == 0),
                off > 0 ==> byte_len(self@.pending) < DRAIN_THRESHOLD,
                off == 0 ==> self@.pending == old(self)@.pending && self@.handed == old(self)@.handed,
                out0 == output(old(self)@),
                h0 == old(self)@.handed,
            decreases n - off,
        {
            let ghost rest = chunk@.subrange(off as int, n as int);
            let ghost before = output(self@);
            let elem = slice_subrange(chunk, off, off + sz);
            push_separator(&mut self.buffer, first_now);
            write_typed_elem(&mut self.buffer, slab_type, elem);
            proof {
                assert(rest.subrange(0, sz as int) =~= elem@);
                assert(rest.subrange(sz as int, rest.len() as int) =~= chunk@.subrange(
                    off + sz,
                    n as int,
                ));
                assert(output(self@) =~= before + (separator(first_now) + signed_decimal(
                    elem_value(slab_type, elem@),
                )));
            }
            let d = self.maybe_drain();
            match d {
                Some(t) => {
                    handed_now.append(t.as_str());
                },
                None => {},
            }
            off = off + sz;
            first_now = false;
        }
        proof {
            if off == 0 {
                assert(handed_now@ =~= Seq::<char>::empty());
            }
            assert(typed_text(slab_type, chunk@.subrange(off as int, n as int), first_now)
                =~= Seq::<char>::empty());
            assert(output(self@) + Seq::<char>::empty() =~= output(self@));
        }
        (first_now, handed_now)
    }
}

/// Handing out the buffer never changes the text: after any call, all the
/// text produced is the text before it followed by the call's own text,
/// wherever the buffer was handed out.
pub proof fn law_draining_keeps_output(
    before: EmitterView,
    after: EmitterView,
    text: Seq<char>,
    r: Option<Seq<char>>,
)
    requires
        drained(before, after, text, r) || buffered(before, after, text),
    ensures
        output(after) == output(before) + text,
{
    if drained(before, after, text, r) && byte_len(before.pending + text) >= DRAIN_THRESHOLD {
        assert(output(after) =~= output(before) + text);
    } else {
        assert(output(after) =~= output(before) + text);
    }
}

} // verus!
