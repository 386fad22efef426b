//! Slab bytes in memory, the primitive element types, and the encoding of
//! element sequences into little-endian slab bytes.

use crate::format::{SlabByteFormat, SlabType};
use crate::sealed::Sealed;
use crate::le::{
    lemma_u16_le, lemma_u32_le, lemma_u64_le, u16_from_le, u16_le_bytes, u16_le_value, u16_to_le,
    u32_from_le, u32_le_bytes, u32_le_value, u32_to_le, u64_from_le, u64_le_bytes, u64_le_value,
    u64_to_le,
};
use vstd::prelude::*;

verus! {

/// The key of a placeholder object `{"$s": N}`.
pub const SLAB_REF_KEY: &'static str = "$s";

/// A reference to a slice of slab bytes, annotated with its byte format.
///
/// Returned by `ParsedFile::slab_at` and friends, and accepted by
/// `Builder::add_slab_bytes`.
#[derive(Debug, Clone, Copy)]
pub struct SlabBytes<'a> {
    /// The element format of `bytes`.
    pub slab_type: SlabByteFormat,
    /// Borrowed slab bytes. For slabs read from a file the length is a
    /// multiple of `slab_type.element_size()`.
    pub bytes: &'a [u8],
}

impl<'a> View for SlabBytes<'a> {
    type V = (SlabByteFormat, Seq<u8>);

    open spec fn view(&self) -> (SlabByteFormat, Seq<u8>) {
        (self.slab_type, self.bytes@)
    }
}

impl<'a> SlabBytes<'a> {
    /// Number of typed elements in the slab, i.e.
    /// `bytes.len() / slab_type.element_size()`.
    pub fn element_count(&self) -> (n: usize)
        ensures
            n == self.bytes@.len() / (self.slab_type.spec_element_size() as nat),
    {
        proof {
            crate::format::lemma_byte_format_roundtrip(self.slab_type);
        }
        self.bytes.len() / self.slab_type.element_size()
    }
}

/// Raw UTF-8 JSON bytes, to be stored as a JSON slab.
#[derive(Debug, Clone, Copy)]
pub struct JsonBytes<'a>(pub &'a [u8]);

/// A numeric primitive that can be the element type of a typed-array slab:
/// the built-in integer types.
pub trait SlabPrimitive: Copy + Sealed {
    /// The byte format of a slab of this element type.
    spec fn spec_byte_format() -> SlabByteFormat;

    /// The value whose little-endian encoding is `bytes`.
    spec fn spec_from_le(bytes: Seq<u8>) -> Self;

    /// The little-endian encoding of `self`.
    spec fn spec_to_le(self) -> Seq<u8>;

    /// The byte format of a slab of this element type.
    fn byte_format() -> (f: SlabByteFormat)
        ensures
            f == Self::spec_byte_format(),
    ;

    /// The on-disk slab type tag for this element type.
    fn slab_type() -> (t: SlabType)
        ensures
            t == Self::spec_byte_format().spec_on_disk_type(),
    ;

    /// Decode one element from its little-endian bytes.
    fn from_le_bytes(bytes: &[u8]) -> (v: Self)
        requires
            bytes@.len() == Self::spec_byte_format().spec_element_size(),
        ensures
            v == Self::spec_from_le(bytes@),
    ;

    /// Encode one element as its little-endian bytes.
    fn to_le_bytes(self) -> (b: Vec<u8>)
        ensures
            b@ == self.spec_to_le(),
    ;

    /// The encoding has the element size and decodes back to `self`.
    proof fn lemma_le_roundtrip(self)
        ensures
            self.spec_to_le().len() == Self::spec_byte_format().spec_element_size(),
            Self::spec_from_le(self.spec_to_le()) == self,
    ;
}

impl SlabPrimitive for u8 {
    open spec fn spec_byte_format() -> SlabByteFormat {
        SlabByteFormat::U8
    }

    open spec fn spec_from_le(bytes: Seq<u8>) -> u8 {
        bytes[0]
    }

    open spec fn spec_to_le(self) -> Seq<u8> {
        seq![self]
    }

    fn byte_format() -> (f: SlabByteFormat) {
        SlabByteFormat::U8
    }

    fn slab_type() -> (t: SlabType) {
        SlabType::Uint8
    }

    fn from_le_bytes(bytes: &[u8]) -> (v: u8) {
        bytes[0]
    }

    fn to_le_bytes(self) -> (b: Vec<u8>) {
        let b = vec![self];
        assert(b@ =~= seq![self]);
        b
    }

    proof fn lemma_le_roundtrip(self) {
    }
}

impl SlabPrimitive for i8 {
    open spec fn spec_byte_format() -> SlabByteFormat {
        SlabByteFormat::I8
    }

    open spec fn spec_from_le(bytes: Seq<u8>) -> i8 {
        bytes[0] as i8
    }

    open spec fn spec_to_le(self) -> Seq<u8> {
        seq![self as u8]
    }

    fn byte_format() -> (f: SlabByteFormat) {
        SlabByteFormat::I8
    }

    fn slab_type() -> (t: SlabType) {
        SlabType::Int8
    }

    fn from_le_bytes(bytes: &[u8]) -> (v: i8) {
        bytes[0] as i8
    }

    fn to_le_bytes(self) -> (b: Vec<u8>) {
        let b = vec![self as u8];
        assert(b@ =~= seq![self as u8]);
        b
    }

    proof fn lemma_le_roundtrip(self) {
        let x = self;
        assert((x as u8) as i8 == x) by (bit_vector);
    }
}

impl SlabPrimitive for u16 {
    open spec fn spec_byte_format() -> SlabByteFormat {
        SlabByteFormat::U16LE
    }

    open spec fn spec_from_le(bytes: Seq<u8>) -> u16 {
        u16_le_value(bytes)
    }

    open spec fn spec_to_le(self) -> Seq<u8> {
        u16_le_bytes(self)
    }

    fn byte_format() -> (f: SlabByteFormat) {
        SlabByteFormat::U16LE
    }

    fn slab_type() -> (t: SlabType) {
        SlabType::Uint16
    }

    fn from_le_bytes(bytes: &[u8]) -> (v: u16) {
        u16_from_le(bytes)
    }

    fn to_le_bytes(self) -> (b: Vec<u8>) {
        u16_to_le(self)
    }

    proof fn lemma_le_roundtrip(self) {
        lemma_u16_le(self);
    }
}

impl SlabPrimitive for i16 {
    open spec fn spec_byte_format() -> SlabByteFormat {
        SlabByteFormat::I16LE
    }

    open spec fn spec_from_le(bytes: Seq<u8>) -> i16 {
        u16_le_value(bytes) as i16
    }

    open spec fn spec_to_le(self) -> Seq<u8> {
        u16_le_bytes(self as u16)
    }

    fn byte_format() -> (f: SlabByteFormat) {
        SlabByteFormat::I16LE
    }

    fn slab_type() -> (t: SlabType) {
        SlabType::Int16
    }

    fn from_le_bytes(bytes: &[u8]) -> (v: i16) {
        u16_from_le(bytes) as i16
    }

    fn to_le_bytes(self) -> (b: Vec<u8>) {
        u16_to_le(self as u16)
    }

    proof fn lemma_le_roundtrip(self) {
        lemma_u16_le(self as u16);
        let x = self;
        assert((x as u16) as i16 == x) by (bit_vector);
    }
}

impl SlabPrimitive for u32 {
    open spec fn spec_byte_format() -> SlabByteFormat {
        SlabByteFormat::U32LE
    }

    open spec fn spec_from_le(bytes: Seq<u8>) -> u32 {
        u32_le_value(bytes)
    }

    open spec fn spec_to_le(self) -> Seq<u8> {
        u32_le_bytes(self)
    }

    fn byte_format() -> (f: SlabByteFormat) {
        SlabByteFormat::U32LE
    }

    fn slab_type() -> (t: SlabType) {
        SlabType::Uint32
    }

    fn from_le_bytes(bytes: &[u8]) -> (v: u32) {
        u32_from_le(bytes)
    }

    fn to_le_bytes(self) -> (b: Vec<u8>) {
        u32_to_le(self)
    }

    proof fn lemma_le_roundtrip(self) {
        lemma_u32_le(self);
    }
}

impl SlabPrimitive for i32 {
    open spec fn spec_byte_format() -> SlabByteFormat {
        SlabByteFormat::I32LE
    }

    open spec fn spec_from_le(bytes: Seq<u8>) -> i32 {
        u32_le_value(bytes) as i32
    }

    open spec fn spec_to_le(self) -> Seq<u8> {
        u32_le_bytes(self as u32)
    }

    fn byte_format() -> (f: SlabByteFormat) {
        SlabByteFormat::I32LE
    }

    fn slab_type() -> (t: SlabType) {
        SlabType::Int32
    }

    fn from_le_bytes(bytes: &[u8]) -> (v: i32) {
        u32_from_le(bytes) as i32
    }

    fn to_le_bytes(self) -> (b: Vec<u8>) {
        u32_to_le(self as u32)
    }

    proof fn lemma_le_roundtrip(self) {
        lemma_u32_le(self as u32);
        let x = self;
        assert((x as u32) as i32 == x) by (bit_vector);
    }
}

impl SlabPrimitive for u64 {
    open spec fn spec_byte_format() -> SlabByteFormat {
        SlabByteFormat::U64LE
    }

    open spec fn spec_from_le(bytes: Seq<u8>) -> u64 {
        u64_le_value(bytes)
    }

    open spec fn spec_to_le(self) -> Seq<u8> {
        u64_le_bytes(self)
    }

    fn byte_format() -> (f: SlabByteFormat) {
        SlabByteFormat::U64LE
    }

    fn slab_type() -> (t: SlabType) {
        SlabType::Uint64
    }

    fn from_le_bytes(bytes: &[u8]) -> (v: u64) {
        u64_from_le(bytes)
    }

    fn to_le_bytes(self) -> (b: Vec<u8>) {
        u64_to_le(self)
    }

    proof fn lemma_le_roundtrip(self) {
        lemma_u64_le(self);
    }
}

impl SlabPrimitive for i64 {
    open spec fn spec_byte_format() -> SlabByteFormat {
        SlabByteFormat::I64LE
    }

    open spec fn spec_from_le(bytes: Seq<u8>) -> i64 {
        u64_le_value(bytes) as i64
    }

    open spec fn spec_to_le(self) -> Seq<u8> {
        u64_le_bytes(self as u64)
    }

    fn byte_format() -> (f: SlabByteFormat) {
        SlabByteFormat::I64LE
    }

    fn slab_type() -> (t: SlabType) {
        SlabType::Int64
    }

    fn from_le_bytes(bytes: &[u8]) -> (v: i64) {
        u64_from_le(bytes) as i64
    }

    fn to_le_bytes(self) -> (b: Vec<u8>) {
        u64_to_le(self as u64)
    }

    proof fn lemma_le_roundtrip(self) {
        lemma_u64_le(self as u64);
        let x = self;
        assert((x as u64) as i64 == x) by (bit_vector);
    }
}

/// The element size of `T`'s slabs.
pub open spec fn elem_size<T: SlabPrimitive>() -> int {
    T::spec_byte_format().spec_element_size() as int
}

/// The slab bytes of a sequence of elements: their little-endian
/// encodings, concatenated in order.
pub open spec fn encode_all<T: SlabPrimitive>(vs: Seq<T>) -> Seq<u8>
    decreases vs.len(),
{
    if vs.len() == 0 {
        Seq::empty()
    } else {
        encode_all(vs.drop_last()) + vs.last().spec_to_le()
    }
}

/// The elements of a slab: each `elem_size` chunk of `bytes`, decoded in
/// order. Trailing bytes that do not fill a chunk are ignored.
pub open spec fn decode_all<T: SlabPrimitive>(bytes: Seq<u8>) -> Seq<T> {
    let es = elem_size::<T>();
    Seq::new(
        (bytes.len() as int / es) as nat,
        |i: int| T::spec_from_le(bytes.subrange(i * es, i * es + es)),
    )
}

/// Element sizes are positive.
pub proof fn lemma_elem_size_pos<T: SlabPrimitive>()
    ensures
        elem_size::<T>() == 1 || elem_size::<T>() == 2 || elem_size::<T>() == 4
            || elem_size::<T>() == 8,
{
    crate::format::lemma_byte_format_roundtrip(T::spec_byte_format());
}

/// The encoding of `vs` is `vs.len()` chunks of the element size, the
/// `i`-th of which encodes `vs[i]`.
pub proof fn lemma_encode_all_chunks<T: SlabPrimitive>(vs: Seq<T>)
    ensures
        encode_all(vs).len() == vs.len() * elem_size::<T>(),
        forall|i: int|
            0 <= i < vs.len() ==> #[trigger] encode_all(vs).subrange(
                i * elem_size::<T>(),
                i * elem_size::<T>() + elem_size::<T>(),
            ) == vs[i].spec_to_le(),
    decreases vs.len(),
{
    let es = elem_size::<T>();
    lemma_elem_size_pos::<T>();
    if vs.len() > 0 {
        let prefix = vs.drop_last();
        lemma_encode_all_chunks(prefix);
        vs.last().lemma_le_roundtrip();
        let n = vs.len() as int;
        assert(n * es == (n - 1) * es + es) by (nonlinear_arith);
        let e = encode_all(vs);
        assert(e == encode_all(prefix) + vs.last().spec_to_le());
        assert forall|i: int| 0 <= i < vs.len() implies #[trigger] encode_all(vs).subrange(
            i * es,
            i * es + es,
        ) == vs[i].spec_to_le() by {
            if i < n - 1 {
                assert(i * es + es <= (n - 1) * es) by (nonlinear_arith)
                    requires
                        i < n - 1,
                        es > 0,
                ;
                assert(0 <= i * es) by (nonlinear_arith)
                    requires
                        0 <= i,
                        es > 0,
                ;
                assert(e.subrange(i * es, i * es + es) =~= encode_all(prefix).subrange(
                    i * es,
                    i * es + es,
                ));
                assert(prefix[i] == vs[i]);
            } else {
                assert(i * es == (n - 1) * es);
                assert(e.subrange(i * es, i * es + es) =~= vs.last().spec_to_le());
            }
        }
    }
}

/// Decoding the encoding of a sequence of elements gives it back.
pub proof fn law_decode_encode<T: SlabPrimitive>(vs: Seq<T>)
    ensures
        decode_all::<T>(encode_all(vs)) == vs,
{
    let es = elem_size::<T>();
    lemma_elem_size_pos::<T>();
    lemma_encode_all_chunks(vs);
    let e = encode_all(vs);
    let n = vs.len() as int;
    assert((n * es) / es == n) by (nonlinear_arith)
        requires
            es > 0,
    ;
    let d = decode_all::<T>(e);
    assert(d.len() == vs.len());
    assert forall|i: int| 0 <= i < vs.len() implies d[i] == vs[i] by {
        assert(e.subrange(i * es, i * es + es) == vs[i].spec_to_le());
        vs[i].lemma_le_roundtrip();
    }
    assert(d =~= vs);
}

/// Encode a slice of elements as little-endian slab bytes.
pub fn encode_slice<T: SlabPrimitive>(values: &[T]) -> (out: Vec<u8>)
    ensures
        out@ == encode_all(values@),
{
    let mut out: Vec<u8> = Vec::new();
    let n = values.len();
    let mut i: usize = 0;
    while i < n
        invariant
            n == values@.len(),
            i <= n,
            out@ == encode_all(values@.subrange(0, i as int)),
        decreases n - i,
    {
        let mut b = values[i].to_le_bytes();
        out.append(&mut b);
        proof {
            let next = values@.subrange(0, i + 1);
            assert(next.drop_last() =~= values@.subrange(0, i as int));
            assert(next.last() == values@[i as int]);
        }
        i = i + 1;
    }
    assert(values@.subrange(0, n as int) =~= values@);
    out
}

/// Decode the elements of slab bytes whose length is a multiple of the
/// element size.
pub fn decode_slice<T: SlabPrimitive>(bytes: &[u8]) -> (out: Vec<T>)
    requires
        bytes@.len() % (elem_size::<T>() as nat) == 0,
    ensures
        out@ == decode_all::<T>(bytes@),
{
    proof {
        lemma_elem_size_pos::<T>();
    }
    let es = T::byte_format().element_size();
    let n = bytes.len();
    let count = n / es;
    let mut out: Vec<T> = Vec::new();
    let mut i: usize = 0;
    while i < count
        invariant
            es as int == elem_size::<T>(),
            es > 0,
            n == bytes@.len(),
            count == n / es,
            i <= count,
            out@.len() == i,
            forall|k: int|
                0 <= k < i ==> #[trigger] out@[k] == T::spec_from_le(
                    bytes@.subrange(k * es, k * es + es),
                ),
        decreases count - i,
    {
        assert(i * es + es <= n) by (nonlinear_arith)
            requires
                i < count,
                count == n / es,
                es > 0,
        ;
        assert(0 <= i * es) by (nonlinear_arith)
            requires
                es > 0,
        ;
        let start = i * es;
        let chunk = vstd::slice::slice_subrange(bytes, start, start + es);
        let v = T::from_le_bytes(chunk);
        out.push(v);
        i = i + 1;
    }
    assert(out@ =~= decode_all::<T>(bytes@));
    out
}

/// Append the little-endian encoding of `values` to `out`.
pub fn append_encoded<T: SlabPrimitive>(out: &mut Vec<u8>, values: &[T])
    ensures
        final(out)@ == old(out)@ + encode_all(values@),
{
    let ghost start = out@;
    let n = values.len();
    let mut i: usize = 0;
    while i < n
        invariant
            n == values@.len(),
            i <= n,
            out@ == start + encode_all(values@.subrange(0, i as int)),
        decreases n - i,
    {
        let mut b = values[i].to_le_bytes();
        out.append(&mut b);
        proof {
            let next = values@.subrange(0, i + 1);
            assert(next.drop_last() =~= values@.subrange(0, i as int));
            assert(next.last() == values@[i as int]);
        }
        i = i + 1;
    }
    assert(values@.subrange(0, n as int) =~= values@);
}

/// Bytes encode as themselves.
pub proof fn lemma_encode_bytes(bytes: Seq<u8>)
    ensures
        encode_all(bytes) == bytes,
    decreases bytes.len(),
{
    if bytes.len() > 0 {
        lemma_encode_bytes(bytes.drop_last());
        assert(bytes =~= bytes.drop_last() + seq![bytes.last()]);
    }
}

/// The number of bytes in the encoding of `values`.
fn encoded_len<T: SlabPrimitive>(values: &[T]) -> (n: usize)
    requires
        encode_all(values@).len() <= usize::MAX,
    ensures
        n == encode_all(values@).len(),
{
    proof {
        lemma_encode_all_chunks(values@);
    }
    values.len() * T::byte_format().element_size()
}

/// The elements of one slab, borrowed from the caller: a slice of one of
/// the primitive element types, or bytes already in their slab format.
#[derive(Debug, Clone, Copy)]
pub enum SlabElems<'a> {
    /// Bytes already in `format`.
    Bytes(SlabByteFormat, &'a [u8]),
    U8(&'a [u8]),
    I8(&'a [i8]),
    U16(&'a [u16]),
    I16(&'a [i16]),
    U32(&'a [u32]),
    I32(&'a [i32]),
    U64(&'a [u64]),
    I64(&'a [i64]),
}

impl<'a> SlabElems<'a> {
    /// The byte format of the slab.
    pub open spec fn spec_format(self) -> SlabByteFormat {
        match self {
            SlabElems::Bytes(f, _) => f,
            SlabElems::U8(_) => SlabByteFormat::U8,
            SlabElems::I8(_) => SlabByteFormat::I8,
            SlabElems::U16(_) => SlabByteFormat::U16LE,
            SlabElems::I16(_) => SlabByteFormat::I16LE,
            SlabElems::U32(_) => SlabByteFormat::U32LE,
            SlabElems::I32(_) => SlabByteFormat::I32LE,
            SlabElems::U64(_) => SlabByteFormat::U64LE,
            SlabElems::I64(_) => SlabByteFormat::I64LE,
        }
    }

    /// The bytes of the slab: the little-endian encoding of the elements.
    pub open spec fn spec_bytes(self) -> Seq<u8> {
        match self {
            SlabElems::Bytes(_, b) => b@,
            SlabElems::U8(v) => encode_all(v@),
            SlabElems::I8(v) => encode_all(v@),
            SlabElems::U16(v) => encode_all(v@),
            SlabElems::I16(v) => encode_all(v@),
            SlabElems::U32(v) => encode_all(v@),
            SlabElems::I32(v) => encode_all(v@),
            SlabElems::U64(v) => encode_all(v@),
            SlabElems::I64(v) => encode_all(v@),
        }
    }

    /// The byte format of the slab.
    pub fn format(&self) -> (f: SlabByteFormat)
        ensures
            f == self.spec_format(),
    {
        match self {
            SlabElems::Bytes(f, _) => *f,
            SlabElems::U8(_) => SlabByteFormat::U8,
            SlabElems::I8(_) => SlabByteFormat::I8,
            SlabElems::U16(_) => SlabByteFormat::U16LE,
            SlabElems::I16(_) => SlabByteFormat::I16LE,
            SlabElems::U32(_) => SlabByteFormat::U32LE,
            SlabElems::I32(_) => SlabByteFormat::I32LE,
            SlabElems::U64(_) => SlabByteFormat::U64LE,
            SlabElems::I64(_) => SlabByteFormat::I64LE,
        }
    }

    /// The number of bytes of the slab.
    pub fn byte_length(&self) -> (n: usize)
        requires
            self.spec_bytes().len() <= usize::MAX,
        ensures
            n == self.spec_bytes().len(),
    {
        match self {
            SlabElems::Bytes(_, b) => b.len(),
            SlabElems::U8(v) => encoded_len(*v),
            SlabElems::I8(v) => encoded_len(*v),
            SlabElems::U16(v) => encoded_len(*v),
            SlabElems::I16(v) => encoded_len(*v),
            SlabElems::U32(v) => encoded_len(*v),
            SlabElems::I32(v) => encoded_len(*v),
            SlabElems::U64(v) => encoded_len(*v),
            SlabElems::I64(v) => encoded_len(*v),
        }
    }

    /// Append the bytes of the slab to `out`.
    pub fn write_to(&self, out: &mut Vec<u8>)
        ensures
            final(out)@ == old(out)@ + self.spec_bytes(),
    {
        match self {
            SlabElems::Bytes(_, b) => {
                proof {
                    lemma_encode_bytes(b@);
                }
                append_encoded(out, *b)
            },
            SlabElems::U8(v) => append_encoded(out, *v),
            SlabElems::I8(v) => append_encoded(out, *v),
            SlabElems::U16(v) => append_encoded(out, *v),
            SlabElems::I16(v) => append_encoded(out, *v),
            SlabElems::U32(v) => append_encoded(out, *v),
            SlabElems::I32(v) => append_encoded(out, *v),
            SlabElems::U64(v) => append_encoded(out, *v),
            SlabElems::I64(v) => append_encoded(out, *v),
        }
    }
}

/// A slab element type whose slices a `Builder` can borrow.
pub trait BorrowedSlab: SlabPrimitive {
    /// View a slice of this element type as the elements of a slab,
    /// without copying them.
    fn borrow_elems<'a>(values: &'a [Self]) -> (e: SlabElems<'a>)
        ensures
            e.spec_format() == Self::spec_byte_format(),
            e.spec_bytes() == encode_all(values@),
    ;
}

impl BorrowedSlab for u8 {
    fn borrow_elems<'a>(values: &'a [u8]) -> (e: SlabElems<'a>) {
        SlabElems::U8(values)
    }
}

impl BorrowedSlab for i8 {
    fn borrow_elems<'a>(values: &'a [i8]) -> (e: SlabElems<'a>) {
        SlabElems::I8(values)
    }
}

impl BorrowedSlab for u16 {
    fn borrow_elems<'a>(values: &'a [u16]) -> (e: SlabElems<'a>) {
        SlabElems::U16(values)
    }
}

impl BorrowedSlab for i16 {
    fn borrow_elems<'a>(values: &'a [i16]) -> (e: SlabElems<'a>) {
        SlabElems::I16(values)
    }
}

impl BorrowedSlab for u32 {
    fn borrow_elems<'a>(values: &'a [u32]) -> (e: SlabElems<'a>) {
        SlabElems::U32(values)
    }
}

impl BorrowedSlab for i32 {
    fn borrow_elems<'a>(values: &'a [i32]) -> (e: SlabElems<'a>) {
        SlabElems::I32(values)
    }
}

impl BorrowedSlab for u64 {
    fn borrow_elems<'a>(values: &'a [u64]) -> (e: SlabElems<'a>) {
        SlabElems::U64(values)
    }
}

impl BorrowedSlab for i64 {
    fn borrow_elems<'a>(values: &'a [i64]) -> (e: SlabElems<'a>) {
        SlabElems::I64(values)
    }
}

/// Something that can be added to a `Builder` as one slab: a slice or
/// array of primitives, raw JSON bytes, or runtime-typed slab bytes. The
/// builder borrows it until the file is written.
pub trait AsSlabBytes<'a> {
    /// The byte format of the slab.
    spec fn spec_slab_format(&self) -> SlabByteFormat;

    /// The bytes of the slab.
    spec fn spec_slab_bytes(&self) -> Seq<u8>;

    /// The slab's elements, borrowed.
    fn slab_elems(self) -> (e: SlabElems<'a>)
        ensures
            e.spec_format() == self.spec_slab_format(),
            e.spec_bytes() == self.spec_slab_bytes(),
    ;
}

impl<'a, T: BorrowedSlab> AsSlabBytes<'a> for &'a [T] {
    open spec fn spec_slab_format(&self) -> SlabByteFormat {
        T::spec_byte_format()
    }

    open spec fn spec_slab_bytes(&self) -> Seq<u8> {
        encode_all::<T>((**self)@)
    }

    fn slab_elems(self) -> (e: SlabElems<'a>) {
        T::borrow_elems(self)
    }
}

impl<'a, T: BorrowedSlab, const N: usize> AsSlabBytes<'a> for &'a [T; N] {
    open spec fn spec_slab_format(&self) -> SlabByteFormat {
        T::spec_byte_format()
    }

    open spec fn spec_slab_bytes(&self) -> Seq<u8> {
        encode_all::<T>((**self)@)
    }

    fn slab_elems(self) -> (e: SlabElems<'a>) {
        T::borrow_elems(vstd::array::array_as_slice(self))
    }
}

impl<'a> AsSlabBytes<'a> for JsonBytes<'a> {
    open spec fn spec_slab_format(&self) -> SlabByteFormat {
        SlabByteFormat::Json
    }

    open spec fn spec_slab_bytes(&self) -> Seq<u8> {
        self.0@
    }

    fn slab_elems(self) -> (e: SlabElems<'a>) {
        SlabElems::Bytes(SlabByteFormat::Json, self.0)
    }
}

impl<'a> AsSlabBytes<'a> for SlabBytes<'a> {
    open spec fn spec_slab_format(&self) -> SlabByteFormat {
        self.slab_type
    }

    open spec fn spec_slab_bytes(&self) -> Seq<u8> {
        self.bytes@
    }

    fn slab_elems(self) -> (e: SlabElems<'a>) {
        SlabElems::Bytes(self.slab_type, self.bytes)
    }
}

} // verus!
