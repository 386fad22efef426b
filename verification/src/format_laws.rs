//! What the format fixes about single values: the type tag and short name
//! of each slab type, and the byte order of slab elements and of the tags
//! written into the slab table.

use crate::format::{u32_bytes, SlabByteFormat, SlabType};
use crate::layout::{file_slabs, jslb_file, slab_offset, table_end};
use crate::le::{
    le_value, lemma_u16_le, lemma_u16_le_value, lemma_u32_le, lemma_u32_le_small,
    lemma_u32_le_value, lemma_u64_le, lemma_u64_le_value,
};
use crate::placeholder::decimal;
use crate::read::SlabView;
use crate::types::SlabPrimitive;
use vstd::prelude::*;

verus! {

/// The signed integer slab types.
pub open spec fn is_signed_int(t: SlabType) -> bool {
    t == SlabType::Int8 || t == SlabType::Int16 || t == SlabType::Int32 || t == SlabType::Int64
}

/// The floating-point slab types.
pub open spec fn is_float(t: SlabType) -> bool {
    t == SlabType::Float32 || t == SlabType::Float64
}

/// The slab type of `T`'s slabs.
pub open spec fn elem_type<T: SlabPrimitive>() -> SlabType {
    T::spec_byte_format().spec_on_disk_type()
}

/// The tags of the slab types, as the format's table gives them: the
/// 8-, 16- and 32-bit integers in pairs signed then unsigned from 0, the
/// two floats at 6 and 7, the 64-bit integers at 8 and 9, JSON at 10. The
/// integer slabs of each Rust element type carry their own tag, and every
/// tag reads back as its type.
pub proof fn law_slab_type_tags(t: SlabType)
    ensures
        elem_type::<i8>().spec_tag() == 0x00,
        elem_type::<u8>().spec_tag() == 0x01,
        elem_type::<i16>().spec_tag() == 0x02,
        elem_type::<u16>().spec_tag() == 0x03,
        elem_type::<i32>().spec_tag() == 0x04,
        elem_type::<u32>().spec_tag() == 0x05,
        SlabType::Float32.spec_tag() == 0x06,
        SlabType::Float64.spec_tag() == 0x07,
        elem_type::<i64>().spec_tag() == 0x08,
        elem_type::<u64>().spec_tag() == 0x09,
        SlabType::Json.spec_tag() == 0x0a,
        SlabType::spec_from_tag(t.spec_tag()) == Some(t),
        t.spec_tag() <= 0x0a,
{
}

/// No number past the last tag names a slab type.
pub proof fn law_unknown_tags(v: u32)
    requires
        v > 0x0a,
    ensures
        SlabType::spec_from_tag(v) is None,
{
}

/// The short name of a slab type: `json` for JSON; otherwise `i` for a
/// signed integer, `f` for a float or `u` for an unsigned integer,
/// followed by the element's width in bits.
pub proof fn law_slab_type_names(t: SlabType)
    ensures
        t == SlabType::Json ==> t.spec_name() == seq!['j', 's', 'o', 'n'],
        t != SlabType::Json ==> t.spec_name() == seq![
            if is_signed_int(t) {
                'i'
            } else if is_float(t) {
                'f'
            } else {
                'u'
            },
        ] + decimal((8 * t.spec_element_size()) as nat),
        is_signed_int(elem_type::<i8>()) && is_signed_int(elem_type::<i16>()) && is_signed_int(
            elem_type::<i32>(),
        ) && is_signed_int(elem_type::<i64>()),
        !is_signed_int(elem_type::<u8>()) && !is_signed_int(elem_type::<u16>()) && !is_signed_int(
            elem_type::<u32>(),
        ) && !is_signed_int(elem_type::<u64>()),
{
    reveal_with_fuel(decimal, 2);
    assert(decimal(8) =~= seq!['8']);
    assert(decimal(1) =~= seq!['1']);
    assert(decimal(16) =~= seq!['1', '6']);
    assert(decimal(3) =~= seq!['3']);
    assert(decimal(32) =~= seq!['3', '2']);
    assert(decimal(6) =~= seq!['6']);
    assert(decimal(64) =~= seq!['6', '4']);
    if t != SlabType::Json {
        let c = if is_signed_int(t) {
            'i'
        } else if is_float(t) {
            'f'
        } else {
            'u'
        };
        assert(t.spec_name() =~= seq![c] + decimal((8 * t.spec_element_size()) as nat));
    }
}

/// One-byte elements are their own byte; a signed one is the same byte
/// read as two's complement.
pub proof fn law_8bit_elements(x: u8, y: i8, b: Seq<u8>)
    requires
        b.len() == 1,
    ensures
        x.spec_to_le() == seq![x],
        <u8 as SlabPrimitive>::spec_from_le(b) == b[0],
        y.spec_to_le() == seq![y as u8],
        <i8 as SlabPrimitive>::spec_from_le(b) as u8 == b[0],
{
    let v = <i8 as SlabPrimitive>::spec_from_le(b);
    let b0 = b[0];
    assert((b0 as i8) as u8 == b0) by (bit_vector);
}

/// A 16-bit element is stored as two bytes, least significant first, and
/// two bytes read back as the number they carry that way. A signed
/// element is stored as the bits of the same number read unsigned.
pub proof fn law_16bit_elements_little_endian(x: u16, y: i16, b: Seq<u8>)
    requires
        b.len() == 2,
    ensures
        x.spec_to_le().len() == 2,
        le_value(x.spec_to_le()) == x,
        x < 256 ==> x.spec_to_le() == seq![x as u8, 0u8],
        <u16 as SlabPrimitive>::spec_from_le(b) as int == le_value(b),
        y.spec_to_le() == (y as u16).spec_to_le(),
        <i16 as SlabPrimitive>::spec_from_le(b) as u16 == <u16 as SlabPrimitive>::spec_from_le(b),
{
    lemma_u16_le(x);
    lemma_u16_le_value(b);
    let e = x.spec_to_le();
    crate::le::lemma_le_value_2(e);
    if x < 256 {
        assert(e =~= seq![x as u8, 0u8]);
    }
    let v = <u16 as SlabPrimitive>::spec_from_le(b);
    assert((v as i16) as u16 == v) by (bit_vector);
}

/// A 32-bit element is stored as four bytes, least significant first, and
/// four bytes read back as the number they carry that way. A signed
/// element is stored as the bits of the same number read unsigned.
pub proof fn law_32bit_elements_little_endian(x: u32, y: i32, b: Seq<u8>)
    requires
        b.len() == 4,
    ensures
        x.spec_to_le().len() == 4,
        le_value(x.spec_to_le()) == x,
        x < 256 ==> x.spec_to_le() == seq![x as u8, 0u8, 0u8, 0u8],
        <u32 as SlabPrimitive>::spec_from_le(b) as int == le_value(b),
        y.spec_to_le() == (y as u32).spec_to_le(),
        <i32 as SlabPrimitive>::spec_from_le(b) as u32 == <u32 as SlabPrimitive>::spec_from_le(b),
{
    lemma_u32_le(x);
    lemma_u32_le_value(b);
    let e = x.spec_to_le();
    crate::le::lemma_le_value_4(e);
    if x < 256 {
        assert(e =~= seq![x as u8, 0u8, 0u8, 0u8]);
    }
    let v = <u32 as SlabPrimitive>::spec_from_le(b);
    assert((v as i32) as u32 == v) by (bit_vector);
}

/// A 64-bit element is stored as eight bytes, least significant first, and
/// eight bytes read back as the number they carry that way. A signed
/// element is stored as the bits of the same number read unsigned.
pub proof fn law_64bit_elements_little_endian(x: u64, y: i64, b: Seq<u8>)
    requires
        b.len() == 8,
    ensures
        x.spec_to_le().len() == 8,
        le_value(x.spec_to_le()) == x,
        x < 256 ==> x.spec_to_le() == seq![x as u8, 0u8, 0u8, 0u8, 0u8, 0u8, 0u8, 0u8],
        <u64 as SlabPrimitive>::spec_from_le(b) as int == le_value(b),
        y.spec_to_le() == (y as u64).spec_to_le(),
        <i64 as SlabPrimitive>::spec_from_le(b) as u64 == <u64 as SlabPrimitive>::spec_from_le(b),
{
    lemma_u64_le(x);
    lemma_u64_le_value(b);
    let e = x.spec_to_le();
    crate::le::lemma_le_value_8(e);
    if x < 256 {
        assert(e =~= seq![x as u8, 0u8, 0u8, 0u8, 0u8, 0u8, 0u8, 0u8]);
    }
    let v = <u64 as SlabPrimitive>::spec_from_le(b);
    assert((v as i64) as u64 == v) by (bit_vector);
}

/// The type field of every slab-table row of a written file is the slab's
/// tag in one little-endian 32-bit word: the tag byte followed by three
/// zeros. Row 0 is the root JSON slab, row `k + 1` the `k`-th added slab;
/// so a slab of `i64` elements is written with the bytes `[8, 0, 0, 0]`.
pub proof fn law_written_type_fields(root_json: Seq<u8>, entries: Seq<SlabView>, k: int)
    requires
        0 <= k < entries.len(),
    ensures
        jslb_file(root_json, entries).subrange(20, 24) == seq![0x0au8, 0u8, 0u8, 0u8],
        jslb_file(root_json, entries).subrange(20 + 12 * (k + 1), 24 + 12 * (k + 1)) == seq![
            entries[k].0.spec_on_disk_type().spec_tag() as u8,
            0u8,
            0u8,
            0u8,
        ],
        entries[k].0 == <i64 as SlabPrimitive>::spec_byte_format() ==> jslb_file(
            root_json,
            entries,
        ).subrange(20 + 12 * (k + 1), 24 + 12 * (k + 1)) == seq![8u8, 0u8, 0u8, 0u8],
        entries[k].0 == <u64 as SlabPrimitive>::spec_byte_format() ==> jslb_file(
            root_json,
            entries,
        ).subrange(20 + 12 * (k + 1), 24 + 12 * (k + 1)) == seq![9u8, 0u8, 0u8, 0u8],
{
    let slabs = file_slabs(root_json, entries);
    let n = slabs.len();
    let te = table_end(n);
    let f = jslb_file(root_json, entries);
    crate::laws::lemma_file_parts(slabs);
    crate::laws::lemma_table_rows(te, slabs, n);
    let t = crate::layout::table_bytes(te, slabs, n);
    assert forall|i: int| 0 <= i < n implies f.subrange(20 + 12 * i, 24 + 12 * i) == seq![
        slabs[i].0.spec_on_disk_type().spec_tag() as u8,
        0u8,
        0u8,
        0u8,
    ] by {
        let s = slabs[i];
        let tag = s.0.spec_on_disk_type().spec_tag();
        let row = t.subrange(12 * i, 12 * i + 12);
        assert(row == crate::layout::row_bytes(s, slab_offset(te, slabs, i)));
        lemma_u32_le(tag);
        lemma_u32_le((slab_offset(te, slabs, i)) as u32);
        lemma_u32_le((s.1.len()) as u32);
        lemma_u32_le_small(tag);
        assert((tag as int) as u32 == tag);
        assert(u32_bytes(tag as int) == seq![tag as u8, 0u8, 0u8, 0u8]);
        assert(row.subrange(0, 4) =~= u32_bytes(tag as int));
        assert(f.subrange(20 + 12 * i, 24 + 12 * i) =~= row.subrange(0, 4));
    }
    assert(slabs[0].0 == SlabByteFormat::Json);
    assert(slabs[k + 1] == entries[k]);
}

} // verus!
