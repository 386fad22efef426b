//! Little-endian encoding of fixed-width unsigned integers: the bytes of
//! every multi-byte number in a file, whether a container field or a slab
//! element.

use vstd::prelude::*;

verus! {

/// The number whose little-endian bytes are `b`: `b[0]` is the least
/// significant byte, each later byte weighs 256 times the one before.
pub open spec fn le_value(b: Seq<u8>) -> int
    decreases b.len(),
{
    if b.len() == 0 {
        0
    } else {
        b[0] as int + 256 * le_value(b.drop_first())
    }
}

/// The two bytes of `x`, least significant first.
pub closed spec fn u16_le_bytes(x: u16) -> Seq<u8> {
    seq![(x & 0xff) as u8, ((x >> 8u16) & 0xff) as u8]
}

/// The `u16` whose bytes, least significant first, are `b[0..2]`.
pub closed spec fn u16_le_value(b: Seq<u8>) -> u16 {
    (b[0] as u16) | ((b[1] as u16) << 8u16)
}

/// The four bytes of `x`, least significant first.
pub closed spec fn u32_le_bytes(x: u32) -> Seq<u8> {
    seq![
        (x & 0xff) as u8,
        ((x >> 8u32) & 0xff) as u8,
        ((x >> 16u32) & 0xff) as u8,
        ((x >> 24u32) & 0xff) as u8,
    ]
}

/// The `u32` whose bytes, least significant first, are `b[0..4]`.
pub closed spec fn u32_le_value(b: Seq<u8>) -> u32 {
    (b[0] as u32) | ((b[1] as u32) << 8u32) | ((b[2] as u32) << 16u32) | ((b[3] as u32) << 24u32)
}

/// The eight bytes of `x`, least significant first.
pub closed spec fn u64_le_bytes(x: u64) -> Seq<u8> {
    seq![
        (x & 0xff) as u8,
        ((x >> 8u64) & 0xff) as u8,
        ((x >> 16u64) & 0xff) as u8,
        ((x >> 24u64) & 0xff) as u8,
        ((x >> 32u64) & 0xff) as u8,
        ((x >> 40u64) & 0xff) as u8,
        ((x >> 48u64) & 0xff) as u8,
        ((x >> 56u64) & 0xff) as u8,
    ]
}

/// The `u64` whose bytes, least significant first, are `b[0..8]`.
pub closed spec fn u64_le_value(b: Seq<u8>) -> u64 {
    (b[0] as u64) | ((b[1] as u64) << 8u64) | ((b[2] as u64) << 16u64) | ((b[3] as u64) << 24u64)
        | ((b[4] as u64) << 32u64) | ((b[5] as u64) << 40u64) | ((b[6] as u64) << 48u64) | ((
    b[7] as u64) << 56u64)
}

/// The bytes of `x`, least significant first.
pub fn u16_to_le(x: u16) -> (b: Vec<u8>)
    ensures
        b@ == u16_le_bytes(x),
{
    let b = vec![(x & 0xff) as u8, ((x >> 8u16) & 0xff) as u8];
    assert(b@ =~= u16_le_bytes(x));
    b
}

/// The `u16` whose bytes, least significant first, are `b`.
pub fn u16_from_le(b: &[u8]) -> (x: u16)
    requires
        b@.len() == 2,
    ensures
        x == u16_le_value(b@),
{
    (b[0] as u16) | ((b[1] as u16) << 8u16)
}

/// The bytes of `x`, least significant first.
pub fn u32_to_le(x: u32) -> (b: Vec<u8>)
    ensures
        b@ == u32_le_bytes(x),
{
    let b = vec![
        (x & 0xff) as u8,
        ((x >> 8u32) & 0xff) as u8,
        ((x >> 16u32) & 0xff) as u8,
        ((x >> 24u32) & 0xff) as u8,
    ];
    assert(b@ =~= u32_le_bytes(x));
    b
}

/// The `u32` whose bytes, least significant first, are `b`.
pub fn u32_from_le(b: &[u8]) -> (x: u32)
    requires
        b@.len() == 4,
    ensures
        x == u32_le_value(b@),
{
    (b[0] as u32) | ((b[1] as u32) << 8u32) | ((b[2] as u32) << 16u32) | ((b[3] as u32) << 24u32)
}

/// The bytes of `x`, least significant first.
pub fn u64_to_le(x: u64) -> (b: Vec<u8>)
    ensures
        b@ == u64_le_bytes(x),
{
    let b = vec![
        (x & 0xff) as u8,
        ((x >> 8u64) & 0xff) as u8,
        ((x >> 16u64) & 0xff) as u8,
        ((x >> 24u64) & 0xff) as u8,
        ((x >> 32u64) & 0xff) as u8,
        ((x >> 40u64) & 0xff) as u8,
        ((x >> 48u64) & 0xff) as u8,
        ((x >> 56u64) & 0xff) as u8,
    ];
    assert(b@ =~= u64_le_bytes(x));
    b
}

/// The `u64` whose bytes, least significant first, are `b`.
pub fn u64_from_le(b: &[u8]) -> (x: u64)
    requires
        b@.len() == 8,
    ensures
        x == u64_le_value(b@),
{
    (b[0] as u64) | ((b[1] as u64) << 8u64) | ((b[2] as u64) << 16u64) | ((b[3] as u64) << 24u64)
        | ((b[4] as u64) << 32u64) | ((b[5] as u64) << 40u64) | ((b[6] as u64) << 48u64) | ((
    b[7] as u64) << 56u64)
}

/// The value of two bytes.
pub proof fn lemma_le_value_2(b: Seq<u8>)
    requires
        b.len() == 2,
    ensures
        le_value(b) == b[0] + 256 * b[1],
{
    reveal_with_fuel(le_value, 3);
    assert(b.drop_first().drop_first().len() == 0);
}

/// The value of four bytes.
pub proof fn lemma_le_value_4(b: Seq<u8>)
    requires
        b.len() == 4,
    ensures
        le_value(b) == b[0] + 256 * b[1] + 65536 * b[2] + 16777216 * b[3],
{
    lemma_le_value_2(b.subrange(2, 4));
    assert(b.drop_first().drop_first() =~= b.subrange(2, 4));
    reveal_with_fuel(le_value, 3);
}

/// The value of eight bytes.
pub proof fn lemma_le_value_8(b: Seq<u8>)
    requires
        b.len() == 8,
    ensures
        le_value(b) == b[0] + 256 * b[1] + 65536 * b[2] + 16777216 * b[3] + 4294967296 * b[4]
            + 1099511627776 * b[5] + 281474976710656 * b[6] + 72057594037927936 * b[7],
{
    lemma_le_value_4(b.subrange(4, 8));
    let d4 = b.drop_first().drop_first().drop_first().drop_first();
    assert(d4 =~= b.subrange(4, 8));
    reveal_with_fuel(le_value, 5);
}

/// Two bytes carry `x` least significant first, and read back as `x`.
pub proof fn lemma_u16_le(x: u16)
    ensures
        u16_le_bytes(x).len() == 2,
        le_value(u16_le_bytes(x)) == x,
        u16_le_value(u16_le_bytes(x)) == x,
{
    let b = u16_le_bytes(x);
    lemma_le_value_2(b);
    let b0 = (x & 0xff) as u8;
    let b1 = ((x >> 8u16) & 0xff) as u8;
    assert(b0 as int + 256 * (b1 as int) == x as int && ((b0 as u16) | ((b1 as u16) << 8u16))
        == x) by (bit_vector)
        requires
            b0 == (x & 0xff) as u8,
            b1 == ((x >> 8u16) & 0xff) as u8,
    ;
}

/// Four bytes carry `x` least significant first, and read back as `x`.
pub proof fn lemma_u32_le(x: u32)
    ensures
        u32_le_bytes(x).len() == 4,
        le_value(u32_le_bytes(x)) == x,
        u32_le_value(u32_le_bytes(x)) == x,
{
    let b = u32_le_bytes(x);
    lemma_le_value_4(b);
    let b0 = (x & 0xff) as u8;
    let b1 = ((x >> 8u32) & 0xff) as u8;
    let b2 = ((x >> 16u32) & 0xff) as u8;
    let b3 = ((x >> 24u32) & 0xff) as u8;
    assert(b0 as int + 256 * (b1 as int) + 65536 * (b2 as int) + 16777216 * (b3 as int) == x as int
        && ((b0 as u32) | ((b1 as u32) << 8u32) | ((b2 as u32) << 16u32) | ((b3 as u32)
        << 24u32)) == x) by (bit_vector)
        requires
            b0 == (x & 0xff) as u8,
            b1 == ((x >> 8u32) & 0xff) as u8,
            b2 == ((x >> 16u32) & 0xff) as u8,
            b3 == ((x >> 24u32) & 0xff) as u8,
    ;
}

/// Eight bytes carry `x` least significant first, and read back as `x`.
pub proof fn lemma_u64_le(x: u64)
    ensures
        u64_le_bytes(x).len() == 8,
        le_value(u64_le_bytes(x)) == x,
        u64_le_value(u64_le_bytes(x)) == x,
{
    let b = u64_le_bytes(x);
    lemma_le_value_8(b);
    let b0 = (x & 0xff) as u8;
    let b1 = ((x >> 8u64) & 0xff) as u8;
    let b2 = ((x >> 16u64) & 0xff) as u8;
    let b3 = ((x >> 24u64) & 0xff) as u8;
    let b4 = ((x >> 32u64) & 0xff) as u8;
    let b5 = ((x >> 40u64) & 0xff) as u8;
    let b6 = ((x >> 48u64) & 0xff) as u8;
    let b7 = ((x >> 56u64) & 0xff) as u8;
    assert(b0 as int + 256 * (b1 as int) + 65536 * (b2 as int) + 16777216 * (b3 as int)
        + 4294967296 * (b4 as int) + 1099511627776 * (b5 as int) + 281474976710656 * (b6 as int)
        + 72057594037927936 * (b7 as int) == x as int) by (bit_vector)
        requires
            b0 == (x & 0xff) as u8,
            b1 == ((x >> 8u64) & 0xff) as u8,
            b2 == ((x >> 16u64) & 0xff) as u8,
            b3 == ((x >> 24u64) & 0xff) as u8,
            b4 == ((x >> 32u64) & 0xff) as u8,
            b5 == ((x >> 40u64) & 0xff) as u8,
            b6 == ((x >> 48u64) & 0xff) as u8,
            b7 == ((x >> 56u64) & 0xff) as u8,
    ;
    assert(((b0 as u64) | ((b1 as u64) << 8u64) | ((b2 as u64) << 16u64) | ((b3 as u64) << 24u64)
        | ((b4 as u64) << 32u64) | ((b5 as u64) << 40u64) | ((b6 as u64) << 48u64) | ((b7 as u64)
        << 56u64)) == x) by (bit_vector)
        requires
            b0 == (x & 0xff) as u8,
            b1 == ((x >> 8u64) & 0xff) as u8,
            b2 == ((x >> 16u64) & 0xff) as u8,
            b3 == ((x >> 24u64) & 0xff) as u8,
            b4 == ((x >> 32u64) & 0xff) as u8,
            b5 == ((x >> 40u64) & 0xff) as u8,
            b6 == ((x >> 48u64) & 0xff) as u8,
            b7 == ((x >> 56u64) & 0xff) as u8,
    ;
}

/// A number below 256 is its low byte followed by zeros.
pub proof fn lemma_u32_le_small(x: u32)
    requires
        x < 256,
    ensures
        u32_le_bytes(x) == seq![x as u8, 0u8, 0u8, 0u8],
{
    assert((x & 0xff) as u8 == x as u8 && ((x >> 8u32) & 0xff) as u8 == 0 && ((x >> 16u32) & 0xff)
        as u8 == 0 && ((x >> 24u32) & 0xff) as u8 == 0) by (bit_vector)
        requires
            x < 256,
    ;
    assert(u32_le_bytes(x) =~= seq![x as u8, 0u8, 0u8, 0u8]);
}

/// Two bytes read as the number they carry, least significant first.
pub proof fn lemma_u16_le_value(b: Seq<u8>)
    requires
        b.len() == 2,
    ensures
        u16_le_value(b) as int == le_value(b),
{
    lemma_le_value_2(b);
    let b0 = b[0];
    let b1 = b[1];
    assert(((b0 as u16) | ((b1 as u16) << 8u16)) as int == b0 as int + 256 * (b1 as int))
        by (bit_vector);
}

/// Four bytes read as the number they carry, least significant first.
pub proof fn lemma_u32_le_value(b: Seq<u8>)
    requires
        b.len() == 4,
    ensures
        u32_le_value(b) as int == le_value(b),
{
    lemma_le_value_4(b);
    let b0 = b[0];
    let b1 = b[1];
    let b2 = b[2];
    let b3 = b[3];
    assert(((b0 as u32) | ((b1 as u32) << 8u32) | ((b2 as u32) << 16u32) | ((b3 as u32) << 24u32))
        as int == b0 as int + 256 * (b1 as int) + 65536 * (b2 as int) + 16777216 * (b3 as int))
        by (bit_vector);
}

/// Eight bytes read as the number they carry, least significant first.
pub proof fn lemma_u64_le_value(b: Seq<u8>)
    requires
        b.len() == 8,
    ensures
        u64_le_value(b) as int == le_value(b),
{
    lemma_le_value_8(b);
    let b0 = b[0];
    let b1 = b[1];
    let b2 = b[2];
    let b3 = b[3];
    let b4 = b[4];
    let b5 = b[5];
    let b6 = b[6];
    let b7 = b[7];
    assert(((b0 as u64) | ((b1 as u64) << 8u64) | ((b2 as u64) << 16u64) | ((b3 as u64) << 24u64)
        | ((b4 as u64) << 32u64) | ((b5 as u64) << 40u64) | ((b6 as u64) << 48u64) | ((b7 as u64)
        << 56u64)) as int == b0 as int + 256 * (b1 as int) + 65536 * (b2 as int) + 16777216 * (
    b3 as int) + 4294967296 * (b4 as int) + 1099511627776 * (b5 as int) + 281474976710656 * (
    b6 as int) + 72057594037927936 * (b7 as int)) by (bit_vector);
}

} // verus!
