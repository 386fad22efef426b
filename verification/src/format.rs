//! On-disk layout: constants, the slab type tags, the byte formats that
//! slabs carry in memory, and the decoded header and slab-table entry.
//!
//! All multi-byte fields of the container are little-endian `u32`s.

use crate::le::{lemma_u32_le, u32_from_le, u32_le_bytes, u32_le_value, u32_to_le};
use vstd::prelude::*;
use vstd::slice::slice_subrange;

verus! {

/// Size of the fixed file header in bytes.
pub const FIXED_HEADER_SIZE: usize = 20;

/// Size of one slab-table entry in bytes. The entries immediately follow
/// the fixed header.
pub const SLAB_TABLE_ENTRY_SIZE: usize = 12;

/// On-disk format version this crate reads and writes.
pub const VERSION: u32 = 1;

/// The magic bytes at the start of every `.jslb` file.
pub const MAGIC: [u8; 8] = [0xDC, 0xDF, 0x4A, 0x53, 0x4C, 0x42, 0x01, 0x00];

/// The magic bytes as a sequence.
pub open spec fn magic_seq() -> Seq<u8> {
    seq![0xDCu8, 0xDFu8, 0x4Au8, 0x53u8, 0x4Cu8, 0x42u8, 0x01u8, 0x00u8]
}

/// The element type of a slab, as tagged in the slab table.
///
/// All numbers are stored in little-endian byte order.
#[derive(Debug, Clone, Copy, PartialEq, Eq, Structural)]
pub enum SlabType {
    /// An array of signed 8-bit integers (tag 0x00).
    Int8,
    /// An array of unsigned 8-bit integers (tag 0x01).
    Uint8,
    /// An array of signed 16-bit integers, little-endian on disk (tag 0x02).
    Int16,
    /// An array of unsigned 16-bit integers, little-endian on disk (tag 0x03).
    Uint16,
    /// An array of signed 32-bit integers, little-endian on disk (tag 0x04).
    Int32,
    /// An array of unsigned 32-bit integers, little-endian on disk (tag 0x05).
    Uint32,
    /// An array of IEEE 754 binary32 floats, little-endian on disk (tag 0x06).
    Float32,
    /// An array of IEEE 754 binary64 floats, little-endian on disk (tag 0x07).
    Float64,
    /// An array of signed 64-bit integers, little-endian on disk (tag 0x08).
    Int64,
    /// An array of unsigned 64-bit integers, little-endian on disk (tag 0x09).
    Uint64,
    /// UTF-8 JSON bytes (tag 0x0a). Used both for the root skeleton slab
    /// and for sub-JSON slabs referenced from the skeleton.
    Json,
}

impl SlabType {
    /// Size in bytes of one element of this type.
    pub open spec fn spec_element_size(self) -> usize {
        match self {
            SlabType::Int16 | SlabType::Uint16 => 2,
            SlabType::Int32 | SlabType::Uint32 | SlabType::Float32 => 4,
            SlabType::Float64 | SlabType::Int64 | SlabType::Uint64 => 8,
            _ => 1,
        }
    }

    /// Size in bytes of a single element of this slab type.
    #[verifier::when_used_as_spec(spec_element_size)]
    pub fn element_size(self) -> (n: usize)
        ensures
            n == self.spec_element_size(),
    {
        match self {
            SlabType::Int16 | SlabType::Uint16 => 2,
            SlabType::Int32 | SlabType::Uint32 | SlabType::Float32 => 4,
            SlabType::Float64 | SlabType::Int64 | SlabType::Uint64 => 8,
            _ => 1,
        }
    }

    /// The numeric tag stored in the slab table for this type.
    pub open spec fn spec_tag(self) -> u32 {
        match self {
            SlabType::Int8 => 0x00,
            SlabType::Uint8 => 0x01,
            SlabType::Int16 => 0x02,
            SlabType::Uint16 => 0x03,
            SlabType::Int32 => 0x04,
            SlabType::Uint32 => 0x05,
            SlabType::Float32 => 0x06,
            SlabType::Float64 => 0x07,
            SlabType::Int64 => 0x08,
            SlabType::Uint64 => 0x09,
            SlabType::Json => 0x0a,
        }
    }

    /// The numeric tag stored in the slab table for this type.
    #[verifier::when_used_as_spec(spec_tag)]
    pub fn tag(self) -> (t: u32)
        ensures
            t == self.spec_tag(),
    {
        match self {
            SlabType::Int8 => 0x00,
            SlabType::Uint8 => 0x01,
            SlabType::Int16 => 0x02,
            SlabType::Uint16 => 0x03,
            SlabType::Int32 => 0x04,
            SlabType::Uint32 => 0x05,
            SlabType::Float32 => 0x06,
            SlabType::Float64 => 0x07,
            SlabType::Int64 => 0x08,
            SlabType::Uint64 => 0x09,
            SlabType::Json => 0x0a,
        }
    }

    /// The type whose tag is `v`, if any.
    pub open spec fn spec_from_tag(v: u32) -> Option<SlabType> {
        if v == 0x00 {
            Some(SlabType::Int8)
        } else if v == 0x01 {
            Some(SlabType::Uint8)
        } else if v == 0x02 {
            Some(SlabType::Int16)
        } else if v == 0x03 {
            Some(SlabType::Uint16)
        } else if v == 0x04 {
            Some(SlabType::Int32)
        } else if v == 0x05 {
            Some(SlabType::Uint32)
        } else if v == 0x06 {
            Some(SlabType::Float32)
        } else if v == 0x07 {
            Some(SlabType::Float64)
        } else if v == 0x08 {
            Some(SlabType::Int64)
        } else if v == 0x09 {
            Some(SlabType::Uint64)
        } else if v == 0x0a {
            Some(SlabType::Json)
        } else {
            None
        }
    }

    /// Short human-readable name of the type.
    pub open spec fn spec_name(self) -> Seq<char> {
        match self {
            SlabType::Int8 => seq!['i', '8'],
            SlabType::Uint8 => seq!['u', '8'],
            SlabType::Int16 => seq!['i', '1', '6'],
            SlabType::Uint16 => seq!['u', '1', '6'],
            SlabType::Int32 => seq!['i', '3', '2'],
            SlabType::Uint32 => seq!['u', '3', '2'],
            SlabType::Float32 => seq!['f', '3', '2'],
            SlabType::Float64 => seq!['f', '6', '4'],
            SlabType::Int64 => seq!['i', '6', '4'],
            SlabType::Uint64 => seq!['u', '6', '4'],
            SlabType::Json => seq!['j', 's', 'o', 'n'],
        }
    }

    /// Short human-readable name (`"i32"`, `"f64"`, `"json"`, ...).
    pub fn name(self) -> (s: &'static str)
        ensures
            s@ == self.spec_name(),
    {
        match self {
            SlabType::Int8 => {
                proof {
                    reveal_strlit("i8");
                }
                "i8"
            },
            SlabType::Uint8 => {
                proof {
                    reveal_strlit("u8");
                }
                "u8"
            },
            SlabType::Int16 => {
                proof {
                    reveal_strlit("i16");
                }
                "i16"
            },
            SlabType::Uint16 => {
                proof {
                    reveal_strlit("u16");
                }
                "u16"
            },
            SlabType::Int32 => {
                proof {
                    reveal_strlit("i32");
                }
                "i32"
            },
            SlabType::Uint32 => {
                proof {
                    reveal_strlit("u32");
                }
                "u32"
            },
            SlabType::Float32 => {
                proof {
                    reveal_strlit("f32");
                }
                "f32"
            },
            SlabType::Float64 => {
                proof {
                    reveal_strlit("f64");
                }
                "f64"
            },
            SlabType::Int64 => {
                proof {
                    reveal_strlit("i64");
                }
                "i64"
            },
            SlabType::Uint64 => {
                proof {
                    reveal_strlit("u64");
                }
                "u64"
            },
            SlabType::Json => {
                proof {
                    reveal_strlit("json");
                }
                "json"
            },
        }
    }

    /// The in-memory byte format of a slab with this on-disk type. The
    /// on-disk format is always little-endian.
    pub open spec fn spec_to_byte_format(self) -> SlabByteFormat {
        match self {
            SlabType::Int8 => SlabByteFormat::I8,
            SlabType::Uint8 => SlabByteFormat::U8,
            SlabType::Int16 => SlabByteFormat::I16LE,
            SlabType::Uint16 => SlabByteFormat::U16LE,
            SlabType::Int32 => SlabByteFormat::I32LE,
            SlabType::Uint32 => SlabByteFormat::U32LE,
            SlabType::Float32 => SlabByteFormat::F32LE,
            SlabType::Float64 => SlabByteFormat::F64LE,
            SlabType::Int64 => SlabByteFormat::I64LE,
            SlabType::Uint64 => SlabByteFormat::U64LE,
            SlabType::Json => SlabByteFormat::Json,
        }
    }

    /// The byte format that slabs of this on-disk type carry.
    #[verifier::when_used_as_spec(spec_to_byte_format)]
    pub fn to_byte_format(self) -> (f: SlabByteFormat)
        ensures
            f == self.spec_to_byte_format(),
    {
        match self {
            SlabType::Int8 => SlabByteFormat::I8,
            SlabType::Uint8 => SlabByteFormat::U8,
            SlabType::Int16 => SlabByteFormat::I16LE,
            SlabType::Uint16 => SlabByteFormat::U16LE,
            SlabType::Int32 => SlabByteFormat::I32LE,
            SlabType::Uint32 => SlabByteFormat::U32LE,
            SlabType::Float32 => SlabByteFormat::F32LE,
            SlabType::Float64 => SlabByteFormat::F64LE,
            SlabType::Int64 => SlabByteFormat::I64LE,
            SlabType::Uint64 => SlabByteFormat::U64LE,
            SlabType::Json => SlabByteFormat::Json,
        }
    }
}

impl core::convert::TryFrom<u32> for SlabType {
    type Error = u32;

    /// Decode a slab-table type tag; the error is the unknown tag itself.
    fn try_from(v: u32) -> (r: Result<SlabType, u32>) {
        if v == 0x00 {
            Ok(SlabType::Int8)
        } else if v == 0x01 {
            Ok(SlabType::Uint8)
        } else if v == 0x02 {
            Ok(SlabType::Int16)
        } else if v == 0x03 {
            Ok(SlabType::Uint16)
        } else if v == 0x04 {
            Ok(SlabType::Int32)
        } else if v == 0x05 {
            Ok(SlabType::Uint32)
        } else if v == 0x06 {
            Ok(SlabType::Float32)
        } else if v == 0x07 {
            Ok(SlabType::Float64)
        } else if v == 0x08 {
            Ok(SlabType::Int64)
        } else if v == 0x09 {
            Ok(SlabType::Uint64)
        } else if v == 0x0a {
            Ok(SlabType::Json)
        } else {
            Err(v)
        }
    }
}

impl vstd::std_specs::convert::TryFromSpecImpl<u32> for SlabType {
    open spec fn obeys_try_from_spec() -> bool {
        true
    }

    open spec fn try_from_spec(v: u32) -> Result<SlabType, u32> {
        match SlabType::spec_from_tag(v) {
            Some(t) => Ok(t),
            None => Err(v),
        }
    }
}

/// Decoding a type's tag gives the type back.
pub proof fn lemma_tag_roundtrip(t: SlabType)
    ensures
        SlabType::spec_from_tag(t.spec_tag()) == Some(t),
{
}

/// The in-memory byte layout of a slab: its element type together with
/// the byte order of its elements. Slabs read from a file are always
/// little-endian.
#[derive(Debug, Clone, Copy, PartialEq, Eq, Structural)]
pub enum SlabByteFormat {
    /// Signed 8-bit integers.
    I8,
    /// Unsigned 8-bit integers.
    U8,
    /// Signed 16-bit integers, little-endian.
    I16LE,
    /// Unsigned 16-bit integers, little-endian.
    U16LE,
    /// Signed 32-bit integers, little-endian.
    I32LE,
    /// Unsigned 32-bit integers, little-endian.
    U32LE,
    /// IEEE 754 binary32 floats, little-endian.
    F32LE,
    /// IEEE 754 binary64 floats, little-endian.
    F64LE,
    /// Signed 64-bit integers, little-endian.
    I64LE,
    /// Unsigned 64-bit integers, little-endian.
    U64LE,
    /// UTF-8 JSON bytes.
    Json,
}

impl SlabByteFormat {
    /// The slab type tag written to disk for this format.
    pub open spec fn spec_on_disk_type(self) -> SlabType {
        match self {
            SlabByteFormat::I8 => SlabType::Int8,
            SlabByteFormat::U8 => SlabType::Uint8,
            SlabByteFormat::I16LE => SlabType::Int16,
            SlabByteFormat::U16LE => SlabType::Uint16,
            SlabByteFormat::I32LE => SlabType::Int32,
            SlabByteFormat::U32LE => SlabType::Uint32,
            SlabByteFormat::F32LE => SlabType::Float32,
            SlabByteFormat::F64LE => SlabType::Float64,
            SlabByteFormat::I64LE => SlabType::Int64,
            SlabByteFormat::U64LE => SlabType::Uint64,
            SlabByteFormat::Json => SlabType::Json,
        }
    }

    /// The slab type tag written to disk for this format.
    #[verifier::when_used_as_spec(spec_on_disk_type)]
    pub fn on_disk_type(self) -> (t: SlabType)
        ensures
            t == self.spec_on_disk_type(),
    {
        match self {
            SlabByteFormat::I8 => SlabType::Int8,
            SlabByteFormat::U8 => SlabType::Uint8,
            SlabByteFormat::I16LE => SlabType::Int16,
            SlabByteFormat::U16LE => SlabType::Uint16,
            SlabByteFormat::I32LE => SlabType::Int32,
            SlabByteFormat::U32LE => SlabType::Uint32,
            SlabByteFormat::F32LE => SlabType::Float32,
            SlabByteFormat::F64LE => SlabType::Float64,
            SlabByteFormat::I64LE => SlabType::Int64,
            SlabByteFormat::U64LE => SlabType::Uint64,
            SlabByteFormat::Json => SlabType::Json,
        }
    }

    /// Size in bytes of one element in this format.
    pub open spec fn spec_element_size(self) -> usize {
        self.spec_on_disk_type().spec_element_size()
    }

    /// Size in bytes of a single element in this format.
    #[verifier::when_used_as_spec(spec_element_size)]
    pub fn element_size(self) -> (n: usize)
        ensures
            n == self.spec_element_size(),
    {
        self.on_disk_type().element_size()
    }
}

/// A format survives the trip to disk and back unchanged, and the
/// on-disk type keeps the element size.
pub proof fn lemma_byte_format_roundtrip(f: SlabByteFormat)
    ensures
        f.spec_on_disk_type().spec_to_byte_format() == f,
        f.spec_on_disk_type().spec_element_size() == f.spec_element_size(),
        f.spec_element_size() == 1 || f.spec_element_size() == 2 || f.spec_element_size() == 4
            || f.spec_element_size() == 8,
{
}

/// Element sizes are 1, 2, 4 or 8.
pub proof fn lemma_element_size_range(t: SlabType)
    ensures
        t.spec_element_size() == 1 || t.spec_element_size() == 2 || t.spec_element_size() == 4
            || t.spec_element_size() == 8,
        t.spec_to_byte_format().spec_on_disk_type() == t,
{
}

/// A typed view of one slab's bytes, tagged with its on-disk type.
#[derive(Debug, Clone, Copy)]
pub struct SlabRef<'a> {
    /// The on-disk type tag of this slab.
    pub slab_type: SlabType,
    /// Borrowed slab bytes. For multi-byte numeric slab types, elements
    /// are little-endian.
    pub data: &'a [u8],
}

impl<'a> SlabRef<'a> {
    /// Number of typed elements in the slab, i.e.
    /// `data.len() / slab_type.element_size()`.
    pub fn element_count(&self) -> (n: usize)
        ensures
            n == self.data@.len() / (self.slab_type.spec_element_size() as nat),
    {
        self.data.len() / self.slab_type.element_size()
    }
}

/// Decoded form of the 20-byte fixed header.
#[derive(Debug, Clone, Copy, PartialEq, Eq, Structural)]
pub struct Header {
    /// Total number of slabs in the file (including the root JSON slab).
    pub slab_count: usize,
    /// Slab table index of the root JSON skeleton slab. Less than
    /// `slab_count` when produced by `Header::parse`.
    pub root_json_slab_index: usize,
}

/// One slab-table entry, decoded but not yet bound to file data.
#[derive(Debug, Clone, Copy, PartialEq, Eq, Structural)]
pub struct SlabTableEntry {
    /// The on-disk type tag of the slab.
    pub slab_type: SlabType,
    /// Byte offset from the start of the file to the slab's first byte.
    pub start_offset: u64,
    /// Slab length in bytes. A multiple of `slab_type.element_size()`
    /// when produced by `SlabTableEntry::parse`.
    pub byte_length: u64,
}

/// The little-endian `u32` stored at `pos` in `s`.
pub open spec fn u32_at(s: Seq<u8>, pos: int) -> u32 {
    u32_le_value(s.subrange(pos, pos + 4))
}

/// The four little-endian bytes of `v`, truncated to 32 bits as the
/// container fields are.
pub open spec fn u32_bytes(v: int) -> Seq<u8> {
    u32_le_bytes(v as u32)
}

/// Read the little-endian `u32` at `pos`.
pub fn read_u32_le(bytes: &[u8], pos: usize) -> (v: u32)
    requires
        pos + 4 <= bytes@.len(),
    ensures
        v == u32_at(bytes@, pos as int),
{
    let n = bytes.len();
    assert(pos + 4 <= n);
    let field = slice_subrange(bytes, pos, pos + 4);
    u32_from_le(field)
}

/// Append the four little-endian bytes of `v`.
pub fn push_u32_le(out: &mut Vec<u8>, v: u32)
    ensures
        final(out)@ == old(out)@ + u32_bytes(v as int),
{
    let mut field = u32_to_le(v);
    out.append(&mut field);
}

/// Reading back the four bytes written for a `u32` gives it back.
pub proof fn lemma_u32_bytes_roundtrip(v: u32)
    ensures
        u32_bytes(v as int).len() == 4,
        u32_le_value(u32_bytes(v as int)) == v,
{
    assert((v as int) as u32 == v);
    lemma_u32_le(v);
}

} // verus!
