//! Reading and writing JsonSlabs (JSLB) containers: a binary format for
//! JSON-shaped data whose typed arrays are stored out of line, each at its
//! natural alignment, so that they can be used as views into the file
//! buffer. JSON slabs refer to other slabs through `{"$s": N}`
//! placeholder objects.
//!
//! Use `Builder` for writing and `ParsedFile` for reading; `SlabDirectory`
//! and `stream_read` give lower-level access to the header and slab table.
//!
//! The logic of the `jslb` tools lives here too: `skeleton` walks the JSON
//! skeleton of a file event by event and resolves placeholders, `paths`
//! finds the first JSON path that reaches each slab, `to_json` renders a
//! file as one JSON document, `ls` lays out the size table and `explode`
//! names the files that slabs are unpacked to.

pub mod builder_laws;
pub mod explode;
pub mod format;
pub mod format_laws;
pub mod json_text;
pub mod layout;
pub mod le;
pub mod ls;
pub mod laws;
pub mod paths;
pub mod placeholder;
pub mod read;
pub mod skeleton;
mod sealed;
pub mod stream_read;
pub mod to_json;
pub mod types;
pub mod util;
pub mod walk_laws;
pub mod write;

pub use format::{
    Header, SlabByteFormat, SlabRef, SlabTableEntry, SlabType, FIXED_HEADER_SIZE, MAGIC,
    SLAB_TABLE_ENTRY_SIZE, VERSION,
};
pub use placeholder::SlabPlaceholder;
pub use read::{DecodeError, ParseError, ParsedFile, SlabDirectory};
pub use stream_read::RootJsonReader;
pub use types::{AsSlabBytes, BorrowedSlab, JsonBytes, SlabBytes, SlabElems, SlabPrimitive, SLAB_REF_KEY};
pub use write::{Builder, StreamedSlab};
