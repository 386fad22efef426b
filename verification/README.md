# json-slabs

A library for JsonSlabs (`.jslb`) files, verified with Verus, and the
`jslb` command-line tools built on it.

A `.jslb` file holds JSON-shaped data whose typed arrays live in slabs of
their own, each at its natural alignment; JSON slabs refer to other slabs
through `{"$s": N}` placeholder objects.

## Layout

- `src/`: the library, every function with a contract that Verus proves.
  - `format`, `read`, `write`, `layout`, `types`, `placeholder`: the file
    format, its parser (`ParsedFile`, `SlabDirectory`) and its writer
    (`Builder`).
  - `stream_read`: the decisions of streaming the root JSON slab out of a
    byte stream.
  - `skeleton`: walks a JSON skeleton event by event and recognises
    placeholders; `paths`, `to_json`, `ls`, `explode`, `util` and
    `json_text` hold the logic of the `jslb` subcommands.
  - `laws`, `walk_laws`: proved properties that span functions, such as
    that a file written by `Builder` parses back to the slabs added, and
    that every walk opens and closes containers in nested order.
- `app/`: the `jslb` program: argument handling, file I/O, JSON
  tokenizing with `actson`, and rendering of floating-point elements.
- `tests/`: tests of the library on concrete files and values.

## When `Builder` reads its inputs

- `add_slab` borrows what it is given (a slice or array of primitives,
  `JsonBytes`, `SlabBytes`): nothing is copied when the slab is added, and
  its bytes are encoded while `finish` / `to_writer` writes the file. The
  borrowed data must outlive the builder (`Builder<'a>`).
- `add_slab_from_vec` and `add_json_slab` move their data into the
  builder.
- `add_slab_from_iter` drains its iterator when the slab is added (it
  pulls `count` items and then one more, which must be `None`), and
  `add_streamed_slab` asks its `StreamedSlab` for its bytes when the slab
  is added. Consuming them later, while the file is written, would mean
  holding values of many types in one builder, as `Box<dyn StreamedSlab>`,
  and stating what an iterator has yet to yield. Verus allows the latter
  only in prophetic spec functions, and for trait objects it keeps no
  specification across the unsizing coercion to `dyn` or across a
  `Vec::push` of a `Box<dyn ...>` (not even the new length), so no
  contract on such a builder can be proved. The file bytes are the same
  either way; only the moment the input is read differs.

## Streaming the root slab

`stream_read::RootJsonReader` bounds each read of the root slab
(`read_len`) and settles it (`after_read`): reads yield exactly the
slab's `byte_length` bytes and then end of file, and a stream that ends
inside the root slab is reported as `StreamError::EndedInsideRoot`, an
unexpected end of file.
