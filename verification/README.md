# dbf_reader

A streaming reader for .dbf (dBASE) tables, verified with Verus.

- `src/` is the verified library: the table header (`Header`, `Document`),
  the field descriptors (`CellKind`, `Column`, `Field`), the record buffer and
  its cell cursor (`Record`, `CellPeek`), and the readings of a cell's bytes
  as text, booleans, characters and dates (`de/cell.rs`, `de/date.rs`).
  `text.rs` holds the UTF-8 and whitespace operations of std that the library
  relies on, each stated over vstd's model of UTF-8.
- `app/` reads files and plugs the library into serde: it reads the header
  and the records, and implements serde's `Deserializer` for records and
  cells, `FallibleStreamingIterator` for a table, and parses floating-point
  numbers.
- `tests/` exercises the library on concrete tables and cells.
