//! A streaming reader for .dbf (dBASE) tables.
//!
//! The library decodes the table header into column descriptions, keeps one
//! record buffer that is refilled for every row, and turns the bytes of each
//! cell into plain values (text, booleans, characters, dates).

pub mod de;
pub mod error;
pub mod text;

pub use de::bytes_iter::{BytesIter, IterLend};
pub use de::cell::{as_bool, as_char, as_date, as_text_lhs, as_text_raw, as_text_rhs, is_blank, Cell};
pub use de::column::{CellKind, Column};
pub use de::date::Date;
pub use de::document::{Document, Header};
pub use de::record::{CellPeek, Record};
pub use de::Field;
pub use error::Error;
