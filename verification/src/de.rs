pub mod cell;
pub mod column;
pub mod date;
pub mod document;
pub mod bytes_iter;
pub mod record;

use crate::de::column::{spec_cell_kind, CellKind};
use crate::error::Error;
use crate::text::{lemma_text_bytes, str_trim_char, text_of, trim_both_chars, utf8_str};
use arrayvec::ArrayString;
use vstd::prelude::*;
use vstd::string::StringSliceAdditionalSpecFns;

verus! {

#[verifier::external_type_specification]
#[verifier::external_body]
pub struct ExArrayString<const CAP: usize>(ArrayString<CAP>);

#[verifier::external_type_specification]
#[verifier::external_body]
#[verifier::reject_recursive_types(T)]
pub struct ExCapacityError<T>(arrayvec::CapacityError<T>);

/// The text an eleven-byte `ArrayString` holds.
pub uninterp spec fn short_text(s: ArrayString<11>) -> Seq<char>;

/// Calls `arrayvec::ArrayString::<11>::from`, which copies `s` when it fits in
/// eleven bytes and reports a capacity error otherwise; the copy holds the
/// text of `s` ([`short_text`]).
#[verifier::external_body]
fn short_string(s: &str) -> (r: Result<ArrayString<11>, arrayvec::CapacityError<&str>>)
    ensures
        r is Ok <==> s.spec_bytes().len() <= 11,
        r matches Ok(a) ==> short_text(a) == s@,
{
    ArrayString::from(s)
}

/// Calls `arrayvec::ArrayString::<11>::as_str`, which gives the text held.
#[verifier::external_body]
fn short_str(a: &ArrayString<11>) -> (r: &str)
    ensures
        r@ == short_text(*a),
{
    a.as_str()
}

/// A field descriptor read with its name in a fixed eleven-byte string.
pub struct Field {
    name: ArrayString<11>,
    kind: CellKind,
    size: usize,
}

/// The name a 32-byte descriptor holds: its first 11 bytes as text, without
/// leading or trailing zero bytes.
pub open spec fn field_name(chunk: Seq<u8>) -> Option<Seq<char>> {
    match text_of(chunk.take(11)) {
        Some(t) => Some(trim_both_chars(t, '\0')),
        None => None,
    }
}

impl Field {
    /// Reads a 32-byte field descriptor: name, type and width.
    pub fn new(chunk: &[u8]) -> (r: Result<Field, Error>)
        requires
            chunk@.len() == 32,
        ensures
            match r {
                Ok(f) => {
                    &&& field_name(chunk@) == Some(f.spec_name())
                    &&& spec_cell_kind(chunk@[11], chunk@[17]) == Ok::<CellKind, Error>(f.spec_kind())
                    &&& f.spec_size() == chunk@[16]
                },
                Err(Error::ConvertText(_)) => field_name(chunk@) is None,
                Err(e) => field_name(chunk@) is Some && spec_cell_kind(chunk@[11], chunk@[17])
                    == Err::<CellKind, Error>(e),
            },
    {
        let head = vstd::slice::slice_subrange(chunk, 0, 11);
        let text = match utf8_str(head) {
            Ok(text) => text,
            Err(e) => {
                return Err(Error::ConvertText(e));
            },
        };
        proof {
            lemma_text_bytes(head@);
        }
        let trimmed = str_trim_char(text, '\0');
        let name = match short_string(trimmed) {
            Ok(name) => name,
            Err(_) => {
                // Unreachable: the text came from eleven bytes and trimming
                // only shortens it.
                proof {
                    assert(false);
                }
                return Err(Error::HeaderLength);
            },
        };
        let kind = match CellKind::parse(chunk[11], chunk[17]) {
            Ok(kind) => kind,
            Err(e) => {
                return Err(e);
            },
        };
        let size = chunk[16] as usize;
        Ok(Field { name, kind, size })
    }

    /// The field's name.
    pub closed spec fn spec_name(&self) -> Seq<char> {
        short_text(self.name)
    }

    /// The field's kind.
    pub closed spec fn spec_kind(&self) -> CellKind {
        self.kind
    }

    /// The field's width in bytes.
    pub closed spec fn spec_size(&self) -> usize {
        self.size
    }

    /// The field's name.
    pub fn name(&self) -> (r: &str)
        ensures
            r@ == self.spec_name(),
    {
        short_str(&self.name)
    }

    /// The field's kind.
    pub fn kind(&self) -> (r: CellKind)
        ensures
            r == self.spec_kind(),
    {
        self.kind
    }

    /// The field's width in bytes.
    pub fn size(&self) -> (r: usize)
        ensures
            r == self.spec_size(),
    {
        self.size
    }
}

} // verus!
