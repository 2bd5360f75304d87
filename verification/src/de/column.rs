use crate::de::cell::as_text_raw;
use crate::error::Error;
use crate::text::text_of;
use core::ops::Range;
use vstd::prelude::*;

verus! {

/// The data type of a field.
#[derive(Debug, Clone, Copy, PartialEq, Eq, Structural)]
pub enum CellKind {
    Integer,
    Decimal,
    Text,
    Bool,
    Date,
    Memo,
}

/// The kind that a type code names when the field has no decimal point.
pub open spec fn dot_free_kind(code: u8) -> Option<CellKind> {
    if code == 0x43 {
        Some(CellKind::Text)
    } else if code == 0x4C {
        Some(CellKind::Bool)
    } else if code == 0x44 {
        Some(CellKind::Date)
    } else if code == 0x4D {
        Some(CellKind::Memo)
    } else {
        None
    }
}

/// What a field descriptor with type code `code` and `dots` decimal places denotes:
/// `N` is an integer without decimals and a decimal number with one; `C`, `L`,
/// `D` and `M` are text, bool, date and memo fields, which take no decimals.
pub open spec fn spec_cell_kind(code: u8, dots: u8) -> Result<CellKind, Error> {
    if code == 0x4E {
        if dots == 0 {
            Ok(CellKind::Integer)
        } else if dots == 1 {
            Ok(CellKind::Decimal)
        } else {
            Err(Error::MultipleDots(dots))
        }
    } else {
        match dot_free_kind(code) {
            None => Err(Error::UnknownCellType(code)),
            Some(kind) => if dots == 0 {
                Ok(kind)
            } else if dots == 1 {
                Err(Error::ContainsDots(kind))
            } else {
                Err(Error::MultipleDots(dots))
            },
        }
    }
}

impl CellKind {
    /// The kind of a field from its type code and its number of decimal
    /// places.
    pub fn parse(code: u8, dots: u8) -> (r: Result<CellKind, Error>)
        ensures
            r == spec_cell_kind(code, dots),
    {
        let dot_free = match code {
            0x4E => None,
            0x43 => Some(CellKind::Text),
            0x4C => Some(CellKind::Bool),
            0x44 => Some(CellKind::Date),
            0x4D => Some(CellKind::Memo),
            c => return Err(Error::UnknownCellType(c)),
        };
        match (dot_free, dots) {
            (Some(kind), 0) => Ok(kind),
            (Some(kind), 1) => Err(Error::ContainsDots(kind)),
            (None, 0) => Ok(CellKind::Integer),
            (None, 1) => Ok(CellKind::Decimal),
            (_, n) => Err(Error::MultipleDots(n)),
        }
    }
}

/// The bytes of `s` before its first zero byte (all of `s` when it has none).
pub open spec fn until_nul(s: Seq<u8>) -> Seq<u8>
    decreases s.len(),
{
    if s.len() == 0 {
        s
    } else if s[0] == 0 {
        Seq::empty()
    } else {
        seq![s[0]] + until_nul(s.drop_first())
    }
}

/// The bytes of a field's name: the first 11 bytes of its descriptor, up to a
/// terminating zero byte.
pub open spec fn name_bytes(chunk: Seq<u8>) -> Seq<u8> {
    until_nul(chunk.take(11))
}

/// The law of zero-terminated names: `until_nul` keeps the longest prefix of
/// the bytes that holds no zero byte; it stops at the first zero byte or at
/// the end.
pub proof fn lemma_until_nul_prefix(s: Seq<u8>)
    ensures
        until_nul(s).len() <= s.len(),
        until_nul(s) == s.take(until_nul(s).len() as int),
        forall|j: int| 0 <= j < until_nul(s).len() ==> s[j] != 0,
        until_nul(s).len() == s.len() || s[until_nul(s).len() as int] == 0,
    decreases s.len(),
{
    if s.len() == 0 {
        assert(s.take(0) =~= s);
    } else if s[0] == 0 {
        assert(s.take(0) =~= Seq::<u8>::empty());
    } else {
        let t = s.drop_first();
        lemma_until_nul_prefix(t);
        let n = until_nul(t).len() as int;
        assert(seq![s[0]] + t.take(n) =~= s.take(n + 1));
        assert forall|j: int| 0 <= j < n + 1 implies s[j] != 0 by {
            if j > 0 {
                assert(s[j] == t[j - 1]);
            }
        }
        if n < t.len() {
            assert(s[n + 1] == t[n]);
        }
    }
}

/// The name of a descriptor is every byte of its first 11 before the first
/// zero byte: a prefix of them with no zero byte, ended by a zero byte or by
/// the eleventh byte.
pub proof fn lemma_name_bytes(chunk: Seq<u8>)
    requires
        chunk.len() >= 11,
    ensures
        name_bytes(chunk).len() <= 11,
        name_bytes(chunk) == chunk.take(name_bytes(chunk).len() as int),
        forall|j: int| 0 <= j < name_bytes(chunk).len() ==> chunk[j] != 0,
        name_bytes(chunk).len() == 11 || chunk[name_bytes(chunk).len() as int] == 0,
{
    let h = chunk.take(11);
    lemma_until_nul_prefix(h);
    let n = until_nul(h).len() as int;
    assert(h.take(n) =~= chunk.take(n));
    assert forall|j: int| 0 <= j < n implies chunk[j] != 0 by {
        assert(h[j] == chunk[j]);
    }
    if n < 11 {
        assert(h[n] == chunk[n]);
    }
}

/// Whether a field descriptor can be read: its name is UTF-8 and its type
/// code and decimal count name a kind.
#[verifier::opaque]
pub open spec fn column_readable(chunk: Seq<u8>) -> bool {
    text_of(name_bytes(chunk)) is Some && spec_cell_kind(chunk[11], chunk[17]) is Ok
}

/// What reading the 32-byte field descriptor `chunk`, whose data starts at
/// offset `start` of the record, gives: the name, the kind, and the byte range
/// `start .. start + chunk[16]`; or the error of the first part that fails.
#[verifier::opaque]
pub open spec fn column_outcome(chunk: Seq<u8>, start: int, r: Result<Column, Error>) -> bool {
    match r {
        Ok(col) => {
            &&& text_of(name_bytes(chunk)) == Some(col.name@)
            &&& spec_cell_kind(chunk[11], chunk[17]) == Ok::<CellKind, Error>(col.kind)
            &&& col.zone.start == start
            &&& col.zone.end == start + chunk[16]
        },
        Err(Error::ConvertText(_)) => text_of(name_bytes(chunk)) is None,
        Err(e) => text_of(name_bytes(chunk)) is Some && spec_cell_kind(chunk[11], chunk[17])
            == Err::<CellKind, Error>(e),
    }
}

/// A descriptor that reads as a column is readable, and the column's range
/// starts at `start` and spans the descriptor's width.
pub proof fn lemma_column_read(chunk: Seq<u8>, start: int, col: Column)
    requires
        column_outcome(chunk, start, Ok(col)),
    ensures
        column_readable(chunk),
        col.zone.start == start,
        col.zone.end == start + chunk[16],
{
    reveal(column_outcome);
    reveal(column_readable);
}

/// A descriptor that cannot be read fails on its name's text or its type.
pub proof fn lemma_column_error(chunk: Seq<u8>, start: int, e: Error)
    requires
        column_outcome(chunk, start, Err(e)),
    ensures
        e is ConvertText || e is UnknownCellType || e is ContainsDots || e is MultipleDots,
{
    reveal(column_outcome);
}

proof fn lemma_until_nul(s: Seq<u8>, i: int)
    requires
        0 <= i <= s.len(),
        forall|j: int| 0 <= j < i ==> s[j] != 0,
        i == s.len() || s[i] == 0,
    ensures
        until_nul(s) == s.take(i),
    decreases s.len(),
{
    if s.len() == 0 {
        assert(s.take(i) =~= s);
    } else if s[0] == 0 {
        assert(s.take(i) =~= Seq::<u8>::empty());
    } else {
        lemma_until_nul(s.drop_first(), i - 1);
        assert(seq![s[0]] + s.drop_first().take(i - 1) =~= s.take(i));
    }
}

/// The metadata for a field.
pub struct Column {
    pub name: String,
    pub kind: CellKind,
    pub zone: Range<usize>,
}

impl Column {
    /// Reads the 32-byte descriptor of a field whose data starts at `*index`
    /// in the record, and moves `*index` past the field's width, whether or
    /// not the descriptor can be read.
    pub fn parse(chunk: &[u8], index: &mut usize) -> (r: Result<Column, Error>)
        requires
            chunk@.len() == 32,
            *old(index) + chunk@[16] <= usize::MAX,
        ensures
            *final(index) == *old(index) + chunk@[16],
            column_outcome(chunk@, *old(index) as int, r),
    {
        proof {
            reveal(column_outcome);
        }
        let mut end: usize = 0;
        while end < 11 && chunk[end] != 0
            invariant
                0 <= end <= 11,
                chunk@.len() == 32,
                forall|j: int| 0 <= j < end ==> chunk@[j] != 0,
            decreases 11 - end,
        {
            end = end + 1;
        }
        proof {
            lemma_until_nul(chunk@.take(11), end as int);
            assert(chunk@.take(11).take(end as int) =~= chunk@.subrange(0, end as int));
        }
        let prefix = as_text_raw(vstd::slice::slice_subrange(chunk, 0, end));

        let zone_lhs = *index;
        *index = *index + chunk[16] as usize;
        let zone_rhs = *index;

        let name = match prefix {
            Ok(text) => text.to_owned(),
            Err(e) => return Err(e),
        };
        let kind = CellKind::parse(chunk[11], chunk[17])?;
        Ok(Column { name, kind, zone: zone_lhs..zone_rhs })
    }
}

} // verus!
