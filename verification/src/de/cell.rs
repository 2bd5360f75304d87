//! The value of one field of a record, and the readings of its bytes.

use crate::de::column::CellKind;
use crate::de::date::{chrono_date, chrono_valid_date, date_text, parse_date, Date};
use crate::error::Error;
use crate::text::{
    lemma_ascii_space,
    ascii_space, char_is_whitespace, is_ascii_space, str_trim_end, str_trim_start, trim_end_chars,
    trim_start_chars, text_of, utf8_str, white_space, int_text_value, parse_i8, parse_i16, parse_i32,
    parse_i64, parse_u8, parse_u16, parse_u32, parse_u64,
};
use vstd::prelude::*;

verus! {

broadcast use vstd::string::group_string_axioms;

/// Whether every byte is ASCII whitespace (true of no bytes at all).
pub open spec fn all_blank(data: Seq<u8>) -> bool {
    forall|i: int| 0 <= i < data.len() ==> ascii_space(#[trigger] data[i])
}

/// Whether a cell holds nothing but ASCII whitespace.
pub fn is_blank(data: &[u8]) -> (r: bool)
    ensures
        r == all_blank(data@),
{
    let mut i: usize = 0;
    while i < data.len()
        invariant
            0 <= i <= data@.len(),
            forall|j: int| 0 <= j < i ==> ascii_space(#[trigger] data@[j]),
        decreases data@.len() - i,
    {
        if !is_ascii_space(data[i]) {
            return false;
        }
        i = i + 1;
    }
    true
}

/// A cell's bytes as text, without trimming.
pub fn as_text_raw(data: &[u8]) -> (r: Result<&str, Error>)
    ensures
        match r {
            Ok(s) => text_of(data@) == Some(s@),
            Err(e) => text_of(data@) is None && e is ConvertText,
        },
{
    match utf8_str(data) {
        Ok(s) => Ok(s),
        Err(e) => Err(Error::ConvertText(e)),
    }
}

/// A cell's text without its trailing whitespace (left-aligned values).
pub fn as_text_lhs(data: &[u8]) -> (r: Result<&str, Error>)
    ensures
        match r {
            Ok(s) => text_of(data@) matches Some(t) && s@ == trim_end_chars(t),
            Err(e) => text_of(data@) is None && e is ConvertText,
        },
{
    let text = as_text_raw(data)?;
    Ok(str_trim_end(text))
}

/// A cell's text without its leading whitespace (right-aligned values).
pub fn as_text_rhs(data: &[u8]) -> (r: Result<&str, Error>)
    ensures
        match r {
            Ok(s) => text_of(data@) matches Some(t) && s@ == trim_start_chars(t),
            Err(e) => text_of(data@) is None && e is ConvertText,
        },
{
    let text = as_text_raw(data)?;
    Ok(str_trim_start(text))
}

/// The meaning of a one-byte logical field: `T t Y y` are true, `F f N n`
/// are false, `?` and space are unknown; any other byte is no logical value.
pub open spec fn bool_code(b: u8) -> Option<Option<bool>> {
    if b == 0x54 || b == 0x74 || b == 0x59 || b == 0x79 {
        Some(Some(true))
    } else if b == 0x46 || b == 0x66 || b == 0x4E || b == 0x6E {
        Some(Some(false))
    } else if b == 0x3F || b == 0x20 {
        Some(None)
    } else {
        None
    }
}

/// The logical value of a cell, if its bytes are one of the accepted codes.
pub open spec fn bool_value(data: Seq<u8>) -> Option<Option<bool>> {
    if data.len() == 1 {
        bool_code(data[0])
    } else {
        None
    }
}

/// A logical cell: `Some` of its truth value, `None` when it is unknown.
/// Any other content is an error that carries the cell's text.
pub fn as_bool(data: &[u8]) -> (r: Result<Option<bool>, Error>)
    ensures
        match bool_value(data@) {
            Some(v) => r == Ok::<Option<bool>, Error>(v),
            None => match r {
                Ok(_) => false,
                Err(Error::InvalidBool(s)) => text_of(data@) == Some(s@),
                Err(Error::ConvertText(_)) => text_of(data@) is None,
                Err(_) => false,
            },
        },
{
    if data.len() == 1 {
        let b = data[0];
        if b == 0x54 || b == 0x74 || b == 0x59 || b == 0x79 {
            return Ok(Some(true));
        } else if b == 0x46 || b == 0x66 || b == 0x4E || b == 0x6E {
            return Ok(Some(false));
        } else if b == 0x3F || b == 0x20 {
            return Ok(None);
        }
    }
    let text = as_text_raw(data)?;
    Err(Error::InvalidBool(text.to_owned()))
}

/// The characters of `s` that are not `White_Space`, in order.
pub open spec fn non_blank_chars(s: Seq<char>) -> Seq<char>
    decreases s.len(),
{
    if s.len() == 0 {
        Seq::empty()
    } else if white_space(s.last()) {
        non_blank_chars(s.drop_last())
    } else {
        non_blank_chars(s.drop_last()).push(s.last())
    }
}

/// The law of non-blank characters: they are the characters of the text that
/// do not have the `White_Space` property, in order.
pub proof fn lemma_non_blank_is_filter(s: Seq<char>)
    ensures
        non_blank_chars(s) == s.filter(|c: char| !white_space(c)),
    decreases s.len(),
{
    reveal_with_fuel(Seq::<char>::filter, 1);
    if s.len() > 0 {
        lemma_non_blank_is_filter(s.drop_last());
    }
}

/// A cell holding a digit or a letter is not blank, so it is never null.
pub proof fn lemma_not_blank(data: Seq<u8>, i: int)
    requires
        0 <= i < data.len(),
        0x30 <= data[i] <= 0x39 || 0x41 <= data[i] <= 0x5A || 0x61 <= data[i] <= 0x7A,
    ensures
        !all_blank(data),
{
    lemma_ascii_space(data[i]);
}

/// The non-blank characters of a text are characters of it, none of them
/// whitespace, and no more of them than the text has.
pub proof fn lemma_non_blank_chars(s: Seq<char>)
    ensures
        non_blank_chars(s).len() <= s.len(),
        forall|i: int|
            0 <= i < non_blank_chars(s).len() ==> !white_space(#[trigger] non_blank_chars(s)[i])
                && s.contains(non_blank_chars(s)[i]),
    decreases s.len(),
{
    if s.len() > 0 {
        lemma_non_blank_chars(s.drop_last());
        let a = non_blank_chars(s.drop_last());
        assert forall|i: int| 0 <= i < non_blank_chars(s).len() implies !white_space(
            #[trigger] non_blank_chars(s)[i],
        ) && s.contains(non_blank_chars(s)[i]) by {
            if i < a.len() {
                assert(non_blank_chars(s)[i] == a[i]);
                let j = choose|j: int| 0 <= j < s.drop_last().len() && s.drop_last()[j] == a[i];
                assert(s[j] == a[i]);
            } else {
                assert(s[s.len() - 1] == s.last());
            }
        }
    }
}

/// The non-blank characters of a prefix are a prefix of those of the whole.
pub proof fn lemma_non_blank_prefix(s: Seq<char>, j: int)
    requires
        0 <= j <= s.len(),
    ensures
        non_blank_chars(s.take(j)).len() <= non_blank_chars(s).len(),
        non_blank_chars(s.take(j)) == non_blank_chars(s).take(
            non_blank_chars(s.take(j)).len() as int,
        ),
    decreases s.len(),
{
    if j == s.len() {
        assert(s.take(j) =~= s);
        assert(non_blank_chars(s).take(non_blank_chars(s).len() as int) =~= non_blank_chars(s));
    } else {
        assert(s.drop_last().take(j) =~= s.take(j));
        lemma_non_blank_prefix(s.drop_last(), j);
        let p = non_blank_chars(s.take(j));
        let a = non_blank_chars(s.drop_last());
        assert(a.take(p.len() as int) =~= non_blank_chars(s).take(p.len() as int));
    }
}

/// A character cell: its single non-blank character, or a space when it is
/// blank. Two non-blank characters are an error naming the first two.
pub fn as_char(data: &[u8]) -> (r: Result<char, Error>)
    ensures
        match r {
            Ok(c) => text_of(data@) matches Some(t) && non_blank_chars(t).len() <= 1 && c == (
            if non_blank_chars(t).len() == 0 {
                ' '
            } else {
                non_blank_chars(t)[0]
            }),
            Err(Error::InvalidChar(a, b)) => text_of(data@) matches Some(t) && non_blank_chars(
                t,
            ).len() >= 2 && a == non_blank_chars(t)[0] && b == non_blank_chars(t)[1],
            Err(Error::ConvertText(_)) => text_of(data@) is None,
            Err(_) => false,
        },
{
    let text = as_text_raw(data)?;
    let ghost cs = text@;
    let mut chars = text.chars();
    let mut state: Option<char> = None;
    let ghost mut i: int = 0;
    assert(cs.skip(0) =~= cs);
    loop
        invariant
            text_of(data@) == Some(cs),
            0 <= i <= cs.len(),
            vstd::std_specs::iter::IteratorSpec::remaining(&chars) == cs.skip(i),
            non_blank_chars(cs.take(i)).len() <= 1,
            state == (if non_blank_chars(cs.take(i)).len() == 0 {
                None::<char>
            } else {
                Some(non_blank_chars(cs.take(i))[0])
            }),
        ensures
            i == cs.len(),
            non_blank_chars(cs.take(i)).len() <= 1,
            state == (if non_blank_chars(cs.take(i)).len() == 0 {
                None::<char>
            } else {
                Some(non_blank_chars(cs.take(i))[0])
            }),
        decreases cs.len() - i,
    {
        let next = chars.next();
        match next {
            None => {
                assert(i == cs.len());
                break;
            },
            Some(c) => {
                proof {
                    assert(c == cs[i]);
                    assert(cs.take(i + 1).drop_last() =~= cs.take(i));
                    assert(vstd::std_specs::iter::IteratorSpec::remaining(&chars) =~= cs.skip(i + 1));
                }
                if !char_is_whitespace(c) {
                    if let Some(prev) = state {
                        proof {
                            i = i + 1;
                            lemma_non_blank_prefix(cs, i);
                            assert(non_blank_chars(cs.take(i)) =~= seq![prev, c]);
                        }
                        return Err(Error::InvalidChar(prev, c));
                    }
                    state = Some(c);
                }
                proof {
                    i = i + 1;
                }
            },
        }
    }
    assert(cs.take(i) =~= cs);
    match state {
        Some(c) => Ok(c),
        None => Ok(' '),
    }
}

/// The strftime pattern of dates in a table: year, month and day, `YYYYMMDD`.
pub open spec fn date_pattern() -> Seq<char> {
    seq!['%', 'Y', '%', 'm', '%', 'd']
}

/// A date cell: `None` when it is blank, otherwise the date that chrono reads
/// from its text under the pattern `%Y%m%d`.
pub fn as_date(data: &[u8]) -> (r: Result<Option<Date>, Error>)
    ensures
        match r {
            Ok(None) => all_blank(data@),
            Ok(Some(d)) => {
                &&& !all_blank(data@)
                &&& text_of(data@) matches Some(t)
                &&& chrono_date(t, date_pattern()) == Some((d.year, d.month, d.day))
                &&& chrono_valid_date(d.year, d.month, d.day)
            },
            Err(Error::ConvertText(_)) => !all_blank(data@) && text_of(data@) is None,
            Err(Error::ConvertDate(_)) => {
                &&& !all_blank(data@)
                &&& text_of(data@) matches Some(t)
                &&& chrono_date(t, date_pattern()) is None
            },
            Err(_) => false,
        },
{
    if is_blank(data) {
        Ok(None)
    } else {
        let text = as_text_raw(data)?;
        let fmt = "%Y%m%d";
        proof {
            reveal_strlit("%Y%m%d");
            assert(fmt@ =~= date_pattern());
        }
        match parse_date(text, fmt) {
            Ok(date) => Ok(Some(date)),
            Err(e) => Err(Error::ConvertDate(e)),
        }
    }
}

/// The value of a field in a [`Record`](crate::de::record::Record).
pub struct Cell<'a> {
    pub kind: CellKind,
    pub data: &'a [u8],
}

/// The error that [`as_bool`] reports for a cell that is no logical value.
pub open spec fn bool_error(data: Seq<u8>, e: Error) -> bool {
    match e {
        Error::InvalidBool(s) => text_of(data) == Some(s@),
        Error::ConvertText(_) => text_of(data) is None,
        _ => false,
    }
}

/// The integer a number cell holds: its text without leading whitespace,
/// read as std reads integers (`None` inside when it is no integer); `None`
/// when the bytes are not UTF-8.
pub open spec fn int_reading(data: Seq<u8>, signed: bool) -> Option<Option<int>> {
    match text_of(data) {
        Some(t) => Some(int_text_value(trim_start_chars(t), signed)),
        None => None,
    }
}

impl<'a> Cell<'a> {

    /// The cell read as an `i8`: its text without leading whitespace, read
    /// as std reads integers.
    pub fn to_i8(&self) -> (r: Result<i8, Error>)
        ensures
            match r {
                Ok(v) => int_reading(self.data@, true) == Some(Some(v as int)),
                Err(Error::ConvertText(_)) => int_reading(self.data@, true) is None,
                Err(Error::ConvertInt(_)) => int_reading(self.data@, true) matches Some(o) && !(o matches Some(
                    v,
                ) && i8::MIN <= v <= i8::MAX),
                Err(_) => false,
            },
    {
        let text = as_text_rhs(self.data)?;
        match parse_i8(text) {
            Ok(v) => Ok(v),
            Err(e) => Err(Error::ConvertInt(e)),
        }
    }

    /// The cell read as an `i16`: its text without leading whitespace, read
    /// as std reads integers.
    pub fn to_i16(&self) -> (r: Result<i16, Error>)
        ensures
            match r {
                Ok(v) => int_reading(self.data@, true) == Some(Some(v as int)),
                Err(Error::ConvertText(_)) => int_reading(self.data@, true) is None,
                Err(Error::ConvertInt(_)) => int_reading(self.data@, true) matches Some(o) && !(o matches Some(
                    v,
                ) && i16::MIN <= v <= i16::MAX),
                Err(_) => false,
            },
    {
        let text = as_text_rhs(self.data)?;
        match parse_i16(text) {
            Ok(v) => Ok(v),
            Err(e) => Err(Error::ConvertInt(e)),
        }
    }

    /// The cell read as an `i32`: its text without leading whitespace, read
    /// as std reads integers.
    pub fn to_i32(&self) -> (r: Result<i32, Error>)
        ensures
            match r {
                Ok(v) => int_reading(self.data@, true) == Some(Some(v as int)),
                Err(Error::ConvertText(_)) => int_reading(self.data@, true) is None,
                Err(Error::ConvertInt(_)) => int_reading(self.data@, true) matches Some(o) && !(o matches Some(
                    v,
                ) && i32::MIN <= v <= i32::MAX),
                Err(_) => false,
            },
    {
        let text = as_text_rhs(self.data)?;
        match parse_i32(text) {
            Ok(v) => Ok(v),
            Err(e) => Err(Error::ConvertInt(e)),
        }
    }

    /// The cell read as an `i64`: its text without leading whitespace, read
    /// as std reads integers.
    pub fn to_i64(&self) -> (r: Result<i64, Error>)
        ensures
            match r {
                Ok(v) => int_reading(self.data@, true) == Some(Some(v as int)),
                Err(Error::ConvertText(_)) => int_reading(self.data@, true) is None,
                Err(Error::ConvertInt(_)) => int_reading(self.data@, true) matches Some(o) && !(o matches Some(
                    v,
                ) && i64::MIN <= v <= i64::MAX),
                Err(_) => false,
            },
    {
        let text = as_text_rhs(self.data)?;
        match parse_i64(text) {
            Ok(v) => Ok(v),
            Err(e) => Err(Error::ConvertInt(e)),
        }
    }

    /// The cell read as an `u8`: its text without leading whitespace, read
    /// as std reads integers.
    pub fn to_u8(&self) -> (r: Result<u8, Error>)
        ensures
            match r {
                Ok(v) => int_reading(self.data@, false) == Some(Some(v as int)),
                Err(Error::ConvertText(_)) => int_reading(self.data@, false) is None,
                Err(Error::ConvertInt(_)) => int_reading(self.data@, false) matches Some(o) && !(o matches Some(
                    v,
                ) && u8::MIN <= v <= u8::MAX),
                Err(_) => false,
            },
    {
        let text = as_text_rhs(self.data)?;
        match parse_u8(text) {
            Ok(v) => Ok(v),
            Err(e) => Err(Error::ConvertInt(e)),
        }
    }

    /// The cell read as an `u16`: its text without leading whitespace, read
    /// as std reads integers.
    pub fn to_u16(&self) -> (r: Result<u16, Error>)
        ensures
            match r {
                Ok(v) => int_reading(self.data@, false) == Some(Some(v as int)),
                Err(Error::ConvertText(_)) => int_reading(self.data@, false) is None,
                Err(Error::ConvertInt(_)) => int_reading(self.data@, false) matches Some(o) && !(o matches Some(
                    v,
                ) && u16::MIN <= v <= u16::MAX),
                Err(_) => false,
            },
    {
        let text = as_text_rhs(self.data)?;
        match parse_u16(text) {
            Ok(v) => Ok(v),
            Err(e) => Err(Error::ConvertInt(e)),
        }
    }

    /// The cell read as an `u32`: its text without leading whitespace, read
    /// as std reads integers.
    pub fn to_u32(&self) -> (r: Result<u32, Error>)
        ensures
            match r {
                Ok(v) => int_reading(self.data@, false) == Some(Some(v as int)),
                Err(Error::ConvertText(_)) => int_reading(self.data@, false) is None,
                Err(Error::ConvertInt(_)) => int_reading(self.data@, false) matches Some(o) && !(o matches Some(
                    v,
                ) && u32::MIN <= v <= u32::MAX),
                Err(_) => false,
            },
    {
        let text = as_text_rhs(self.data)?;
        match parse_u32(text) {
            Ok(v) => Ok(v),
            Err(e) => Err(Error::ConvertInt(e)),
        }
    }

    /// The cell read as an `u64`: its text without leading whitespace, read
    /// as std reads integers.
    pub fn to_u64(&self) -> (r: Result<u64, Error>)
        ensures
            match r {
                Ok(v) => int_reading(self.data@, false) == Some(Some(v as int)),
                Err(Error::ConvertText(_)) => int_reading(self.data@, false) is None,
                Err(Error::ConvertInt(_)) => int_reading(self.data@, false) matches Some(o) && !(o matches Some(
                    v,
                ) && u64::MIN <= v <= u64::MAX),
                Err(_) => false,
            },
    {
        let text = as_text_rhs(self.data)?;
        match parse_u64(text) {
            Ok(v) => Ok(v),
            Err(e) => Err(Error::ConvertInt(e)),
        }
    }
    /// The cell read as a boolean: a logical value that is unknown (`?` or
    /// blank) cannot be one.
    pub fn to_bool(&self) -> (r: Result<bool, Error>)
        ensures
            match bool_value(self.data@) {
                Some(Some(b)) => r == Ok::<bool, Error>(b),
                Some(None) => r matches Err(Error::UnwrapBool),
                None => r matches Err(e) && bool_error(self.data@, e),
            },
    {
        match as_bool(self.data)? {
            Some(b) => Ok(b),
            None => Err(Error::UnwrapBool),
        }
    }

    /// The cell read as a string: a date cell gives its date as `YYYY-MM-DD`
    /// (nothing when blank); any other cell gives its text without trailing
    /// whitespace.
    pub fn text(&self) -> (r: Result<String, Error>)
        ensures
            self.kind == CellKind::Date ==> match r {
                Ok(s) => if all_blank(self.data@) {
                    s@ == Seq::<char>::empty()
                } else {
                    text_of(self.data@) matches Some(t) && chrono_date(t, date_pattern()) matches Some(
                        (y, m, d),
                    ) && s@ == date_text(Date { year: y, month: m, day: d })
                },
                Err(Error::ConvertText(_)) => !all_blank(self.data@) && text_of(self.data@) is None,
                Err(Error::ConvertDate(_)) => {
                    &&& !all_blank(self.data@)
                    &&& text_of(self.data@) matches Some(t)
                    &&& chrono_date(t, date_pattern()) is None
                },
                Err(_) => false,
            },
            self.kind != CellKind::Date ==> match r {
                Ok(s) => text_of(self.data@) matches Some(t) && s@ == trim_end_chars(t),
                Err(e) => text_of(self.data@) is None && e is ConvertText,
            },
    {
        if self.kind == CellKind::Date {
            match as_date(self.data)? {
                Some(date) => Ok(date.to_string()),
                None => Ok(String::new()),
            }
        } else {
            let text = as_text_lhs(self.data)?;
            Ok(text.to_owned())
        }
    }

    /// Whether the cell stands for no value: it is blank, or it is a logical
    /// cell whose value is unknown.
    pub fn is_null(&self) -> (r: Result<bool, Error>)
        ensures
            all_blank(self.data@) ==> r == Ok::<bool, Error>(true),
            !all_blank(self.data@) && self.kind != CellKind::Bool ==> r == Ok::<bool, Error>(
                false,
            ),
            !all_blank(self.data@) && self.kind == CellKind::Bool ==> match bool_value(
                self.data@,
            ) {
                Some(v) => r == Ok::<bool, Error>(v is None),
                None => r matches Err(e) && bool_error(self.data@, e),
            },
    {
        if is_blank(self.data) {
            Ok(true)
        } else if self.kind == CellKind::Bool {
            let value = as_bool(self.data)?;
            Ok(value.is_none())
        } else {
            Ok(false)
        }
    }
}

} // verus!
