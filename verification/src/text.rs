//! Text handling on the bytes of a table: UTF-8 decoding, whitespace and
//! trimming, each stated over vstd's model of UTF-8 and character sequences.

use vstd::prelude::*;
use vstd::string::StringSliceAdditionalSpecFns;
use vstd::utf8::*;

verus! {

/// The text that some bytes decode to, if they are well-formed UTF-8
/// (vstd's `valid_utf8` and `decode_utf8`).
pub open spec fn text_of(data: Seq<u8>) -> Option<Seq<char>> {
    if valid_utf8(data) {
        Some(decode_utf8(data))
    } else {
        None
    }
}

/// Whether a byte is ASCII whitespace: space, tab, line feed, form feed or
/// carriage return (the set that `u8::is_ascii_whitespace` accepts).
pub open spec fn ascii_space(b: u8) -> bool {
    b == 0x20 || b == 0x09 || b == 0x0A || b == 0x0C || b == 0x0D
}

/// Executable form of [`ascii_space`].
pub fn is_ascii_space(b: u8) -> (r: bool)
    ensures
        r == ascii_space(b),
{
    b == 0x20 || b == 0x09 || b == 0x0A || b == 0x0C || b == 0x0D
}

/// The law of blank bytes: a byte is blank exactly when it is an ASCII
/// character with the Unicode `White_Space` property other than the vertical
/// tab; so no digit, letter or punctuation byte is blank, and every byte of
/// 0x80 or more is not.
pub proof fn lemma_ascii_space(b: u8)
    ensures
        ascii_space(b) <==> (b < 0x80 && white_space(b as char) && b != 0x0B),
        (0x30 <= b <= 0x39 || 0x41 <= b <= 0x5A || 0x61 <= b <= 0x7A) ==> !ascii_space(b),
{
}

/// Whether a character has the Unicode `White_Space` property, the test that
/// `char::is_whitespace` makes: tab, line feed, vertical tab, form feed,
/// carriage return, space, U+0085, U+00A0, U+1680, U+2000 to U+200A, U+2028,
/// U+2029, U+202F, U+205F and U+3000.
pub open spec fn white_space(c: char) -> bool {
    let u = c as u32;
    ||| 0x09 <= u <= 0x0D
    ||| u == 0x20
    ||| u == 0x85
    ||| u == 0xA0
    ||| u == 0x1680
    ||| 0x2000 <= u <= 0x200A
    ||| u == 0x2028
    ||| u == 0x2029
    ||| u == 0x202F
    ||| u == 0x205F
    ||| u == 0x3000
}

/// Calls `char::is_whitespace`, which tests the `White_Space` property
/// ([`white_space`]).
#[verifier::external_body]
pub(crate) fn char_is_whitespace(c: char) -> (r: bool)
    ensures
        r == white_space(c),
{
    c.is_whitespace()
}

/// The characters of `s` without its trailing `White_Space` characters.
pub open spec fn trim_end_chars(s: Seq<char>) -> Seq<char>
    decreases s.len(),
{
    if s.len() > 0 && white_space(s.last()) {
        trim_end_chars(s.drop_last())
    } else {
        s
    }
}

/// The characters of `s` without its leading `White_Space` characters.
pub open spec fn trim_start_chars(s: Seq<char>) -> Seq<char>
    decreases s.len(),
{
    if s.len() > 0 && white_space(s[0]) {
        trim_start_chars(s.drop_first())
    } else {
        s
    }
}

/// The characters of `s` with every leading and trailing `c` removed.
pub open spec fn trim_both_chars(s: Seq<char>, c: char) -> Seq<char>
    decreases s.len(),
{
    if s.len() > 0 && s[0] == c {
        trim_both_chars(s.drop_first(), c)
    } else if s.len() > 0 && s.last() == c {
        trim_both_chars(s.drop_last(), c)
    } else {
        s
    }
}

/// The text of well-formed UTF-8 bytes encodes back to those bytes.
pub proof fn lemma_text_bytes(bytes: Seq<u8>)
    ensures
        text_of(bytes) matches Some(t) ==> encode_utf8(t) == bytes,
{
    if valid_utf8(bytes) {
        decode_utf8_encode_utf8(bytes);
    }
}

/// Trimming the end keeps a prefix that ends in no whitespace, and trimming
/// again changes nothing.
pub proof fn lemma_trim_end(s: Seq<char>)
    ensures
        trim_end_chars(s).len() <= s.len(),
        trim_end_chars(s) == s.take(trim_end_chars(s).len() as int),
        trim_end_chars(s).len() > 0 ==> !white_space(trim_end_chars(s).last()),
        forall|i: int|
            trim_end_chars(s).len() <= i < s.len() ==> white_space(#[trigger] s[i]),
        trim_end_chars(trim_end_chars(s)) == trim_end_chars(s),
    decreases s.len(),
{
    if s.len() > 0 && white_space(s.last()) {
        lemma_trim_end(s.drop_last());
        let t = trim_end_chars(s);
        assert(s.drop_last().take(t.len() as int) =~= s.take(t.len() as int));
        assert forall|i: int| t.len() <= i < s.len() implies white_space(#[trigger] s[i]) by {
            if i < s.len() - 1 {
                assert(s[i] == s.drop_last()[i]);
            }
        }
    } else {
        assert(s.take(s.len() as int) =~= s);
    }
}

/// Trimming the start keeps a suffix that starts with no whitespace, and
/// trimming again changes nothing.
pub proof fn lemma_trim_start(s: Seq<char>)
    ensures
        trim_start_chars(s).len() <= s.len(),
        trim_start_chars(s) == s.skip(s.len() - trim_start_chars(s).len()),
        trim_start_chars(s).len() > 0 ==> !white_space(trim_start_chars(s)[0]),
        forall|i: int|
            0 <= i < s.len() - trim_start_chars(s).len() ==> white_space(#[trigger] s[i]),
        trim_start_chars(trim_start_chars(s)) == trim_start_chars(s),
    decreases s.len(),
{
    if s.len() > 0 && white_space(s[0]) {
        lemma_trim_start(s.drop_first());
        let t = trim_start_chars(s);
        assert(s.drop_first().skip(s.len() - 1 - t.len()) =~= s.skip(s.len() - t.len()));
        assert forall|i: int| 0 <= i < s.len() - t.len() implies white_space(#[trigger] s[i]) by {
            if i > 0 {
                assert(s[i] == s.drop_first()[i - 1]);
            }
        }
    } else {
        assert(s.skip(0) =~= s);
    }
}

/// The value of a decimal digit character.
pub open spec fn digit_value(c: char) -> int {
    c as int - '0' as int
}

/// The number that decimal digits spell.
pub open spec fn digits_value(s: Seq<char>) -> int
    decreases s.len(),
{
    if s.len() == 0 {
        0
    } else {
        10 * digits_value(s.drop_last()) + digit_value(s.last())
    }
}

/// Whether a character is an ASCII decimal digit.
pub open spec fn is_digit(c: char) -> bool {
    '0' <= c <= '9'
}

/// The integer a text spells in the form that std's integer parsing reads:
/// an optional `+` (or, for signed types, `-`) followed by one or more ASCII
/// digits.
pub open spec fn int_text_value(s: Seq<char>, signed: bool) -> Option<int> {
    let (negative, digits) = if s.len() > 0 && s[0] == '+' {
        (false, s.drop_first())
    } else if signed && s.len() > 0 && s[0] == '-' {
        (true, s.drop_first())
    } else {
        (false, s)
    };
    if digits.len() > 0 && forall|i: int| 0 <= i < digits.len() ==> is_digit(#[trigger] digits[i]) {
        Some(
            if negative {
                -digits_value(digits)
            } else {
                digits_value(digits)
            },
        )
    } else {
        None
    }
}

/// Calls `i8::from_str`, which reads an optional sign and decimal digits and
/// fails when the text is anything else or the number is out of range.
#[verifier::external_body]
pub(crate) fn parse_i8(s: &str) -> (r: Result<i8, core::num::ParseIntError>)
    ensures
        match r {
            Ok(v) => int_text_value(s@, true) == Some(v as int),
            Err(_) => !(int_text_value(s@, true) matches Some(v) && i8::MIN <= v <= i8::MAX),
        },
{
    s.parse::<i8>()
}

/// Calls `i16::from_str`, which reads an optional sign and decimal digits and
/// fails when the text is anything else or the number is out of range.
#[verifier::external_body]
pub(crate) fn parse_i16(s: &str) -> (r: Result<i16, core::num::ParseIntError>)
    ensures
        match r {
            Ok(v) => int_text_value(s@, true) == Some(v as int),
            Err(_) => !(int_text_value(s@, true) matches Some(v) && i16::MIN <= v <= i16::MAX),
        },
{
    s.parse::<i16>()
}

/// Calls `i32::from_str`, which reads an optional sign and decimal digits and
/// fails when the text is anything else or the number is out of range.
#[verifier::external_body]
pub(crate) fn parse_i32(s: &str) -> (r: Result<i32, core::num::ParseIntError>)
    ensures
        match r {
            Ok(v) => int_text_value(s@, true) == Some(v as int),
            Err(_) => !(int_text_value(s@, true) matches Some(v) && i32::MIN <= v <= i32::MAX),
        },
{
    s.parse::<i32>()
}

/// Calls `i64::from_str`, which reads an optional sign and decimal digits and
/// fails when the text is anything else or the number is out of range.
#[verifier::external_body]
pub(crate) fn parse_i64(s: &str) -> (r: Result<i64, core::num::ParseIntError>)
    ensures
        match r {
            Ok(v) => int_text_value(s@, true) == Some(v as int),
            Err(_) => !(int_text_value(s@, true) matches Some(v) && i64::MIN <= v <= i64::MAX),
        },
{
    s.parse::<i64>()
}

/// Calls `u8::from_str`, which reads an optional sign and decimal digits and
/// fails when the text is anything else or the number is out of range.
#[verifier::external_body]
pub(crate) fn parse_u8(s: &str) -> (r: Result<u8, core::num::ParseIntError>)
    ensures
        match r {
            Ok(v) => int_text_value(s@, false) == Some(v as int),
            Err(_) => !(int_text_value(s@, false) matches Some(v) && u8::MIN <= v <= u8::MAX),
        },
{
    s.parse::<u8>()
}

/// Calls `u16::from_str`, which reads an optional sign and decimal digits and
/// fails when the text is anything else or the number is out of range.
#[verifier::external_body]
pub(crate) fn parse_u16(s: &str) -> (r: Result<u16, core::num::ParseIntError>)
    ensures
        match r {
            Ok(v) => int_text_value(s@, false) == Some(v as int),
            Err(_) => !(int_text_value(s@, false) matches Some(v) && u16::MIN <= v <= u16::MAX),
        },
{
    s.parse::<u16>()
}

/// Calls `u32::from_str`, which reads an optional sign and decimal digits and
/// fails when the text is anything else or the number is out of range.
#[verifier::external_body]
pub(crate) fn parse_u32(s: &str) -> (r: Result<u32, core::num::ParseIntError>)
    ensures
        match r {
            Ok(v) => int_text_value(s@, false) == Some(v as int),
            Err(_) => !(int_text_value(s@, false) matches Some(v) && u32::MIN <= v <= u32::MAX),
        },
{
    s.parse::<u32>()
}

/// Calls `u64::from_str`, which reads an optional sign and decimal digits and
/// fails when the text is anything else or the number is out of range.
#[verifier::external_body]
pub(crate) fn parse_u64(s: &str) -> (r: Result<u64, core::num::ParseIntError>)
    ensures
        match r {
            Ok(v) => int_text_value(s@, false) == Some(v as int),
            Err(_) => !(int_text_value(s@, false) matches Some(v) && u64::MIN <= v <= u64::MAX),
        },
{
    s.parse::<u64>()
}

/// Calls `core::str::from_utf8`: the bytes are accepted exactly when they are
/// well-formed UTF-8, and the text is then their decoding ([`text_of`]).
#[verifier::external_body]
pub(crate) fn utf8_str(bytes: &[u8]) -> (r: Result<&str, core::str::Utf8Error>)
    ensures
        match r {
            Ok(s) => text_of(bytes@) == Some(s@),
            Err(_) => text_of(bytes@) is None,
        },
{
    core::str::from_utf8(bytes)
}

/// Calls `str::trim_end`, which removes the trailing characters that have the
/// `White_Space` property.
#[verifier::external_body]
pub(crate) fn str_trim_end(s: &str) -> (r: &str)
    ensures
        r@ == trim_end_chars(s@),
{
    s.trim_end()
}

/// Calls `str::trim_start`, which removes the leading characters that have the
/// `White_Space` property.
#[verifier::external_body]
pub(crate) fn str_trim_start(s: &str) -> (r: &str)
    ensures
        r@ == trim_start_chars(s@),
{
    s.trim_start()
}

/// Calls `str::trim_matches` with a single character as the pattern, which
/// removes every leading and trailing occurrence of that character; the result
/// is a slice of `s`, so it is no longer in bytes.
#[verifier::external_body]
pub(crate) fn str_trim_char(s: &str, c: char) -> (r: &str)
    ensures
        r@ == trim_both_chars(s@, c),
        r.spec_bytes().len() <= s.spec_bytes().len(),
{
    s.trim_matches(c)
}


} // verus!
