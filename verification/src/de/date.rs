//! Calendar dates of date cells, and their ISO 8601 text.

use crate::text::{digit_value, digits_value, int_text_value, is_digit};
use chrono::Datelike;
use vstd::prelude::*;

verus! {

/// A calendar date as read from a date cell.
#[derive(Clone, Copy, Debug, PartialEq, Eq, Structural)]
pub struct Date {
    pub year: i32,
    pub month: u32,
    pub day: u32,
}

/// The year, month and day that chrono's `NaiveDate::parse_from_str` reads
/// from `text` under the pattern `fmt`, or `None` where it reports an error.
pub uninterp spec fn chrono_date(text: Seq<char>, fmt: Seq<char>) -> Option<(i32, u32, u32)>;

/// Calls `chrono::NaiveDate::parse_from_str` and takes the year, month and day
/// of the date it returns. The result is named [`chrono_date`]; chrono's
/// documentation bounds a month to 1..=12 and a day of the month to 1..=31,
/// and `from_ymd_opt` accepts the year, month and day of any date chrono
/// holds.
#[verifier::external_body]
pub(crate) fn parse_date(text: &str, fmt: &str) -> (r: Result<Date, chrono::ParseError>)
    ensures
        match r {
            Ok(d) => {
                &&& chrono_date(text@, fmt@) == Some((d.year, d.month, d.day))
                &&& 1 <= d.month <= 12
                &&& 1 <= d.day <= 31
                &&& chrono_valid_date(d.year, d.month, d.day)
            },
            Err(_) => chrono_date(text@, fmt@) is None,
        },
{
    match chrono::NaiveDate::parse_from_str(text, fmt) {
        Ok(d) => Ok(Date { year: d.year(), month: d.month(), day: d.day() }),
        Err(e) => Err(e),
    }
}

/// The character of a decimal digit.
pub open spec fn digit_char(d: int) -> char {
    if d == 0 {
        '0'
    } else if d == 1 {
        '1'
    } else if d == 2 {
        '2'
    } else if d == 3 {
        '3'
    } else if d == 4 {
        '4'
    } else if d == 5 {
        '5'
    } else if d == 6 {
        '6'
    } else if d == 7 {
        '7'
    } else if d == 8 {
        '8'
    } else {
        '9'
    }
}

/// The decimal digits of `n`, without leading zeros (`0` is one digit).
pub open spec fn decimal(n: nat) -> Seq<char>
    decreases n,
{
    if n < 10 {
        seq![digit_char(n as int)]
    } else {
        decimal(n / 10).push(digit_char((n % 10) as int))
    }
}

/// `s` with zeros in front, up to `width` characters.
pub open spec fn zero_pad(s: Seq<char>, width: nat) -> Seq<char> {
    if s.len() >= width {
        s
    } else {
        Seq::new((width - s.len()) as nat, |_i: int| '0') + s
    }
}

/// The year as chrono prints it: four digits for years 0 to 9999, otherwise a
/// sign and at least four digits.
pub open spec fn year_text(y: int) -> Seq<char> {
    if 0 <= y <= 9999 {
        zero_pad(decimal(y as nat), 4)
    } else if y < 0 {
        seq!['-'] + zero_pad(decimal((-y) as nat), 4)
    } else {
        seq!['+'] + zero_pad(decimal(y as nat), 4)
    }
}

/// The text `YYYY-MM-DD` that chrono's `Display` gives a date.
pub open spec fn date_text(d: Date) -> Seq<char> {
    year_text(d.year as int) + seq!['-'] + zero_pad(decimal(d.month as nat), 2) + seq!['-']
        + zero_pad(decimal(d.day as nat), 2)
}

/// Printing a number in decimal and reading the digits back gives the
/// number; the digits are all between `0` and `9`, and the first is `0` only
/// for zero itself.
pub proof fn lemma_decimal_round_trip(n: nat)
    ensures
        digits_value(decimal(n)) == n,
        decimal(n).len() >= 1,
        forall|i: int| 0 <= i < decimal(n).len() ==> '0' <= #[trigger] decimal(n)[i] <= '9',
        decimal(n)[0] == '0' ==> n == 0,
    decreases n,
{
    assert(digit_value(digit_char((n % 10) as int)) == n % 10);
    if n < 10 {
        assert(decimal(n).drop_last() =~= Seq::<char>::empty());
        assert(decimal(n).last() == digit_char(n as int));
        assert(n % 10 == n);
        assert(digits_value(decimal(n)) == 10 * digits_value(Seq::<char>::empty()) + digit_value(
            digit_char(n as int),
        ));
    } else {
        lemma_decimal_round_trip(n / 10);
        assert(decimal(n).drop_last() =~= decimal(n / 10));
        assert(n == 10 * (n / 10) + n % 10) by (nonlinear_arith);
        assert(decimal(n).last() == digit_char((n % 10) as int));
        assert forall|i: int| 0 <= i < decimal(n).len() implies '0' <= #[trigger] decimal(n)[i]
            <= '9' by {
            if i < decimal(n).len() - 1 {
                assert(decimal(n)[i] == decimal(n / 10)[i]);
            }
        }
    }
}

/// A number printed in decimal reads back as that number under std's
/// integer syntax, signed or not.
pub proof fn lemma_decimal_reads_back(n: nat, signed: bool)
    ensures
        int_text_value(decimal(n), signed) == Some(n as int),
{
    lemma_decimal_round_trip(n);
    assert(decimal(n)[0] != '+' && decimal(n)[0] != '-');
    assert(forall|i: int| 0 <= i < decimal(n).len() ==> is_digit(#[trigger] decimal(n)[i]));
}

/// For the years 0 to 9999 and any month and day below 100, the date reads
/// `YYYY-MM-DD`: ten characters with dashes at positions 4 and 7.
pub proof fn lemma_date_text_shape(d: Date)
    requires
        0 <= d.year <= 9999,
        d.month < 100,
        d.day < 100,
    ensures
        date_text(d).len() == 10,
        date_text(d)[4] == '-',
        date_text(d)[7] == '-',
{
    lemma_decimal_len(d.year as nat, 4);
    lemma_decimal_len(d.month as nat, 2);
    lemma_decimal_len(d.day as nat, 2);
}

/// A number below `10^k` has at most `k` decimal digits.
proof fn lemma_decimal_len(n: nat, k: nat)
    requires
        k == 2 ==> n < 100,
        k == 4 ==> n < 10000,
        k == 2 || k == 4,
    ensures
        decimal(n).len() <= k,
{
    reveal_with_fuel(decimal, 4);
}

/// Whether `chrono::NaiveDate::from_ymd_opt` accepts a year, month and day,
/// that is, whether they form a date chrono can hold.
pub uninterp spec fn chrono_valid_date(year: i32, month: u32, day: u32) -> bool;

/// Builds the date with `chrono::NaiveDate::from_ymd_opt` and prints it with
/// its `Display`. It builds one exactly for the dates [`chrono_valid_date`]
/// accepts; chrono prints a date as `%Y-%m-%d`, which [`date_text`] states.
#[verifier::external_body]
fn chrono_date_text(d: &Date) -> (r: Option<String>)
    ensures
        r is Some <==> chrono_valid_date(d.year, d.month, d.day),
        r matches Some(s) ==> s@ == date_text(*d),
{
    match chrono::NaiveDate::from_ymd_opt(d.year, d.month, d.day) {
        Some(date) => Some(date.to_string()),
        None => None,
    }
}

impl Date {
    /// The date in the form `YYYY-MM-DD`, as chrono displays it.
    pub fn to_string(&self) -> (r: String)
        requires
            chrono_valid_date(self.year, self.month, self.day),
        ensures
            r@ == date_text(*self),
    {
        match chrono_date_text(self) {
            Some(text) => text,
            None => {
                // Unreachable: chrono holds every date it accepts.
                proof {
                    assert(false);
                }
                String::new()
            },
        }
    }
}

} // verus!
