//! Calendar dates, month arithmetic with end-of-month clamping, and the
//! canonical `YYYY-MM-DD` textual form used both in requests and in the
//! store's string-typed attributes.
use vstd::prelude::*;

use crate::text::{char_to_digit, dash_str, digit_char, digit_str, digit_value, is_digit_char, lemma_digit_id};

verus! {

/// A calendar date with no time component. Years are restricted to the
/// range representable by the canonical four-digit textual form.
#[derive(Clone, Copy, PartialEq, Eq, Structural, Debug)]
pub struct Date {
    pub year: u32,
    pub month: u32,
    pub day: u32,
}

/// A date string did not have the canonical shape, or named a day that
/// does not exist in the calendar.
#[derive(Clone, Copy, PartialEq, Eq, Structural, Debug)]
pub struct DateFormatError;

/// Whether a year is a leap year in the Gregorian calendar.
pub open spec fn is_leap_year(y: int) -> bool {
    y % 4 == 0 && (y % 100 != 0 || y % 400 == 0)
}

/// Number of days in a month of a given year.
pub open spec fn days_in_month(y: int, m: int) -> int {
    if m == 2 {
        if is_leap_year(y) {
            29
        } else {
            28
        }
    } else if m == 4 || m == 6 || m == 9 || m == 11 {
        30
    } else {
        31
    }
}

/// A date is valid when its month and day exist in the calendar and its
/// year fits the canonical four-digit form.
pub open spec fn date_valid(d: Date) -> bool {
    d.year <= 9999 && 1 <= d.month <= 12 && 1 <= d.day <= days_in_month(
        d.year as int,
        d.month as int,
    )
}

pub fn leap_year(y: u32) -> (r: bool)
    ensures
        r == is_leap_year(y as int),
{
    y % 4 == 0 && (y % 100 != 0 || y % 400 == 0)
}

pub fn month_days(year: u32, month: u32) -> (r: u32)
    requires
        1 <= month <= 12,
    ensures
        r == days_in_month(year as int, month as int),
{
    if month == 2 {
        if leap_year(year) {
            29
        } else {
            28
        }
    } else if month == 4 || month == 6 || month == 9 || month == 11 {
        30
    } else {
        31
    }
}

/// The date `n` months after `d`: the day of month is kept where it
/// exists in the target month and clamped to that month's last day
/// otherwise.
pub open spec fn add_months_spec(d: Date, n: int) -> Date {
    let total = d.year as int * 12 + (d.month as int - 1) + n;
    let y = total / 12;
    let m = total % 12 + 1;
    let dd = if d.day as int <= days_in_month(y, m) {
        d.day as int
    } else {
        days_in_month(y, m)
    };
    Date { year: y as u32, month: m as u32, day: dd as u32 }
}

pub fn add_months(d: &Date, n: u32) -> (r: Date)
    requires
        date_valid(*d),
        d.year as int * 12 + (d.month as int - 1) + n as int <= 9999 * 12 + 11,
    ensures
        r == add_months_spec(*d, n as int),
        date_valid(r),
{
    let total: u32 = d.year * 12 + (d.month - 1) + n;
    let y: u32 = total / 12;
    let m: u32 = total % 12 + 1;
    let dm = month_days(y, m);
    let dd: u32 = if d.day <= dm {
        d.day
    } else {
        dm
    };
    Date { year: y, month: m, day: dd }
}

/// Strict ordering on dates: year, then month, then day.
pub open spec fn date_before(a: Date, b: Date) -> bool {
    a.year < b.year || (a.year == b.year && (a.month < b.month || (a.month == b.month && a.day
        < b.day)))
}

impl Date {
    /// Whether `self` falls strictly earlier than `other`.
    pub fn before(&self, other: &Date) -> (r: bool)
        ensures
            r == date_before(*self, *other),
    {
        self.year < other.year || (self.year == other.year && (self.month < other.month || (
        self.month == other.month && self.day < other.day)))
    }
}

/// The canonical ten-character `YYYY-MM-DD` rendering of a date.
pub open spec fn date_chars(d: Date) -> Seq<char> {
    seq![
        digit_char(d.year as int / 1000),
        digit_char((d.year as int / 100) % 10),
        digit_char((d.year as int / 10) % 10),
        digit_char(d.year as int % 10),
        '-',
        digit_char(d.month as int / 10),
        digit_char(d.month as int % 10),
        '-',
        digit_char(d.day as int / 10),
        digit_char(d.day as int % 10),
    ]
}

/// What parsing a date string yields: `Some` exactly on strings of the
/// canonical shape that name a valid calendar date.
pub open spec fn parse_date_chars(s: Seq<char>) -> Option<Date> {
    if s.len() == 10 && is_digit_char(s[0]) && is_digit_char(s[1]) && is_digit_char(s[2])
        && is_digit_char(s[3]) && s[4] == '-' && is_digit_char(s[5]) && is_digit_char(s[6]) && s[7]
        == '-' && is_digit_char(s[8]) && is_digit_char(s[9]) {
        let y = digit_value(s[0]) * 1000 + digit_value(s[1]) * 100 + digit_value(s[2]) * 10
            + digit_value(s[3]);
        let m = digit_value(s[5]) * 10 + digit_value(s[6]);
        let dd = digit_value(s[8]) * 10 + digit_value(s[9]);
        let d = Date { year: y as u32, month: m as u32, day: dd as u32 };
        if date_valid(d) {
            Some(d)
        } else {
            None
        }
    } else {
        None
    }
}

/// Parses the canonical `YYYY-MM-DD` form; any other shape, and any
/// out-of-range calendar value, is a `DateFormatError`.
pub fn parse_date(s: &str) -> (r: Result<Date, DateFormatError>)
    ensures
        match r {
            Ok(d) => parse_date_chars(s@) == Some(d) && date_valid(d),
            Err(_) => parse_date_chars(s@) is None,
        },
{
    let n = s.unicode_len();
    if n != 10 {
        return Err(DateFormatError);
    }
    if s.get_char(4) != '-' || s.get_char(7) != '-' {
        return Err(DateFormatError);
    }
    let d0 = char_to_digit(s.get_char(0));
    let d1 = char_to_digit(s.get_char(1));
    let d2 = char_to_digit(s.get_char(2));
    let d3 = char_to_digit(s.get_char(3));
    let d5 = char_to_digit(s.get_char(5));
    let d6 = char_to_digit(s.get_char(6));
    let d8 = char_to_digit(s.get_char(8));
    let d9 = char_to_digit(s.get_char(9));
    match (d0, d1, d2, d3, d5, d6, d8, d9) {
        (
            Some(y0),
            Some(y1),
            Some(y2),
            Some(y3),
            Some(m0),
            Some(m1),
            Some(a0),
            Some(a1),
        ) => {
            let year: u32 = y0 * 1000 + y1 * 100 + y2 * 10 + y3;
            let month: u32 = m0 * 10 + m1;
            let day: u32 = a0 * 10 + a1;
            if 1 <= month && month <= 12 && 1 <= day && day <= month_days(year, month) {
                Ok(Date { year, month, day })
            } else {
                Err(DateFormatError)
            }
        },
        _ => Err(DateFormatError),
    }
}

/// Renders a valid date in its canonical `YYYY-MM-DD` form.
pub fn format_date(d: &Date) -> (r: String)
    requires
        date_valid(*d),
    ensures
        r@ == date_chars(*d),
{
    let mut s = String::new();
    s.append(digit_str(d.year / 1000));
    s.append(digit_str((d.year / 100) % 10));
    s.append(digit_str((d.year / 10) % 10));
    s.append(digit_str(d.year % 10));
    s.append(dash_str());
    s.append(digit_str(d.month / 10));
    s.append(digit_str(d.month % 10));
    s.append(dash_str());
    s.append(digit_str(d.day / 10));
    s.append(digit_str(d.day % 10));
    proof {
        assert(s@ =~= date_chars(*d));
    }
    s
}

/// Formatting a valid date and parsing the result gives the date back.
pub proof fn lemma_date_roundtrip(d: Date)
    requires
        date_valid(d),
    ensures
        parse_date_chars(date_chars(d)) == Some(d),
{
    let s = date_chars(d);
    let y = d.year as int;
    let m = d.month as int;
    let dd = d.day as int;
    lemma_digit_id(y / 1000);
    lemma_digit_id((y / 100) % 10);
    lemma_digit_id((y / 10) % 10);
    lemma_digit_id(y % 10);
    lemma_digit_id(m / 10);
    lemma_digit_id(m % 10);
    lemma_digit_id(dd / 10);
    lemma_digit_id(dd % 10);
    assert(digit_value(s[0]) == y / 1000 && digit_value(s[1]) == (y / 100) % 10 && digit_value(
        s[2],
    ) == (y / 10) % 10 && digit_value(s[3]) == y % 10);
    assert(digit_value(s[5]) == m / 10 && digit_value(s[6]) == m % 10);
    assert(digit_value(s[8]) == dd / 10 && digit_value(s[9]) == dd % 10);
    lemma_four_digit_decompose(y);
    assert(digit_value(s[0]) * 1000 + digit_value(s[1]) * 100 + digit_value(s[2]) * 10
        + digit_value(s[3]) == y);
    assert(digit_value(s[5]) * 10 + digit_value(s[6]) == m);
    assert(digit_value(s[8]) * 10 + digit_value(s[9]) == dd);
}

proof fn lemma_four_digit_decompose(y: int)
    requires
        0 <= y <= 9999,
    ensures
        y == (y / 1000) * 1000 + ((y / 100) % 10) * 100 + ((y / 10) % 10) * 10 + y % 10,
{
    assert(y == (y / 10) * 10 + y % 10);
    assert(y / 10 == ((y / 10) / 10) * 10 + (y / 10) % 10);
    assert((y / 10) / 10 == y / 100) by (nonlinear_arith)
        requires
            0 <= y,
    ;
    assert(y / 100 == ((y / 100) / 10) * 10 + (y / 100) % 10);
    assert((y / 100) / 10 == y / 1000) by (nonlinear_arith)
        requires
            0 <= y,
    ;
    assert(y / 1000 % 10 == y / 1000);
}

} // verus!
