//! Calendar dates held as plain year, month and day, with the leap-year
//! rules of the proleptic Gregorian calendar.

use vstd::prelude::*;
use chrono::Datelike;
use crate::strutil::{spec_dec, spec_dec_pad, push_dec_u32, push_dec_pad_u32};

verus! {

/// A calendar date. A value is meaningful only when `valid()` holds.
#[derive(Clone, Copy, Debug, PartialEq, Eq, Structural)]
pub struct Date {
    pub year: i32,
    pub month: u32,
    pub day: u32,
}

/// Whether the year is a leap year. Divisibility is unaffected by sign,
/// so the rule is stated on the magnitude of the year.
pub open spec fn spec_is_leap_year(y: int) -> bool {
    let a = if y >= 0 { y } else { -y };
    a % 4 == 0 && (a % 100 != 0 || a % 400 == 0)
}

/// The last day of a month, ignoring leap years (February maps to 28).
pub open spec fn spec_last_day_raw(m: int) -> int {
    if m == 2 {
        28
    } else if m == 4 || m == 6 || m == 9 || m == 11 {
        30
    } else {
        31
    }
}

/// The true last day of a month in a given year.
pub open spec fn spec_last_day(y: int, m: int) -> int {
    if m == 2 && spec_is_leap_year(y) {
        29
    } else {
        spec_last_day_raw(m)
    }
}

impl Date {
    /// The date denotes a real calendar day. Years are kept within the
    /// range that the calendar library guarantees for parsed dates.
    pub open spec fn valid(self) -> bool {
        -400_000 <= self.year <= 400_000
        && 1 <= self.month <= 12
        && 1 <= self.day <= spec_last_day(self.year as int, self.month as int)
    }

    /// Lexicographic order on (year, month, day).
    pub open spec fn spec_le(self, other: Date) -> bool {
        self.year < other.year
        || (self.year == other.year
            && (self.month < other.month
                || (self.month == other.month && self.day <= other.day)))
    }

    pub open spec fn spec_lt(self, other: Date) -> bool {
        self.spec_le(other) && self != other
    }

    pub fn new(year: i32, month: u32, day: u32) -> (r: Date)
        ensures
            r.year == year && r.month == month && r.day == day,
    {
        Date { year, month, day }
    }
}

/// Whether `y` is a leap year.
pub fn is_leap_year(y: i32) -> (r: bool)
    requires
        -400_000 <= y <= 400_000,
    ensures
        r == spec_is_leap_year(y as int),
{
    let a: u32 = if y >= 0 { y as u32 } else { (-y) as u32 };
    a % 4 == 0 && (a % 100 != 0 || a % 400 == 0)
}

/// The last day of the month, based only on the month number.
pub fn last_date_in_month_raw(month: u32) -> (r: u32)
    ensures
        r == spec_last_day_raw(month as int),
{
    match month {
        2 => 28,
        4 => 30,
        6 => 30,
        9 => 30,
        11 => 30,
        _ => 31,
    }
}

/// The last day of the month of the given date, accounting for leap years.
pub fn last_date_in_month(date: &Date) -> (r: u32)
    requires
        -400_000 <= date.year <= 400_000,
    ensures
        r == spec_last_day(date.year as int, date.month as int),
{
    if date.month == 2 && is_leap_year(date.year) {
        29
    } else {
        last_date_in_month_raw(date.month)
    }
}

/// `a <= b` in calendar order.
pub fn date_le(a: &Date, b: &Date) -> (r: bool)
    ensures
        r == a.spec_le(*b),
{
    a.year < b.year
    || (a.year == b.year
        && (a.month < b.month || (a.month == b.month && a.day <= b.day)))
}

/// `a < b` in calendar order.
pub fn date_lt(a: &Date, b: &Date) -> (r: bool)
    ensures
        r == a.spec_lt(*b),
{
    a.year < b.year
    || (a.year == b.year
        && (a.month < b.month || (a.month == b.month && a.day < b.day)))
}

/// What the calendar library reads out of a date text under a format
/// string: the year, month and day, or nothing when the text does not
/// match the format or names no real date.
pub uninterp spec fn spec_chrono_date(s: Seq<char>, fmt: Seq<char>) -> Option<(int, int, int)>;

/// Relies on `chrono::NaiveDate::parse_from_str`: the result is a
/// function of the text and the format alone, and a parsed date is a
/// real proleptic Gregorian calendar day whose year the library keeps
/// within a few hundred thousand of zero.
#[verifier::external_body]
pub fn parse_date(s: &str, fmt: &str) -> (r: Option<Date>)
    ensures
        r.is_some() == spec_chrono_date(s@, fmt@).is_some(),
        r.is_some() ==> spec_chrono_date(s@, fmt@)
            == Some((r.unwrap().year as int, r.unwrap().month as int, r.unwrap().day as int)),
        r.is_some() ==> r.unwrap().valid(),
{
    match chrono::NaiveDate::parse_from_str(s, fmt) {
        Ok(d) => Some(Date { year: d.year(), month: d.month(), day: d.day() }),
        Err(_) => None,
    }
}

/// The year rendered with at least four digits, zero-padded, with a
/// leading minus for negative years.
pub open spec fn spec_year_text(y: int) -> Seq<char> {
    let a = if y >= 0 { y } else { -y };
    let digits = if a < 10000 { spec_dec_pad(a as nat, 4) } else { spec_dec(a as nat) };
    if y >= 0 { digits } else { seq!['-'] + digits }
}

/// The date rendered as `YYYY-MM-DD`.
pub open spec fn spec_date_text(d: Date) -> Seq<char> {
    spec_year_text(d.year as int) + seq!['-'] + spec_dec_pad(d.month as nat, 2)
        + seq!['-'] + spec_dec_pad(d.day as nat, 2)
}

/// Render the date as `YYYY-MM-DD`.
pub fn format_date(d: &Date) -> (r: String)
    requires
        -400_000 <= d.year <= 400_000,
    ensures
        r@ == spec_date_text(*d),
{
    let mut out = String::new();
    let a: u32 = if d.year >= 0 { d.year as u32 } else { (-d.year) as u32 };
    if d.year < 0 {
        proof {
            reveal_strlit("-");
        }
        out.append("-");
        proof {
            assert(out@ =~= seq!['-']);
        }
    }
    if a < 10000 {
        push_dec_pad_u32(&mut out, a, 4);
    } else {
        push_dec_u32(&mut out, a);
    }
    proof {
        reveal_strlit("-");
        assert(out@ =~= spec_year_text(d.year as int));
    }
    out.append("-");
    push_dec_pad_u32(&mut out, d.month, 2);
    out.append("-");
    push_dec_pad_u32(&mut out, d.day, 2);
    proof {
        assert(out@ =~= spec_date_text(*d));
    }
    out
}

} // verus!
