//! The date-range filter: day-of-month and day-of-year windows with
//! wraparound semantics, their validation, and the laws they obey.

use vstd::prelude::*;
use crate::dates::{Date, spec_last_day, spec_last_day_raw, last_date_in_month, last_date_in_month_raw};
use crate::row::StringMap;
use crate::strutil::{
    spec_parse_u32, parse_u32, spec_quoted, spec_dec, push_quoted, push_dec_u32,
};

verus! {

/// Optional lower and upper day-of-month bounds.
pub type MonthFilters = (Option<u32>, Option<u32>);

/// Optional lower and upper (month, day)-of-year bounds.
pub type YearFilters = (Option<(u32, u32)>, Option<(u32, u32)>);

/// Lexicographic order on (month, day) pairs.
pub open spec fn spec_md_le(a: (u32, u32), b: (u32, u32)) -> bool {
    a.0 < b.0 || (a.0 == b.0 && a.1 <= b.1)
}

/// The smaller of two values.
pub open spec fn spec_min(a: int, b: int) -> int {
    if a < b { a } else { b }
}

/// Whether the date falls outside the day-of-month window. Bounds are
/// clamped to the true last day of the date's month; when the upper
/// bound is below the lower one the window wraps around month end, and
/// only days strictly between them are outside.
pub open spec fn spec_outside_month(d: Date, filters: MonthFilters) -> bool {
    let last = spec_last_day(d.year as int, d.month as int);
    match filters {
        (Some(low0), Some(high0)) => {
            let low = spec_min(low0 as int, last);
            let high = spec_min(high0 as int, last);
            if high < low {
                !(d.day <= high || d.day >= low)
            } else {
                !(low <= d.day && d.day <= high)
            }
        }
        (Some(low0), None) => (d.day as int) < spec_min(low0 as int, last),
        (None, Some(high0)) => (d.day as int) > spec_min(high0 as int, last),
        (None, None) => false,
    }
}

/// Whether the date falls outside the (month, day)-of-year window, with
/// the same wraparound rule for a window crossing the turn of the year.
pub open spec fn spec_outside_year(d: Date, filters: YearFilters) -> bool {
    let md = (d.month, d.day);
    match filters {
        (Some(low), Some(high)) => {
            if spec_md_le(high, low) && high != low {
                !(spec_md_le(md, high) || spec_md_le(low, md))
            } else {
                !(spec_md_le(low, md) && spec_md_le(md, high))
            }
        }
        (Some(low), None) => !spec_md_le(low, md),
        (None, Some(high)) => !spec_md_le(md, high),
        (None, None) => false,
    }
}

/// Whether the date fails either window.
pub open spec fn spec_outside_range(d: Date, month: MonthFilters, year: YearFilters) -> bool {
    spec_outside_month(d, month) || spec_outside_year(d, year)
}

fn min_u32(a: u32, b: u32) -> (r: u32)
    ensures
        r as int == spec_min(a as int, b as int),
{
    if a < b { a } else { b }
}

fn md_le(a: (u32, u32), b: (u32, u32)) -> (r: bool)
    ensures
        r == spec_md_le(a, b),
{
    a.0 < b.0 || (a.0 == b.0 && a.1 <= b.1)
}

fn date_is_outside_range_in_month(date: &Date, month_filters: MonthFilters) -> (r: bool)
    requires
        date.valid(),
    ensures
        r == spec_outside_month(*date, month_filters),
{
    let date_in_month = date.day;
    let last_month_date = last_date_in_month(date);
    match month_filters {
        (Some(low), Some(high)) => {
            let low = min_u32(low, last_month_date);
            let high = min_u32(high, last_month_date);
            if high < low {
                !(date_in_month <= high || date_in_month >= low)
            } else {
                !(date_in_month >= low && date_in_month <= high)
            }
        }
        (Some(low), None) => date_in_month < min_u32(low, last_month_date),
        (None, Some(high)) => date_in_month > min_u32(high, last_month_date),
        (None, None) => false,
    }
}

fn date_is_outside_range_in_year(date: &Date, year_filters: YearFilters) -> (r: bool)
    ensures
        r == spec_outside_year(*date, year_filters),
{
    let date_in_year = (date.month, date.day);
    match year_filters {
        (Some(low), Some(high)) => {
            if md_le(high, low) && !(high.0 == low.0 && high.1 == low.1) {
                !(md_le(date_in_year, high) || md_le(low, date_in_year))
            } else {
                !(md_le(low, date_in_year) && md_le(date_in_year, high))
            }
        }
        (Some(low), None) => !md_le(low, date_in_year),
        (None, Some(high)) => !md_le(date_in_year, high),
        (None, None) => false,
    }
}

/// Assess if the date is outside the allowed range: it fails either the
/// day-of-month window or the day-of-year window.
pub fn date_is_outside_range(date: &Date, month: MonthFilters, year: YearFilters) -> (r: bool)
    requires
        date.valid(),
    ensures
        r == spec_outside_range(*date, month, year),
{
    date_is_outside_range_in_month(date, month) || date_is_outside_range_in_year(date, year)
}

/// With equal day-of-month bounds that a day of the month can reach,
/// the filter leaves exactly that day inside the window.
pub proof fn lemma_symmetric_month_bounds(d: Date, b: u32)
    requires
        d.valid(),
        1 <= b,
        b <= spec_last_day(d.year as int, d.month as int),
    ensures
        !spec_outside_range(d, (Some(b), Some(b)), (None, None)) <==> d.day == b,
{
}

/// The wraparound window from day 25 to day 6 holds day 29 and day 2 of
/// any month and excludes day 10.
pub proof fn lemma_wraparound_month_bounds(d: Date)
    requires
        d.valid(),
    ensures
        d.day == 29 ==> !spec_outside_range(d, (Some(25), Some(6)), (None, None)),
        d.day == 2 ==> !spec_outside_range(d, (Some(25), Some(6)), (None, None)),
        d.day == 10 ==> spec_outside_range(d, (Some(25), Some(6)), (None, None)),
{
}

/// The first index of `/` in `s`, if any.
pub open spec fn spec_find_slash(s: Seq<char>, from: int) -> Option<int>
    decreases s.len() - from,
{
    if from < 0 || from >= s.len() {
        None
    } else if s[from] == '/' {
        Some(from)
    } else {
        spec_find_slash(s, from + 1)
    }
}

/// What reading `s` as a `month/day` pair yields: the text before the
/// first slash and the text between the first and second slash (or the
/// end), each read as an unsigned integer.
pub open spec fn spec_year_pair(s: Seq<char>) -> Option<(u32, u32)> {
    match spec_find_slash(s, 0) {
        None => None,
        Some(i) => {
            let first = s.subrange(0, i);
            let restend = match spec_find_slash(s, i + 1) {
                None => s.len() as int,
                Some(j) => j,
            };
            let second = s.subrange(i + 1, restend);
            match (spec_parse_u32(first), spec_parse_u32(second)) {
                (Some(m), Some(d)) => Some((m, d)),
                _ => None,
            }
        }
    }
}

fn find_slash(s: &str, from: usize) -> (r: Option<usize>)
    requires
        from <= s@.len(),
    ensures
        match r {
            Some(i) => from <= i < s@.len() && Some(i as int) == spec_find_slash(s@, from as int),
            None => None::<int> == spec_find_slash(s@, from as int),
        },
{
    let len = s.unicode_len();
    let mut i: usize = from;
    while i < len
        invariant
            from <= i <= len,
            len == s@.len(),
            spec_find_slash(s@, from as int) == spec_find_slash(s@, i as int),
        decreases len - i,
    {
        if s.get_char(i) == '/' {
            return Some(i);
        }
        i = i + 1;
    }
    None
}

/// Read `s` as a `month/day` pair.
pub fn parse_year_pair(s: &str) -> (r: Option<(u32, u32)>)
    ensures
        r == spec_year_pair(s@),
{
    let len = s.unicode_len();
    match find_slash(s, 0) {
        None => None,
        Some(i) => {
            let first = s.substring_char(0, i);
            let restend = match find_slash(s, i + 1) {
                None => len,
                Some(j) => j,
            };
            let second = s.substring_char(i + 1, restend);
            match (parse_u32(first), parse_u32(second)) {
                (Some(m), Some(d)) => Some((m, d)),
                _ => None,
            }
        }
    }
}

/// What the date-filter fields of a rule table denote: the two optional
/// day-of-month bounds, read as integers, and the two optional
/// `month/day` year bounds.
pub open spec fn spec_date_filter_mapping(m: Map<Seq<char>, Seq<char>>)
    -> (Option<u32>, Option<u32>, Option<(u32, u32)>, Option<(u32, u32)>) {
    (
        if m.contains_key("min_date_in_month"@) { spec_parse_u32(m["min_date_in_month"@]) } else { None },
        if m.contains_key("max_date_in_month"@) { spec_parse_u32(m["max_date_in_month"@]) } else { None },
        if m.contains_key("min_date_in_year"@) { spec_year_pair(m["min_date_in_year"@]) } else { None },
        if m.contains_key("max_date_in_year"@) { spec_year_pair(m["max_date_in_year"@]) } else { None },
    )
}

/// Parse the date-filter fields of a rule table. A present `month/day`
/// field must be well formed; a present day-of-month field that does not
/// read as an integer is treated as absent.
pub fn process_date_filter_mapping(mapping: &StringMap) -> (r: (
    Option<u32>,
    Option<u32>,
    Option<(u32, u32)>,
    Option<(u32, u32)>,
))
    requires
        mapping.inv(),
        mapping@.contains_key("min_date_in_year"@)
            ==> spec_year_pair(mapping@["min_date_in_year"@]).is_some(),
        mapping@.contains_key("max_date_in_year"@)
            ==> spec_year_pair(mapping@["max_date_in_year"@]).is_some(),
    ensures
        r == spec_date_filter_mapping(mapping@),
{
    let min_date_in_month = match mapping.get("min_date_in_month") {
        Some(v) => parse_u32(v.as_str()),
        None => None,
    };
    let max_date_in_month = match mapping.get("max_date_in_month") {
        Some(v) => parse_u32(v.as_str()),
        None => None,
    };
    let min_date_in_year = match mapping.get("min_date_in_year") {
        Some(v) => {
            let p = parse_year_pair(v.as_str());
            Some(p.unwrap())
        }
        None => None,
    };
    let max_date_in_year = match mapping.get("max_date_in_year") {
        Some(v) => {
            let p = parse_year_pair(v.as_str());
            Some(p.unwrap())
        }
        None => None,
    };
    (min_date_in_month, max_date_in_month, min_date_in_year, max_date_in_year)
}

/// The message that rejects a rule's date filters, if any: each
/// day-of-month bound must lie in [1, 31], each year bound must name a
/// month in [1, 12] and a day in [1, 31] that the named month reaches.
pub open spec fn spec_validate_date_filters_err(
    obj_type: Seq<char>,
    name: Seq<char>,
    month: MonthFilters,
    year: YearFilters,
) -> Option<Seq<char>> {
    let head = "The "@ + obj_type + " "@ + spec_quoted(name) + " "@;
    if month.0.is_some() && !(1 <= month.0.unwrap() <= 31) {
        Some(head + "specifies a MinDateInMonth that is not in [1, 31]."@)
    } else if month.1.is_some() && !(1 <= month.1.unwrap() <= 31) {
        Some(head + "specifies a MaxDateInMonth that is not in [1, 31]."@)
    } else if year.0.is_some() && !(1 <= year.0.unwrap().1 <= 31 && 1 <= year.0.unwrap().0 <= 12) {
        Some(head + "specifies a MinDateInYear where the month is not in [1, 12] or the day is not in [1, 31]."@)
    } else if year.0.is_some()
        && year.0.unwrap().1 > spec_last_day_raw(year.0.unwrap().0 as int) {
        Some(head + "specifies a MinDateInYear where the given date ("@
            + spec_dec(year.0.unwrap().1 as nat)
            + ") is greater than the number of days in that month ("@
            + spec_dec(spec_last_day_raw(year.0.unwrap().0 as int) as nat) + ")"@)
    } else if year.1.is_some() && !(1 <= year.1.unwrap().1 <= 31 && 1 <= year.1.unwrap().0 <= 12) {
        Some(head + "specifies a MaxDateInYear where the month is not in [1, 12] or the day is not in [1, 31]."@)
    } else if year.1.is_some()
        && year.1.unwrap().1 > spec_last_day_raw(year.1.unwrap().0 as int) {
        Some(head + "specifies a MaxDateInYear where the given date ("@
            + spec_dec(year.1.unwrap().1 as nat)
            + ") is greater than the number of days in that month ("@
            + spec_dec(spec_last_day_raw(year.1.unwrap().0 as int) as nat) + ")"@)
    } else {
        None
    }
}

fn date_filter_msg_head(obj_type: &str, name: &str) -> (r: String)
    ensures
        r@ == "The "@ + obj_type@ + " "@ + spec_quoted(name@) + " "@,
{
    let mut out = String::new();
    out.append("The ");
    out.append(obj_type);
    out.append(" ");
    push_quoted(&mut out, name);
    out.append(" ");
    proof {
        assert(out@ =~= "The "@ + obj_type@ + " "@ + spec_quoted(name@) + " "@);
    }
    out
}

fn year_bound_day_msg(head: String, which_min: bool, day: u32, last: u32) -> (r: String)
    ensures
        which_min ==> r@ == head@ + "specifies a MinDateInYear where the given date ("@
            + spec_dec(day as nat) + ") is greater than the number of days in that month ("@
            + spec_dec(last as nat) + ")"@,
        !which_min ==> r@ == head@ + "specifies a MaxDateInYear where the given date ("@
            + spec_dec(day as nat) + ") is greater than the number of days in that month ("@
            + spec_dec(last as nat) + ")"@,
{
    let ghost h = head@;
    let mut out = head;
    if which_min {
        out.append("specifies a MinDateInYear where the given date (");
    } else {
        out.append("specifies a MaxDateInYear where the given date (");
    }
    push_dec_u32(&mut out, day);
    out.append(") is greater than the number of days in that month (");
    push_dec_u32(&mut out, last);
    out.append(")");
    proof {
        if which_min {
            assert(out@ =~= h + "specifies a MinDateInYear where the given date ("@
                + spec_dec(day as nat) + ") is greater than the number of days in that month ("@
                + spec_dec(last as nat) + ")"@);
        } else {
            assert(out@ =~= h + "specifies a MaxDateInYear where the given date ("@
                + spec_dec(day as nat) + ") is greater than the number of days in that month ("@
                + spec_dec(last as nat) + ")"@);
        }
    }
    out
}

/// Ensure the given date-filter bounds are semantically correct,
/// reporting the failing field together with the owning object's kind
/// and name.
pub fn validate_date_filters(
    obj_type: &str,
    name: &str,
    month: MonthFilters,
    year: YearFilters,
) -> (r: Result<(), String>)
    ensures
        r.is_ok() <==> spec_validate_date_filters_err(obj_type@, name@, month, year).is_none(),
        r.is_err() ==> (r->Err_0)@
            == spec_validate_date_filters_err(obj_type@, name@, month, year).unwrap(),
{
    let (min_date_in_month, max_date_in_month) = month;
    let (min_date_in_year, max_date_in_year) = year;
    let ghost spec_err = spec_validate_date_filters_err(obj_type@, name@, month, year);
    if let Some(x) = min_date_in_month {
        if !(1 <= x && x <= 31) {
            let mut out = date_filter_msg_head(obj_type, name);
            out.append("specifies a MinDateInMonth that is not in [1, 31].");
            proof {
                assert(out@ =~= spec_err.unwrap());
            }
            return Err(out);
        }
    }
    if let Some(x) = max_date_in_month {
        if !(1 <= x && x <= 31) {
            let mut out = date_filter_msg_head(obj_type, name);
            out.append("specifies a MaxDateInMonth that is not in [1, 31].");
            proof {
                assert(out@ =~= spec_err.unwrap());
            }
            return Err(out);
        }
    }
    if let Some((low_month, low_day)) = min_date_in_year {
        if !(1 <= low_day && low_day <= 31) || !(1 <= low_month && low_month <= 12) {
            let mut out = date_filter_msg_head(obj_type, name);
            out.append("specifies a MinDateInYear where the month is not in [1, 12] or the day is not in [1, 31].");
            proof {
                assert(out@ =~= spec_err.unwrap());
            }
            return Err(out);
        }
        let last = last_date_in_month_raw(low_month);
        if low_day > last {
            let head = date_filter_msg_head(obj_type, name);
            let out = year_bound_day_msg(head, true, low_day, last);
            proof {
                assert(out@ =~= spec_err.unwrap());
            }
            return Err(out);
        }
    }
    if let Some((high_month, high_day)) = max_date_in_year {
        if !(1 <= high_day && high_day <= 31) || !(1 <= high_month && high_month <= 12) {
            let mut out = date_filter_msg_head(obj_type, name);
            out.append("specifies a MaxDateInYear where the month is not in [1, 12] or the day is not in [1, 31].");
            proof {
                assert(out@ =~= spec_err.unwrap());
            }
            return Err(out);
        }
        let last = last_date_in_month_raw(high_month);
        if high_day > last {
            let head = date_filter_msg_head(obj_type, name);
            let out = year_bound_day_msg(head, false, high_day, last);
            proof {
                assert(out@ =~= spec_err.unwrap());
            }
            return Err(out);
        }
    }
    Ok(())
}

} // verus!
