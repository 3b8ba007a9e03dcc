//! Calendar dates as day numbers.
//!
//! A `Date` is a count of days since 1970-01-01.  Civil (year, month, day)
//! conversions use the standard era/day-of-era formulas over non-negative
//! integers; the supported civil range is years 1600 through 9999.

use vstd::prelude::*;

verus! {

/// Smallest supported day number (1600-01-01).
pub const MIN_DAYS: i64 = -135140;

/// Largest supported day number (9999-12-31).
pub const MAX_DAYS: i64 = 2932896;

/// A calendar day, counted in days since 1970-01-01.
#[derive(Clone, Copy, Debug, PartialEq, Eq, Hash, Structural)]
pub struct Date {
    pub days: i64,
}

pub open spec fn date_in_range(d: Date) -> bool {
    MIN_DAYS <= d.days <= MAX_DAYS
}

pub open spec fn spec_is_leap_year(y: int) -> bool {
    y % 4 == 0 && (y % 100 != 0 || y % 400 == 0)
}

pub open spec fn spec_days_in_month(y: int, m: int) -> int {
    if m == 2 {
        if spec_is_leap_year(y) {
            29
        } else {
            28
        }
    } else if m == 4 || m == 6 || m == 9 || m == 11 {
        30
    } else {
        31
    }
}

pub open spec fn valid_ymd(y: int, m: int, d: int) -> bool {
    1600 <= y <= 9999 && 1 <= m <= 12 && 1 <= d <= spec_days_in_month(y, m)
}

/// Day number of a civil date, relative to 1970-01-01.
pub open spec fn spec_day_number(y: int, m: int, d: int) -> int
    recommends
        valid_ymd(y, m, d),
{
    let yy = if m <= 2 {
        y - 1
    } else {
        y
    };
    let era = yy / 400;
    let yoe = yy - era * 400;
    let mp = if m > 2 {
        m - 3
    } else {
        m + 9
    };
    let doy = (153 * mp + 2) / 5 + d - 1;
    let doe = yoe * 365 + yoe / 4 - yoe / 100 + doy;
    era * 146097 + doe - 719468
}

/// Civil date of a day number, as (year, month, day).
pub open spec fn spec_civil_of(days: int) -> (int, int, int)
    recommends
        MIN_DAYS <= days <= MAX_DAYS,
{
    let z = days + 719468;
    let era = z / 146097;
    let doe = z - era * 146097;
    let yoe = (doe - doe / 1460 + doe / 36524 - doe / 146096) / 365;
    let y = yoe + era * 400;
    let doy = doe - (365 * yoe + yoe / 4 - yoe / 100);
    let mp = (5 * doy + 2) / 153;
    let d = doy - (153 * mp + 2) / 5 + 1;
    let m = if mp < 10 {
        mp + 3
    } else {
        mp - 9
    };
    if m <= 2 {
        (y + 1, m, d)
    } else {
        (y, m, d)
    }
}

fn is_leap_year(y: i64) -> (r: bool)
    requires
        1600 <= y <= 9999,
    ensures
        r == spec_is_leap_year(y as int),
{
    y % 4 == 0 && (y % 100 != 0 || y % 400 == 0)
}

fn days_in_month(y: i64, m: i64) -> (r: i64)
    requires
        1600 <= y <= 9999,
        1 <= m <= 12,
    ensures
        r == spec_days_in_month(y as int, m as int),
{
    if m == 2 {
        if is_leap_year(y) {
            29
        } else {
            28
        }
    } else if m == 4 || m == 6 || m == 9 || m == 11 {
        30
    } else {
        31
    }
}

impl Date {
    /// Builds the date for a civil (year, month, day); `None` when the triple
    /// is not a calendar date in the supported range.
    pub fn from_ymd(y: i64, m: i64, d: i64) -> (r: Option<Date>)
        ensures
            r is Some <==> valid_ymd(y as int, m as int, d as int),
            r is Some ==> r->Some_0.days == spec_day_number(y as int, m as int, d as int),
            r is Some ==> date_in_range(r->Some_0),
    {
        if 1600 <= y && y <= 9999 && 1 <= m && m <= 12 && 1 <= d && d <= days_in_month(y, m) {
            let yy: i64 = if m <= 2 {
                y - 1
            } else {
                y
            };
            let era: i64 = yy / 400;
            let yoe: i64 = yy - era * 400;
            let mp: i64 = if m > 2 {
                m - 3
            } else {
                m + 9
            };
            let doy: i64 = (153 * mp + 2) / 5 + d - 1;
            let doe: i64 = yoe * 365 + yoe / 4 - yoe / 100 + doy;
            let days: i64 = era * 146097 + doe - 719468;
            assert(days == spec_day_number(y as int, m as int, d as int));
            assert(MIN_DAYS <= days <= MAX_DAYS) by {
                assert(spec_day_number(1600, 1, 1) == MIN_DAYS);
                assert(spec_day_number(9999, 12, 31) == MAX_DAYS);
            }
            Some(Date { days })
        } else {
            None
        }
    }

    /// The civil (year, month, day) of this date.
    pub fn ymd(&self) -> (r: (i64, i64, i64))
        requires
            date_in_range(*self),
        ensures
            (r.0 as int, r.1 as int, r.2 as int) == spec_civil_of(self.days as int),
    {
        let z: i64 = self.days + 719468;
        let era: i64 = z / 146097;
        let doe: i64 = z - era * 146097;
        let yoe: i64 = (doe - doe / 1460 + doe / 36524 - doe / 146096) / 365;
        let y: i64 = yoe + era * 400;
        let doy: i64 = doe - (365 * yoe + yoe / 4 - yoe / 100);
        let mp: i64 = (5 * doy + 2) / 153;
        let d: i64 = doy - (153 * mp + 2) / 5 + 1;
        let m: i64 = if mp < 10 {
            mp + 3
        } else {
            mp - 9
        };
        if m <= 2 {
            (y + 1, m, d)
        } else {
            (y, m, d)
        }
    }

    /// The day of the month.
    pub fn day_of_month(&self) -> (r: i64)
        requires
            date_in_range(*self),
        ensures
            r as int == spec_civil_of(self.days as int).2,
    {
        let (_, _, d) = self.ymd();
        d
    }

    /// The date `n` days later (earlier for negative `n`).
    pub fn plus_days(&self, n: i64) -> (r: Date)
        requires
            MIN_DAYS <= self.days + n <= MAX_DAYS,
        ensures
            r.days == self.days + n,
            date_in_range(r),
    {
        Date { days: self.days + n }
    }

    /// True when `self` is on or before `other`.
    pub fn leq(&self, other: &Date) -> (r: bool)
        ensures
            r == (self.days <= other.days),
    {
        self.days <= other.days
    }

    /// True when `self` is strictly after `other`.
    pub fn after(&self, other: &Date) -> (r: bool)
        ensures
            r == (self.days > other.days),
    {
        self.days > other.days
    }
}

/// The value of a decimal digit character, or -1 for anything else.
pub open spec fn digit_value(c: char) -> int {
    if c == '0' {
        0
    } else if c == '1' {
        1
    } else if c == '2' {
        2
    } else if c == '3' {
        3
    } else if c == '4' {
        4
    } else if c == '5' {
        5
    } else if c == '6' {
        6
    } else if c == '7' {
        7
    } else if c == '8' {
        8
    } else if c == '9' {
        9
    } else {
        -1
    }
}

/// What parsing a serialized date means: exactly ten characters shaped
/// "YYYY-MM-DD", whose digits name a calendar date in the supported range.
pub open spec fn spec_parse_date(s: Seq<char>) -> Option<Date> {
    if s.len() == 10 && s[4] == '-' && s[7] == '-' && digit_value(s[0]) >= 0 && digit_value(s[1])
        >= 0 && digit_value(s[2]) >= 0 && digit_value(s[3]) >= 0 && digit_value(s[5]) >= 0
        && digit_value(s[6]) >= 0 && digit_value(s[8]) >= 0 && digit_value(s[9]) >= 0 {
        let y = digit_value(s[0]) * 1000 + digit_value(s[1]) * 100 + digit_value(s[2]) * 10
            + digit_value(s[3]);
        let m = digit_value(s[5]) * 10 + digit_value(s[6]);
        let d = digit_value(s[8]) * 10 + digit_value(s[9]);
        if valid_ymd(y, m, d) {
            Some(Date { days: spec_day_number(y, m, d) as i64 })
        } else {
            None
        }
    } else {
        None
    }
}

fn digit_of(c: char) -> (r: i64)
    ensures
        r == digit_value(c),
{
    match c {
        '0' => 0,
        '1' => 1,
        '2' => 2,
        '3' => 3,
        '4' => 4,
        '5' => 5,
        '6' => 6,
        '7' => 7,
        '8' => 8,
        '9' => 9,
        _ => -1,
    }
}

/// Parses a serialized "YYYY-MM-DD" date; `None` for anything that is not
/// one, or that names no calendar date in the supported range.
pub fn parse_date(s: &str) -> (r: Option<Date>)
    ensures
        r == spec_parse_date(s@),
        r is Some ==> date_in_range(r->Some_0),
{
    if s.unicode_len() != 10 {
        return None;
    }
    let c0 = digit_of(s.get_char(0));
    let c1 = digit_of(s.get_char(1));
    let c2 = digit_of(s.get_char(2));
    let c3 = digit_of(s.get_char(3));
    let dash1 = s.get_char(4);
    let c5 = digit_of(s.get_char(5));
    let c6 = digit_of(s.get_char(6));
    let dash2 = s.get_char(7);
    let c8 = digit_of(s.get_char(8));
    let c9 = digit_of(s.get_char(9));
    if dash1 != '-' || dash2 != '-' || c0 < 0 || c1 < 0 || c2 < 0 || c3 < 0 || c5 < 0 || c6 < 0
        || c8 < 0 || c9 < 0 {
        return None;
    }
    let y: i64 = c0 * 1000 + c1 * 100 + c2 * 10 + c3;
    let m: i64 = c5 * 10 + c6;
    let d: i64 = c8 * 10 + c9;
    Date::from_ymd(y, m, d)
}

} // verus!
