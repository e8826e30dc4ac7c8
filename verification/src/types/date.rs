//! Calendar dates.

use chrono::Datelike;
use vstd::prelude::*;

verus! {

/// A day of the proleptic Gregorian calendar.
#[derive(Clone, Copy, Debug, PartialEq, Eq, Structural, PartialOrd, Ord, Hash)]
pub struct Date {
    pub year: i32,
    pub month: u32,
    pub day: u32,
}

/// Whether February has 29 days in `year`.
pub open spec fn is_leap_year(year: int) -> bool {
    year % 4 == 0 && (year % 100 != 0 || year % 400 == 0)
}

/// The number of days of `month` in `year`; zero where `month` is no month.
pub open spec fn days_in_month(year: int, month: int) -> int {
    if month == 2 {
        if is_leap_year(year) {
            29
        } else {
            28
        }
    } else if month == 4 || month == 6 || month == 9 || month == 11 {
        30
    } else if 1 <= month <= 12 {
        31
    } else {
        0
    }
}

/// The years that a date can carry.
pub open spec fn year_in_range(year: int) -> bool {
    -262143 <= year <= 262142
}

/// Whether the triple names a day that exists.
pub open spec fn is_calendar_day(year: int, month: int, day: int) -> bool {
    year_in_range(year) && 1 <= month <= 12 && 1 <= day <= days_in_month(year, month)
}

/// Calls chrono's `NaiveDate::from_ymd_opt` and reads the fields of what it
/// made. Chrono answers `None` where the year is outside its range, the month
/// is not 1 to 12, or the month has no such day; otherwise the date it makes
/// carries the year, month and day that it was given.
#[verifier::external_body]
fn checked_ymd(year: i32, month: u32, day: u32) -> (r: Option<(i32, u32, u32)>)
    ensures
        r == if is_calendar_day(year as int, month as int, day as int) {
            Some((year, month, day))
        } else {
            None
        },
{
    match chrono::NaiveDate::from_ymd_opt(year, month, day) {
        Some(d) => Some((d.year(), d.month(), d.day())),
        None => None,
    }
}

impl Date {
    /// Whether this value names a day that exists.
    pub open spec fn wf(&self) -> bool {
        is_calendar_day(self.year as int, self.month as int, self.day as int)
    }

    /// Whether this value names a day that exists in a year from zero on.
    pub open spec fn dated(&self) -> bool {
        self.wf() && self.year >= 0
    }

    /// Chronological order.
    pub open spec fn before(&self, other: &Date) -> bool {
        self.year < other.year || (self.year == other.year && (self.month < other.month || (
        self.month == other.month && self.day < other.day)))
    }

    /// The date of the given year, month and day, if that day exists.
    pub fn from_ymd_opt(year: i32, month: u32, day: u32) -> (r: Option<Date>)
        ensures
            r == if is_calendar_day(year as int, month as int, day as int) {
                Some(Date { year, month, day })
            } else {
                None
            },
    {
        match checked_ymd(year, month, day) {
            Some((y, m, d)) => Some(Date { year: y, month: m, day: d }),
            None => None,
        }
    }

    /// Whether `self` is strictly earlier than `other`.
    pub fn is_before(&self, other: &Date) -> (r: bool)
        ensures
            r == self.before(other),
    {
        self.year < other.year || (self.year == other.year && (self.month < other.month || (
        self.month == other.month && self.day < other.day)))
    }
}

impl Default for Date {
    /// The first day of 1970.
    fn default() -> (r: Date)
        ensures
            r == (Date { year: 1970, month: 1, day: 1 }),
    {
        Date { year: 1970, month: 1, day: 1 }
    }
}

} // verus!
