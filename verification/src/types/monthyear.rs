//! Calendar months as keys.

use crate::types::date::Date;
use vstd::prelude::*;

verus! {

/// A month of a year. The derived order is chronological: by year, then month.
#[derive(Debug, PartialEq, Eq, Structural, Hash, Clone, Copy, PartialOrd, Ord)]
pub struct MonthYear {
    pub year: u32,
    pub month: u32,
}

impl MonthYear {
    /// The month is one of the twelve.
    pub open spec fn wf(&self) -> bool {
        1 <= self.month <= 12
    }

    /// The number of months from January of year zero to this month.
    pub open spec fn ordinal(&self) -> int {
        self.year as int * 12 + self.month as int - 1
    }

    /// Chronological order.
    pub open spec fn before(&self, other: &MonthYear) -> bool {
        self.year < other.year || (self.year == other.year && self.month < other.month)
    }

    /// The given month of the given year.
    pub fn new(month: u32, year: u32) -> (r: MonthYear)
        requires
            1 <= month <= 12,
        ensures
            r == (MonthYear { year, month }),
            r.wf(),
    {
        MonthYear { year, month }
    }

    /// The month after this one; December is followed by January of the next year.
    pub fn next_month(&self) -> (r: MonthYear)
        requires
            self.month == 12 ==> self.year < u32::MAX,
            self.month < u32::MAX,
        ensures
            r == if self.month == 12 {
                MonthYear { year: (self.year + 1) as u32, month: 1 }
            } else {
                MonthYear { year: self.year, month: (self.month + 1) as u32 }
            },
            self.wf() ==> r.wf() && r.ordinal() == self.ordinal() + 1,
    {
        if self.month == 12 {
            MonthYear { year: self.year + 1, month: 1 }
        } else {
            MonthYear { year: self.year, month: self.month + 1 }
        }
    }

    /// The year of a date as this type carries it: years before zero wrap
    /// around the unsigned range.
    pub open spec fn year_of(date: Date) -> int {
        if date.year >= 0 {
            date.year as int
        } else {
            date.year as int + 0x1_0000_0000
        }
    }

    /// The month in which a date falls.
    pub fn from_naivedate(date: Date) -> (r: MonthYear)
        ensures
            r.month == date.month,
            r.year as int == Self::year_of(date),
    {
        let year: u32 = if date.year >= 0 {
            date.year as u32
        } else {
            (date.year as i64 + 0x1_0000_0000i64) as u32
        };
        MonthYear { year, month: date.month }
    }

    /// Whether `self` is strictly earlier than `other`.
    pub fn is_before(&self, other: &MonthYear) -> (r: bool)
        ensures
            r == self.before(other),
            self.wf() && other.wf() ==> r == (self.ordinal() < other.ordinal()),
    {
        self.year < other.year || (self.year == other.year && self.month < other.month)
    }
}

} // verus!
