//! Calendar dates and times of day, held as plain numbers.
//!
//! A timestamp is modelled as its civil fields (year, month, day, hour,
//! minute, second). The day-distance used by the streak decay rule is the
//! difference of day numbers counted from year 0, so it is exact across
//! month and year boundaries.

use vstd::prelude::*;

verus! {

/// A calendar date with a time of day, at second precision.
#[derive(Clone, Copy, PartialEq, Eq, Structural, Debug)]
pub struct DateTime {
    pub year: u32,
    pub month: u32,
    pub day: u32,
    pub hour: u32,
    pub minute: u32,
    pub second: u32,
}

/// Gregorian leap-year rule.
pub open spec fn is_leap_year(y: u32) -> bool {
    y % 4 == 0 && (y % 100 != 0 || y % 400 == 0)
}

/// Number of days in the given month of the given year.
pub open spec fn days_in_month(y: u32, m: u32) -> u32 {
    if m == 2 {
        if is_leap_year(y) {
            29
        } else {
            28
        }
    } else if m == 4 || m == 6 || m == 9 || m == 11 {
        30
    } else {
        31
    }
}

/// Days from the start of the year to the start of month `m`.
pub open spec fn days_before_month(y: u32, m: u32) -> int {
    let base: int = if m == 1 {
        0
    } else if m == 2 {
        31
    } else if m == 3 {
        59
    } else if m == 4 {
        90
    } else if m == 5 {
        120
    } else if m == 6 {
        151
    } else if m == 7 {
        181
    } else if m == 8 {
        212
    } else if m == 9 {
        243
    } else if m == 10 {
        273
    } else if m == 11 {
        304
    } else {
        334
    };
    if m > 2 && is_leap_year(y) {
        base + 1
    } else {
        base
    }
}

impl DateTime {
    /// The fields form a real calendar date and time, with the year held
    /// to at most four digits so that timestamps print at fixed width.
    pub open spec fn valid(self) -> bool {
        &&& self.year <= 9999
        &&& 1 <= self.month <= 12
        &&& 1 <= self.day <= days_in_month(self.year, self.month)
        &&& self.hour <= 23
        &&& self.minute <= 59
        &&& self.second <= 59
    }

    /// Two timestamps fall on the same calendar date.
    pub open spec fn same_calendar_date(self, other: DateTime) -> bool {
        self.year == other.year && self.month == other.month && self.day == other.day
    }

    /// The calendar date following this one, at the same time of day.
    pub open spec fn next_calendar_date(self) -> DateTime {
        if self.day < days_in_month(self.year, self.month) {
            DateTime { day: (self.day + 1) as u32, ..self }
        } else if self.month < 12 {
            DateTime { month: (self.month + 1) as u32, day: 1, ..self }
        } else {
            DateTime { year: (self.year + 1) as u32, month: 1, day: 1, ..self }
        }
    }

    /// Index of this date in a count of days from the start of year 0.
    /// Consecutive calendar dates have consecutive day numbers: see
    /// [`crate::laws::lemma_day_number_steps_by_one`].
    pub open spec fn day_number(self) -> int {
        365 * self.year + (self.year + 3) / 4 - (self.year + 99) / 100 + (self.year + 399) / 400
            + days_before_month(self.year, self.month) + self.day - 1
    }
}

/// Executable twin of [`days_in_month`].
pub fn days_in_month_x(y: u32, m: u32) -> (d: u32)
    ensures
        d == days_in_month(y, m),
{
    if m == 2 {
        if y % 4 == 0 && (y % 100 != 0 || y % 400 == 0) {
            29
        } else {
            28
        }
    } else if m == 4 || m == 6 || m == 9 || m == 11 {
        30
    } else {
        31
    }
}

/// Executable twin of [`DateTime::valid`].
pub fn valid_x(t: &DateTime) -> (b: bool)
    ensures
        b == t.valid(),
{
    t.year <= 9999 && 1 <= t.month && t.month <= 12 && 1 <= t.day && t.day <= days_in_month_x(
        t.year,
        t.month,
    ) && t.hour <= 23 && t.minute <= 59 && t.second <= 59
}

/// Executable twin of [`DateTime::day_number`].
pub fn day_number_x(t: &DateTime) -> (n: u64)
    requires
        t.valid(),
    ensures
        n == t.day_number(),
{
    let y = t.year as u64;
    let before_month: u64 = {
        let base: u64 = if t.month == 1 {
            0
        } else if t.month == 2 {
            31
        } else if t.month == 3 {
            59
        } else if t.month == 4 {
            90
        } else if t.month == 5 {
            120
        } else if t.month == 6 {
            151
        } else if t.month == 7 {
            181
        } else if t.month == 8 {
            212
        } else if t.month == 9 {
            243
        } else if t.month == 10 {
            273
        } else if t.month == 11 {
            304
        } else {
            334
        };
        if t.month > 2 && t.year % 4 == 0 && (t.year % 100 != 0 || t.year % 400 == 0) {
            base + 1
        } else {
            base
        }
    };
    365 * y + (y + 3) / 4 + (y + 399) / 400 + before_month + t.day as u64 - 1 - (y + 99) / 100
}

} // verus!
