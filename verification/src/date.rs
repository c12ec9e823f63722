//! Calendar dates as plain values.
//!
//! The store keeps dates of hire and transfer dates. A date is held as
//! plain year, month and day numbers; callers hand in dates they have
//! already parsed and validated, and the store records them as given.

use vstd::prelude::*;
use chrono::Datelike;

verus! {

/// A calendar date: year, month (1 to 12) and day of month (1 to 31).
#[derive(Clone, Copy, Debug, PartialEq, Eq, Structural)]
pub struct Date {
    pub year: i32,
    pub month: u32,
    pub day: u32,
}

/// Leap years in the Gregorian calendar: every fourth year, except
/// century years not divisible by four hundred.
pub open spec fn is_leap_year(y: int) -> bool {
    (y % 4 == 0 && y % 100 != 0) || y % 400 == 0
}

/// How many days the given month of the given year has.
pub open spec fn days_in_month(y: int, m: int) -> int {
    if m == 4 || m == 6 || m == 9 || m == 11 {
        30
    } else if m == 2 {
        if is_leap_year(y) {
            29
        } else {
            28
        }
    } else {
        31
    }
}

/// A real calendar date: the month exists and the day exists in that
/// month of that year.
pub open spec fn valid_date(d: Date) -> bool {
    &&& 1 <= d.month <= 12
    &&& 1 <= d.day <= days_in_month(d.year as int, d.month as int)
}

impl Date {
    /// Whether this is a real calendar date; impossible combinations
    /// (a thirteenth month, February the thirtieth) are not.
    pub fn is_valid(&self) -> (b: bool)
        ensures
            b == valid_date(*self),
    {
        if self.month < 1 || self.month > 12 {
            return false;
        }
        let limit: u32 = match self.month {
            4 | 6 | 9 | 11 => 30,
            2 => {
                if (self.year % 4 == 0 && self.year % 100 != 0) || self.year % 400 == 0 {
                    29
                } else {
                    28
                }
            },
            _ => 31,
        };
        1 <= self.day && self.day <= limit
    }
}

/// The current civil date in the machine's local time zone.
///
/// Relies on chrono's `Local::now` and `DateTime::date_naive` for the
/// current date; `Datelike::year`, `Datelike::month` and `Datelike::day`
/// document that the month ranges over 1 to 12 and the day of month over
/// 1 to 31. The result depends on the clock, so no more is stated.
#[verifier::external_body]
pub fn today() -> (d: Date)
    ensures
        1 <= d.month <= 12,
        1 <= d.day <= 31,
{
    let now = chrono::Local::now().date_naive();
    Date { year: now.year(), month: now.month(), day: now.day() }
}

} // verus!
