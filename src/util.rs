use chrono::Datelike;
use vstd::prelude::*;

use crate::error::FinanceError;

verus! {

/// The earliest year of the calendar that dates are checked against.
pub const MIN_YEAR: i32 = -262143;

/// The latest year of the calendar that dates are checked against.
pub const MAX_YEAR: i32 = 262142;

/// Seconds in a day.
pub const SECONDS_PER_DAY: u32 = 86400;

/// A year and a month, the month counted from 1.
pub type YearMonth = (i32, u32);

/// Leap years of the proleptic Gregorian calendar.
pub open spec fn is_leap(y: int) -> bool {
    (y % 4 == 0 && y % 100 != 0) || y % 400 == 0
}

/// Number of days of a month.
pub open spec fn month_len(y: int, m: int) -> int {
    if m == 2 {
        if is_leap(y) { 29 } else { 28 }
    } else if m == 4 || m == 6 || m == 9 || m == 11 {
        30
    } else {
        31
    }
}

/// A month of the calendar's year range.
pub open spec fn valid_ym(ym: YearMonth) -> bool {
    MIN_YEAR <= ym.0 <= MAX_YEAR && 1 <= ym.1 <= 12
}

/// A day of the calendar.
pub open spec fn valid_date(y: int, m: int, d: int) -> bool {
    MIN_YEAR <= y <= MAX_YEAR && 1 <= m <= 12 && 1 <= d <= month_len(y, m)
}

/// Months counted from January of year 0; consecutive months have consecutive indices.
pub open spec fn month_index(ym: YearMonth) -> int {
    ym.0 * 12 + ym.1 - 1
}

/// The month after `ym`.
pub open spec fn next_ym(ym: YearMonth) -> YearMonth {
    if ym.1 >= 12 {
        ((ym.0 + 1) as i32, 1u32)
    } else {
        (ym.0, (ym.1 + 1) as u32)
    }
}

/// The month before `ym`.
pub open spec fn prev_ym(ym: YearMonth) -> YearMonth {
    if ym.1 <= 1 {
        ((ym.0 - 1) as i32, 12u32)
    } else {
        (ym.0, (ym.1 - 1) as u32)
    }
}

/// A local calendar instant: a day and the second of that day.
#[derive(Clone, Copy, Debug, PartialEq, Eq, Structural, Hash)]
pub struct DateTime {
    pub year: i32,
    pub month: u32,
    pub day: u32,
    /// Seconds since midnight.
    pub second: u32,
}

impl DateTime {
    /// A day of the calendar and a second of that day.
    pub open spec fn valid(self) -> bool {
        valid_date(self.year as int, self.month as int, self.day as int) && self.second < SECONDS_PER_DAY
    }

    /// The month that holds the instant.
    pub open spec fn ym(self) -> YearMonth {
        (self.year, self.month)
    }

    /// Chronological order: `self` is not later than `other`.
    pub open spec fn le(self, other: DateTime) -> bool {
        self.year < other.year || (self.year == other.year && (self.month < other.month || (
        self.month == other.month && (self.day < other.day || (self.day == other.day
            && self.second <= other.second)))))
    }

    /// Chronological order: `self` is earlier than `other`.
    pub open spec fn lt(self, other: DateTime) -> bool {
        self.le(other) && self != other
    }

    /// Midnight at the start of a day, or `InvalidDate` where the day is not in the calendar.
    pub fn at_midnight(year: i32, month: u32, day: u32) -> (r: Result<DateTime, FinanceError>)
        ensures
            match r {
                Ok(t) => valid_date(year as int, month as int, day as int) && t == (DateTime {
                    year,
                    month,
                    day,
                    second: 0,
                }),
                Err(e) => !valid_date(year as int, month as int, day as int) && e
                    == FinanceError::InvalidDate,
            },
    {
        if date_exists(year, month, day) {
            Ok(DateTime { year, month, day, second: 0 })
        } else {
            Err(FinanceError::InvalidDate)
        }
    }

    /// Whether `self` is earlier than `other`.
    pub fn is_before(&self, other: &DateTime) -> (r: bool)
        ensures
            r == self.lt(*other),
    {
        self.is_not_after(other) && *self != *other
    }

    /// Whether `self` is not later than `other`.
    pub fn is_not_after(&self, other: &DateTime) -> (r: bool)
        ensures
            r == self.le(*other),
    {
        if self.year != other.year {
            self.year < other.year
        } else if self.month != other.month {
            self.month < other.month
        } else if self.day != other.day {
            self.day < other.day
        } else {
            self.second <= other.second
        }
    }
}

/// Relies on chrono's `NaiveDate::from_ymd_opt`, which gives a date exactly
/// for a day of the proleptic Gregorian calendar within chrono's year range.
#[verifier::external_body]
fn date_exists(year: i32, month: u32, day: u32) -> (r: bool)
    ensures
        r == valid_date(year as int, month as int, day as int),
{
    chrono::NaiveDate::from_ymd_opt(year, month, day).is_some()
}

/// Relies on chrono's `Local::now`, with `Datelike::year` and
/// `Datelike::month`: the current month on this machine's clock.
#[verifier::external_body]
pub(crate) fn current_year_month() -> (r: YearMonth)
    ensures
        valid_ym(r),
{
    let now = chrono::Local::now();
    (now.year(), now.month())
}

/// The month after `prev`.
pub fn get_next_ym(prev: YearMonth) -> (r: YearMonth)
    requires
        valid_ym(prev),
        prev != (MAX_YEAR, 12u32),
    ensures
        r == next_ym(prev),
        valid_ym(r),
        month_index(r) == month_index(prev) + 1,
{
    if prev.1 == 12 {
        (prev.0 + 1, 1)
    } else {
        (prev.0, prev.1 + 1)
    }
}

/// The month before `next`.
pub fn get_prev_ym(next: YearMonth) -> (r: YearMonth)
    requires
        valid_ym(next),
        next != (MIN_YEAR, 1u32),
    ensures
        r == prev_ym(next),
        valid_ym(r),
        month_index(r) == month_index(next) - 1,
{
    if next.1 == 1 {
        (next.0 - 1, 12)
    } else {
        (next.0, next.1 - 1)
    }
}

/// Whether month `a` is not later than month `b`.
pub fn ym_not_after(a: YearMonth, b: YearMonth) -> (r: bool)
    requires
        valid_ym(a),
        valid_ym(b),
    ensures
        r == (month_index(a) <= month_index(b)),
{
    a.0 < b.0 || (a.0 == b.0 && a.1 <= b.1)
}

/// Number of days of a month, or `InvalidDate` where the month is not in the calendar.
pub fn days_in_month(year: i32, month: u32) -> (r: Result<u32, FinanceError>)
    ensures
        match r {
            Ok(n) => valid_ym((year, month)) && n == month_len(year as int, month as int),
            Err(e) => !valid_ym((year, month)) && e == FinanceError::InvalidDate,
        },
{
    if !date_exists(year, month, 1) {
        return Err(FinanceError::InvalidDate);
    }
    if date_exists(year, month, 31) {
        Ok(31)
    } else if date_exists(year, month, 30) {
        Ok(30)
    } else if date_exists(year, month, 29) {
        Ok(29)
    } else {
        Ok(28)
    }
}

/// Midnight at the start of the last day of a month, or `InvalidDate` where
/// the month is not in the calendar.
pub fn get_end_of_month(year: i32, month: u32) -> (r: Result<DateTime, FinanceError>)
    ensures
        match r {
            Ok(t) => valid_ym((year, month)) && t == (DateTime {
                year,
                month,
                day: month_len(year as int, month as int) as u32,
                second: 0,
            }),
            Err(e) => !valid_ym((year, month)) && e == FinanceError::InvalidDate,
        },
{
    let day = days_in_month(year, month)?;
    Ok(DateTime { year, month, day, second: 0 })
}

/// The first instant (midnight of the first day) and the last second (23:59:59
/// of the last day) of a month, or `InvalidDate` where the month is not in the calendar.
pub fn get_opening_and_closing_date(year: i32, month: u32) -> (r: Result<
    (DateTime, DateTime),
    FinanceError,
>)
    ensures
        match r {
            Ok((open, close)) => valid_ym((year, month)) && open == opening_of((year, month))
                && close == closing_of((year, month)),
            Err(e) => !valid_ym((year, month)) && e == FinanceError::InvalidDate,
        },
{
    let day = days_in_month(year, month)?;
    Ok(
        (
            DateTime { year, month, day: 1, second: 0 },
            DateTime { year, month, day, second: SECONDS_PER_DAY - 1 },
        ),
    )
}

/// Midnight of the first day of a month.
pub open spec fn opening_of(ym: YearMonth) -> DateTime {
    DateTime { year: ym.0, month: ym.1, day: 1, second: 0 }
}

/// The last second of the last day of a month.
pub open spec fn closing_of(ym: YearMonth) -> DateTime {
    DateTime {
        year: ym.0,
        month: ym.1,
        day: month_len(ym.0 as int, ym.1 as int) as u32,
        second: (SECONDS_PER_DAY - 1) as u32,
    }
}

} // verus!
