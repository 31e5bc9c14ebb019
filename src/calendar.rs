//! Calendar dates as plain year / month / day values, and the reporting
//! period of a calendar month.

use chrono::{Datelike, NaiveDate};
use crate::text::{decimal, decimal_string, push_char};
use vstd::prelude::*;

verus! {

/// Earliest year that chrono's `NaiveDate` represents.
pub const MIN_YEAR: i32 = -262143;

/// Latest year that chrono's `NaiveDate` represents.
pub const MAX_YEAR: i32 = 262142;

/// A calendar date (proleptic Gregorian). Only the logic that needs a
/// well-formed date asks for `valid_date`.
#[derive(Clone, Copy, Debug, PartialEq, Eq, Structural)]
pub struct Date {
    pub year: i32,
    pub month: u32,
    pub day: u32,
}

/// An inclusive window of dates: `start` through `end`.
#[derive(Clone, Copy, Debug, PartialEq, Eq, Structural)]
pub struct Period {
    pub start: Date,
    pub end: Date,
}

pub open spec fn is_leap_year(year: int) -> bool {
    year % 4 == 0 && (year % 100 != 0 || year % 400 == 0)
}

pub open spec fn days_in_month(year: int, month: int) -> int {
    if month == 2 {
        if is_leap_year(year) {
            29
        } else {
            28
        }
    } else if month == 4 || month == 6 || month == 9 || month == 11 {
        30
    } else {
        31
    }
}

/// A date that exists in the calendar and lies in chrono's range.
pub open spec fn valid_ymd(year: int, month: int, day: int) -> bool {
    &&& MIN_YEAR <= year <= MAX_YEAR
    &&& 1 <= month <= 12
    &&& 1 <= day <= days_in_month(year, month)
}

pub open spec fn valid_date(d: Date) -> bool {
    valid_ymd(d.year as int, d.month as int, d.day as int)
}

/// Lexicographic order on (year, month, day), which is calendar order.
pub open spec fn date_le(a: Date, b: Date) -> bool {
    a.year < b.year || (a.year == b.year && (a.month < b.month || (a.month == b.month && a.day
        <= b.day)))
}

/// The calendar day before `d`.
pub open spec fn prev_day(d: Date) -> Date {
    if d.day > 1 {
        Date { day: (d.day - 1) as u32, ..d }
    } else if d.month > 1 {
        Date {
            year: d.year,
            month: (d.month - 1) as u32,
            day: days_in_month(d.year as int, d.month - 1) as u32,
        }
    } else {
        Date { year: (d.year - 1) as i32, month: 12, day: 31 }
    }
}

/// The first day of the month before the month of `d`.
pub open spec fn first_of_previous_month(d: Date) -> Date {
    if d.month == 1 {
        Date { year: (d.year - 1) as i32, month: 12, day: 1 }
    } else {
        Date { year: d.year, month: (d.month - 1) as u32, day: 1 }
    }
}

/// The calendar month before the month of `d`, first through last day.
pub open spec fn previous_month_period(d: Date) -> Period {
    let start = first_of_previous_month(d);
    Period {
        start,
        end: Date {
            day: days_in_month(start.year as int, start.month as int) as u32,
            ..start
        },
    }
}

pub open spec fn in_period(d: Date, p: Period) -> bool {
    date_le(p.start, d) && date_le(d, p.end)
}

/// Relies on chrono's `NaiveDate::from_ymd_opt`, which accepts exactly the
/// existing dates of years `MIN_YEAR` through `MAX_YEAR`.
#[verifier::external_body]
fn chrono_accepts(year: i32, month: u32, day: u32) -> (r: bool)
    ensures
        r == valid_ymd(year as int, month as int, day as int),
{
    NaiveDate::from_ymd_opt(year, month, day).is_some()
}

/// Relies on chrono's `NaiveDate::pred_opt`: the day before, or `None`
/// before the first day of `MIN_YEAR`.
#[verifier::external_body]
fn chrono_pred(d: Date) -> (r: Option<Date>)
    requires
        valid_date(d),
    ensures
        r == (if d.year == MIN_YEAR && d.month == 1 && d.day == 1 {
            None
        } else {
            Some(prev_day(d))
        }),
{
    NaiveDate::from_ymd_opt(d.year, d.month, d.day).and_then(|n| n.pred_opt()).map(
        |p| Date { year: p.year(), month: p.month(), day: p.day() },
    )
}

impl Date {
    /// The date `year-month-day`, if it exists and lies in chrono's range.
    pub fn from_ymd(year: i32, month: u32, day: u32) -> (r: Option<Date>)
        ensures
            r == (if valid_ymd(year as int, month as int, day as int) {
                Some(Date { year, month, day })
            } else {
                None
            }),
    {
        if chrono_accepts(year, month, day) {
            Some(Date { year, month, day })
        } else {
            None
        }
    }

    /// Calendar order: `self` falls on or before `other`.
    pub fn le(&self, other: &Date) -> (r: bool)
        ensures
            r == date_le(*self, *other),
    {
        self.year < other.year || (self.year == other.year && (self.month < other.month || (
        self.month == other.month && self.day <= other.day)))
    }

    /// The day before this one; `None` on the first day that chrono holds.
    pub fn pred(&self) -> (r: Option<Date>)
        requires
            valid_date(*self),
        ensures
            r == (if self.year == MIN_YEAR && self.month == 1 && self.day == 1 {
                None
            } else {
                Some(prev_day(*self))
            }),
    {
        chrono_pred(*self)
    }
}

impl Period {
    /// Whether `d` lies in this window, both ends included.
    pub fn contains(&self, d: &Date) -> (r: bool)
        ensures
            r == in_period(*d, *self),
    {
        self.start.le(d) && d.le(&self.end)
    }
}

/// The reporting period before the month of `today`: the first through the
/// last day of the previous calendar month. `None` when that month lies
/// before chrono's range.
pub fn previous_month(today: Date) -> (r: Option<Period>)
    requires
        valid_date(today),
    ensures
        r == (if today.year == MIN_YEAR && today.month == 1 {
            None
        } else {
            Some(previous_month_period(today))
        }),
{
    if today.year == MIN_YEAR && today.month == 1 {
        return None;
    }
    let start = if today.month == 1 {
        Date { year: today.year - 1, month: 12, day: 1 }
    } else {
        Date { year: today.year, month: today.month - 1, day: 1 }
    };
    let first_of_current = Date { year: today.year, month: today.month, day: 1 };
    match first_of_current.pred() {
        Some(end) => Some(Period { start, end }),
        None => None,
    }
}

/// The English name of month `m`; empty outside 1 through 12.
pub open spec fn month_name(m: int) -> Seq<char> {
    if m == 1 {
        "January"@
    } else if m == 2 {
        "February"@
    } else if m == 3 {
        "March"@
    } else if m == 4 {
        "April"@
    } else if m == 5 {
        "May"@
    } else if m == 6 {
        "June"@
    } else if m == 7 {
        "July"@
    } else if m == 8 {
        "August"@
    } else if m == 9 {
        "September"@
    } else if m == 10 {
        "October"@
    } else if m == 11 {
        "November"@
    } else if m == 12 {
        "December"@
    } else {
        Seq::empty()
    }
}

fn month_name_str(m: u32) -> (r: &'static str)
    ensures
        r@ == month_name(m as int),
{
    match m {
        1 => "January",
        2 => "February",
        3 => "March",
        4 => "April",
        5 => "May",
        6 => "June",
        7 => "July",
        8 => "August",
        9 => "September",
        10 => "October",
        11 => "November",
        12 => "December",
        _ => {
            let e = "";
            proof {
                reveal_strlit("");
            }
            e
        },
    }
}

/// The month and year of `date`, as in "March 2024".
pub fn format_month_year(date: Date) -> (r: String)
    ensures
        r@ == month_name(date.month as int) + seq![' '] + decimal(date.year as int),
{
    let mut r = String::from_str(month_name_str(date.month));
    push_char(&mut r, ' ');
    let year = decimal_string(date.year as i128);
    r.append(year.as_str());
    r
}

} // verus!
