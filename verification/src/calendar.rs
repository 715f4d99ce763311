//! Calendar dates as the pricing rules read them: month, day and weekday.

use vstd::prelude::*;

verus! {

/// A day of the week.
#[derive(Clone, Copy, Debug, PartialEq, Eq, Structural)]
pub enum DayOfWeek {
    Mon,
    Tue,
    Wed,
    Thu,
    Fri,
    Sat,
    Sun,
}

impl DayOfWeek {
    /// The day that lies `n` days after a Monday, for `n` in `0..=6`.
    pub open spec fn of_index(n: int) -> Option<DayOfWeek> {
        if n == 0 {
            Some(DayOfWeek::Mon)
        } else if n == 1 {
            Some(DayOfWeek::Tue)
        } else if n == 2 {
            Some(DayOfWeek::Wed)
        } else if n == 3 {
            Some(DayOfWeek::Thu)
        } else if n == 4 {
            Some(DayOfWeek::Fri)
        } else if n == 5 {
            Some(DayOfWeek::Sat)
        } else if n == 6 {
            Some(DayOfWeek::Sun)
        } else {
            None
        }
    }

    /// The day that lies `n` days after a Monday; `None` unless `n <= 6`.
    pub fn from_index(n: u32) -> (r: Option<DayOfWeek>)
        ensures
            r == Self::of_index(n as int),
    {
        if n == 0 {
            Some(DayOfWeek::Mon)
        } else if n == 1 {
            Some(DayOfWeek::Tue)
        } else if n == 2 {
            Some(DayOfWeek::Wed)
        } else if n == 3 {
            Some(DayOfWeek::Thu)
        } else if n == 4 {
            Some(DayOfWeek::Fri)
        } else if n == 5 {
            Some(DayOfWeek::Sat)
        } else if n == 6 {
            Some(DayOfWeek::Sun)
        } else {
            None
        }
    }
}

/// A calendar date together with the weekday it falls on.
///
/// The pricing rules read `month`, `day` and `weekday`; `year` is kept for
/// the caller's sake.
#[derive(Clone, Copy, Debug, PartialEq, Eq, Structural)]
pub struct CalendarDate {
    pub year: i32,
    pub month: u32,
    pub day: u32,
    pub weekday: DayOfWeek,
}

/// The number of days from Monday to the weekday of the proleptic Gregorian
/// date `year`-`month`-`day`, as chrono computes it; `None` where chrono has
/// no such date.
pub uninterp spec fn weekday_index(year: i32, month: u32, day: u32) -> Option<u32>;

/// The date made of `year`, `month`, `day` and the weekday numbered `index`.
pub open spec fn date_with_weekday(year: i32, month: u32, day: u32, index: Option<u32>) -> Option<
    CalendarDate,
> {
    match index {
        Some(n) => match DayOfWeek::of_index(n as int) {
            Some(weekday) => Some(CalendarDate { year, month, day, weekday }),
            None => None,
        },
        None => None,
    }
}

/// Asks chrono for the weekday of a date: `NaiveDate::from_ymd_opt`, then
/// `Datelike::weekday` and `Weekday::num_days_from_monday` on the date made.
///
/// Trusted: the result is the one named `weekday_index`; where there is
/// one, it is at most 6, `month` is in `1..=12` and `day` in `1..=31`.
#[verifier::external_body]
fn chrono_weekday_index(year: i32, month: u32, day: u32) -> (r: Option<u32>)
    ensures
        r == weekday_index(year, month, day),
        r matches Some(n) ==> n <= 6 && 1 <= month <= 12 && 1 <= day <= 31,
{
    match chrono::NaiveDate::from_ymd_opt(year, month, day) {
        Some(date) => Some(chrono::Datelike::weekday(&date).num_days_from_monday()),
        None => None,
    }
}

impl CalendarDate {
    /// Builds a date from its parts and the number of its weekday (days
    /// from Monday). `None` where no number is given or it is above 6.
    pub fn with_weekday_index(year: i32, month: u32, day: u32, index: Option<u32>) -> (r: Option<
        CalendarDate,
    >)
        ensures
            r == date_with_weekday(year, month, day, index),
    {
        match index {
            Some(n) => match DayOfWeek::from_index(n) {
                Some(weekday) => Some(CalendarDate { year, month, day, weekday }),
                None => None,
            },
            None => None,
        }
    }

    /// Builds the date `year`-`month`-`day` with the weekday that the
    /// calendar gives it. `None` where the calendar has no such date.
    pub fn from_ymd(year: i32, month: u32, day: u32) -> (r: Option<CalendarDate>)
        ensures
            r == date_with_weekday(year, month, day, weekday_index(year, month, day)),
            r.is_some() == weekday_index(year, month, day).is_some(),
            r matches Some(date) ==> 1 <= date.month <= 12 && 1 <= date.day <= 31,
    {
        let index = chrono_weekday_index(year, month, day);
        Self::with_weekday_index(year, month, day, index)
    }
}

} // verus!
