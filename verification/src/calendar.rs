//! Calendar dates, read and measured with `chrono`.
use chrono::{Datelike, NaiveDate};
use vstd::prelude::*;

use crate::numbers::zero_padded;

verus! {

/// A date of the proleptic Gregorian calendar.
#[derive(Clone, Copy, Debug, PartialEq, Eq, Structural)]
pub struct Date {
    pub year: i32,
    pub month: u32,
    pub day: u32,
}

pub open spec fn is_leap_year(y: int) -> bool {
    y % 4 == 0 && (y % 100 != 0 || y % 400 == 0)
}

pub open spec fn days_in_month(y: int, m: int) -> int {
    if m == 2 {
        if is_leap_year(y) {
            29
        } else {
            28
        }
    } else if m == 4 || m == 6 || m == 9 || m == 11 {
        30
    } else {
        31
    }
}

/// `y`-`m`-`d` is a day of the calendar.
pub open spec fn is_day(y: int, m: int, d: int) -> bool {
    1 <= m <= 12 && 1 <= d <= days_in_month(y, m)
}

/// The days of year `y` before month `m`.
pub open spec fn days_before_month(y: int, m: int) -> int
    decreases m,
{
    if m <= 1 {
        0
    } else {
        days_before_month(y, m - 1) + days_in_month(y, m - 1)
    }
}

/// The day's place in the calendar: the first of January of year 1 is day 1.
pub open spec fn day_number(y: int, m: int, d: int) -> int {
    365 * (y - 1) + (y - 1) / 4 - (y - 1) / 100 + (y - 1) / 400 + days_before_month(y, m) + d
}

/// The day in ISO notation, `YYYY-MM-DD`.
pub open spec fn iso_text(y: int, m: int, d: int) -> Seq<char> {
    zero_padded(y, 4) + seq!['-'] + zero_padded(m, 2) + seq!['-'] + zero_padded(d, 2)
}

impl Date {
    /// A day of the calendar in a year that `chrono` reaches.
    pub open spec fn wf(self) -> bool {
        is_day(self.year as int, self.month as int, self.day as int) && -262143 <= self.year
            <= 262142
    }

    /// The date's place in the calendar.
    pub open spec fn number(self) -> int {
        day_number(self.year as int, self.month as int, self.day as int)
    }
}

/// The `(year, month, day)` that `chrono` reads from a text by the format
/// `%Y-%m-%d`; `None` where it refuses the text.
pub uninterp spec fn read_date(s: Seq<char>) -> Option<(int, int, int)>;

/// `s` is the ISO notation of the numbers `y`, `m` and `d`, each of the usual
/// width.
pub open spec fn writes_iso(s: Seq<char>, y: int, m: int, d: int) -> bool {
    0 <= y <= 9999 && 0 <= m <= 99 && 0 <= d <= 99 && s == iso_text(y, m, d)
}

/// The day that three numbers name, where they name one.
pub open spec fn named_day(y: int, m: int, d: int) -> Option<(int, int, int)> {
    if is_day(y, m, d) {
        Some((y, m, d))
    } else {
        None
    }
}

pub open spec fn date_parts(date: Option<Date>) -> Option<(int, int, int)> {
    match date {
        Some(d) => Some((d.year as int, d.month as int, d.day as int)),
        None => None,
    }
}

/// `chrono::NaiveDate::parse_from_str` by `%Y-%m-%d`. What it reads is a day of
/// the calendar in the years from -262143 to 262142, and it reads ISO notation
/// exactly where that names such a day.
#[verifier::external_body]
pub(crate) fn parse_date(s: &str) -> (r: Option<Date>)
    ensures
        date_parts(r) == read_date(s@),
        r matches Some(date) ==> date.wf(),
        forall|y: int, m: int, d: int| #[trigger]
            writes_iso(s@, y, m, d) ==> date_parts(r) == named_day(y, m, d),
{
    let d = NaiveDate::parse_from_str(s, "%Y-%m-%d").ok()?;
    Some(Date { year: d.year(), month: d.month(), day: d.day() })
}

/// The difference of two `chrono::NaiveDate`s in whole days, by `num_days`.
#[verifier::external_body]
pub(crate) fn days_between(from: Date, to: Date) -> (r: i64)
    requires
        from.wf(),
        to.wf(),
    ensures
        r == to.number() - from.number(),
{
    let day = |d: Date| NaiveDate::from_ymd_opt(d.year, d.month, d.day).unwrap();
    (day(to) - day(from)).num_days()
}

} // verus!
