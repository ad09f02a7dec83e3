//! Calendar dates, held as day numbers.
//!
//! A `Date` is a day of the proleptic Gregorian calendar, stored as its day
//! number. The calendar arithmetic itself (which year a day lies in, which
//! month, which weekday) is done by `chrono`; the functions at the end of this
//! file call it, and their contracts say in the terms of `civil` what it
//! returns. Those contracts are taken on trust.

use crate::civil::{
    day_of, days_before_year, days_in_year, in_range, lemma_civil_of_days,
    lemma_valid_ymd_in_range, lemma_year_of, month_of, ordinal_of, valid_ymd, weekday_index,
    year_of, ymd_to_days, MAX_DAYS, MIN_DAYS,
};
use chrono::{Datelike, NaiveDate, TimeDelta};
use vstd::prelude::*;

verus! {

/// A day of the week.
#[derive(Clone, Copy, Debug, PartialEq, Eq, Hash, Structural)]
pub enum Weekday {
    Mon,
    Tue,
    Wed,
    Thu,
    Fri,
    Sat,
    Sun,
}

impl Weekday {
    /// The position in the week, 0 for Monday up to 6 for Sunday.
    pub open spec fn index(self) -> int {
        match self {
            Weekday::Mon => 0,
            Weekday::Tue => 1,
            Weekday::Wed => 2,
            Weekday::Thu => 3,
            Weekday::Fri => 4,
            Weekday::Sat => 5,
            Weekday::Sun => 6,
        }
    }

    /// The weekday at position `index` of the week, taken modulo 7.
    pub open spec fn from_index(index: int) -> Weekday {
        let i = index % 7;
        if i == 0 {
            Weekday::Mon
        } else if i == 1 {
            Weekday::Tue
        } else if i == 2 {
            Weekday::Wed
        } else if i == 3 {
            Weekday::Thu
        } else if i == 4 {
            Weekday::Fri
        } else if i == 5 {
            Weekday::Sat
        } else {
            Weekday::Sun
        }
    }

    /// The number of the weekday, 1 for Monday up to 7 for Sunday.
    pub fn number_from_monday(&self) -> (r: u32)
        ensures
            r == self.index() + 1,
    {
        match self {
            Weekday::Mon => 1,
            Weekday::Tue => 2,
            Weekday::Wed => 3,
            Weekday::Thu => 4,
            Weekday::Fri => 5,
            Weekday::Sat => 6,
            Weekday::Sun => 7,
        }
    }

    /// The next day of the week; Monday follows Sunday.
    pub fn succ(&self) -> (r: Weekday)
        ensures
            r == Weekday::from_index(self.index() + 1),
    {
        match self {
            Weekday::Mon => Weekday::Tue,
            Weekday::Tue => Weekday::Wed,
            Weekday::Wed => Weekday::Thu,
            Weekday::Thu => Weekday::Fri,
            Weekday::Fri => Weekday::Sat,
            Weekday::Sat => Weekday::Sun,
            Weekday::Sun => Weekday::Mon,
        }
    }
}

/// The weekday of the day with number `days`.
pub open spec fn weekday_of(days: int) -> Weekday {
    Weekday::from_index(weekday_index(days))
}

/// A calendar date. Its view is its day number.
#[derive(Clone, Copy, Debug, PartialEq, Eq, PartialOrd, Ord, Hash, Structural)]
pub struct Date {
    days: i32,
}

impl View for Date {
    type V = int;

    closed spec fn view(&self) -> int {
        self.days as int
    }
}

impl Date {
    /// A date is well formed when it is one of the days that can be represented.
    pub open spec fn wf(&self) -> bool {
        in_range(self@)
    }

    /// A date is its day number and nothing else.
    pub proof fn lemma_view_injective(a: Date, b: Date)
        ensures
            a@ == b@ <==> a == b,
    {
    }

    /// The date `year`-`month`-`day`, if there is such a day and it can be represented.
    pub fn from_ymd_opt(year: i32, month: u32, day: u32) -> (r: Option<Date>)
        ensures
            r is Some <==> valid_ymd(year as int, month as int, day as int),
            r matches Some(d) ==> d.wf() && d@ == ymd_to_days(
                year as int,
                month as int,
                day as int,
            ),
    {
        proof {
            if valid_ymd(year as int, month as int, day as int) {
                lemma_valid_ymd_in_range(year as int, month as int, day as int);
            }
        }
        match chrono_from_ymd(year, month, day) {
            Some(days) => Some(Date { days }),
            None => None,
        }
    }

    /// The date with the day number `days`, if it can be represented.
    pub fn from_num_days_from_ce_opt(days: i32) -> (r: Option<Date>)
        ensures
            r is Some <==> in_range(days as int),
            r matches Some(d) ==> d.wf() && d@ == days,
    {
        match chrono_from_days(days) {
            Some(n) => Some(Date { days: n }),
            None => None,
        }
    }

    /// The day number: January 1 of year 1 is day 1.
    pub fn num_days_from_ce(&self) -> (r: i32)
        ensures
            r == self@,
    {
        self.days
    }

    /// The year.
    pub fn year(&self) -> (r: i32)
        requires
            self.wf(),
        ensures
            r == year_of(self@),
    {
        chrono_year(self.days)
    }

    /// The month, from 1 to 12.
    pub fn month(&self) -> (r: u32)
        requires
            self.wf(),
        ensures
            r == month_of(self@),
            1 <= r <= 12,
    {
        proof {
            lemma_civil_of_days(self@);
        }
        chrono_month(self.days)
    }

    /// The day of the month, from 1.
    pub fn day(&self) -> (r: u32)
        requires
            self.wf(),
        ensures
            r == day_of(self@),
            1 <= r <= 31,
    {
        proof {
            lemma_civil_of_days(self@);
        }
        chrono_day(self.days)
    }

    /// The day of the year, from 1.
    pub fn ordinal(&self) -> (r: u32)
        requires
            self.wf(),
        ensures
            r == ordinal_of(self@),
            1 <= r <= 366,
    {
        proof {
            lemma_year_of(self@);
        }
        chrono_ordinal(self.days)
    }

    /// The day of the week.
    pub fn weekday(&self) -> (r: Weekday)
        requires
            self.wf(),
        ensures
            r == weekday_of(self@),
    {
        chrono_weekday(self.days)
    }

    /// The date with the same year and the day of the year `ordinal`,
    /// if the year has such a day.
    pub fn with_ordinal(&self, ordinal: u32) -> (r: Option<Date>)
        requires
            self.wf(),
        ensures
            r is Some <==> 1 <= ordinal <= days_in_year(year_of(self@)),
            r matches Some(d) ==> d.wf() && d@ == self@ - ordinal_of(self@) + ordinal,
    {
        proof {
            lemma_civil_of_days(self@);
            if 1 <= ordinal <= days_in_year(year_of(self@)) {
                lemma_ordinal_in_range(year_of(self@), ordinal as int);
            }
        }
        match chrono_with_ordinal(self.days, ordinal) {
            Some(days) => Some(Date { days }),
            None => None,
        }
    }

    /// The date with the same month and day in `year`, if there is such a day
    /// and it can be represented.
    pub fn with_year(&self, year: i32) -> (r: Option<Date>)
        requires
            self.wf(),
        ensures
            r is Some <==> valid_ymd(year as int, month_of(self@), day_of(self@)),
            r matches Some(d) ==> d.wf() && d@ == ymd_to_days(
                year as int,
                month_of(self@),
                day_of(self@),
            ),
    {
        proof {
            if valid_ymd(year as int, month_of(self@), day_of(self@)) {
                lemma_valid_ymd_in_range(year as int, month_of(self@), day_of(self@));
            }
        }
        match chrono_with_year(self.days, year) {
            Some(days) => Some(Date { days }),
            None => None,
        }
    }

    /// The date with the same year and day in `month`, if there is such a day.
    pub fn with_month(&self, month: u32) -> (r: Option<Date>)
        requires
            self.wf(),
        ensures
            r is Some <==> valid_ymd(year_of(self@), month as int, day_of(self@)),
            r matches Some(d) ==> d.wf() && d@ == ymd_to_days(
                year_of(self@),
                month as int,
                day_of(self@),
            ),
    {
        proof {
            if valid_ymd(year_of(self@), month as int, day_of(self@)) {
                lemma_valid_ymd_in_range(year_of(self@), month as int, day_of(self@));
            }
        }
        match chrono_with_month(self.days, month) {
            Some(days) => Some(Date { days }),
            None => None,
        }
    }

    /// The date with the same year and month and the day of the month `day`,
    /// if there is such a day.
    pub fn with_day(&self, day: u32) -> (r: Option<Date>)
        requires
            self.wf(),
        ensures
            r is Some <==> valid_ymd(year_of(self@), month_of(self@), day as int),
            r matches Some(d) ==> d.wf() && d@ == ymd_to_days(
                year_of(self@),
                month_of(self@),
                day as int,
            ),
    {
        proof {
            if valid_ymd(year_of(self@), month_of(self@), day as int) {
                lemma_valid_ymd_in_range(year_of(self@), month_of(self@), day as int);
            }
        }
        match chrono_with_day(self.days, day) {
            Some(days) => Some(Date { days }),
            None => None,
        }
    }

    /// The date `count` days later (earlier, for a negative `count`),
    /// if it can be represented.
    pub fn checked_add_days(&self, count: i32) -> (r: Option<Date>)
        requires
            self.wf(),
        ensures
            r is Some <==> in_range(self@ + count),
            r matches Some(d) ==> d.wf() && d@ == self@ + count,
    {
        match chrono_add_days(self.days, count) {
            Some(days) => Some(Date { days }),
            None => None,
        }
    }
}

/// A day of a year that can be represented has a day number in range.
proof fn lemma_ordinal_in_range(year: int, ordinal: int)
    requires
        crate::civil::MIN_YEAR <= year <= crate::civil::MAX_YEAR,
        1 <= ordinal <= days_in_year(year),
    ensures
        in_range(days_before_year(year) + ordinal),
{
    crate::civil::lemma_range_bounds();
    crate::civil::lemma_days_before_year_step(year);
    crate::civil::lemma_days_before_year_monotonic(crate::civil::MIN_YEAR as int, year);
    crate::civil::lemma_days_before_year_monotonic(year + 1, crate::civil::MAX_YEAR + 1);
}

/// Calls `NaiveDate::from_ymd_opt` and takes the day number of what it makes.
/// Trusted: it makes a date exactly for the year, month and day that name a
/// day between the first and the last year, and that date's day number is the
/// count of the days before its year and before its month, plus its day.
#[verifier::external_body]
fn chrono_from_ymd(year: i32, month: u32, day: u32) -> (r: Option<i32>)
    ensures
        r == (if valid_ymd(year as int, month as int, day as int) {
            Some(ymd_to_days(year as int, month as int, day as int) as i32)
        } else {
            None
        }),
{
    match NaiveDate::from_ymd_opt(year, month, day) {
        Some(date) => Some(date.num_days_from_ce()),
        None => None,
    }
}

/// Calls `NaiveDate::from_num_days_from_ce_opt` and takes the day number of
/// what it makes. Trusted: it makes a date exactly for the day numbers from
/// `MIN_DAYS` to `MAX_DAYS`, and that date has the day number it was made from.
#[verifier::external_body]
fn chrono_from_days(days: i32) -> (r: Option<i32>)
    ensures
        r == (if in_range(days as int) {
            Some(days)
        } else {
            None
        }),
{
    match NaiveDate::from_num_days_from_ce_opt(days) {
        Some(date) => Some(date.num_days_from_ce()),
        None => None,
    }
}

/// Calls `Datelike::year` on the date with the day number `days`.
/// Trusted: it is the year whose days enclose that day.
#[verifier::external_body]
fn chrono_year(days: i32) -> (r: i32)
    requires
        in_range(days as int),
    ensures
        r == year_of(days as int),
{
    NaiveDate::from_num_days_from_ce_opt(days).unwrap().year()
}

/// Calls `Datelike::month` on the date with the day number `days`.
/// Trusted: it is the month, counted from 1, whose days enclose that day.
#[verifier::external_body]
fn chrono_month(days: i32) -> (r: u32)
    requires
        in_range(days as int),
    ensures
        r == month_of(days as int),
{
    NaiveDate::from_num_days_from_ce_opt(days).unwrap().month()
}

/// Calls `Datelike::day` on the date with the day number `days`.
/// Trusted: it is the day's position in its month, counted from 1.
#[verifier::external_body]
fn chrono_day(days: i32) -> (r: u32)
    requires
        in_range(days as int),
    ensures
        r == day_of(days as int),
{
    NaiveDate::from_num_days_from_ce_opt(days).unwrap().day()
}

/// Calls `Datelike::ordinal` on the date with the day number `days`.
/// Trusted: it is the day's position in its year, counted from 1.
#[verifier::external_body]
fn chrono_ordinal(days: i32) -> (r: u32)
    requires
        in_range(days as int),
    ensures
        r == ordinal_of(days as int),
{
    NaiveDate::from_num_days_from_ce_opt(days).unwrap().ordinal()
}

/// Calls `Datelike::weekday` on the date with the day number `days`.
/// Trusted: day 1 is a Monday, and the weekdays follow each other in their order.
#[verifier::external_body]
fn chrono_weekday(days: i32) -> (r: Weekday)
    requires
        in_range(days as int),
    ensures
        r == weekday_of(days as int),
{
    match NaiveDate::from_num_days_from_ce_opt(days).unwrap().weekday() {
        chrono::Weekday::Mon => Weekday::Mon,
        chrono::Weekday::Tue => Weekday::Tue,
        chrono::Weekday::Wed => Weekday::Wed,
        chrono::Weekday::Thu => Weekday::Thu,
        chrono::Weekday::Fri => Weekday::Fri,
        chrono::Weekday::Sat => Weekday::Sat,
        chrono::Weekday::Sun => Weekday::Sun,
    }
}

/// Calls `Datelike::with_ordinal` on the date with the day number `days`.
/// Trusted: it makes a date exactly when the year has a day with that ordinal,
/// and that date is the day of the same year with that ordinal.
#[verifier::external_body]
fn chrono_with_ordinal(days: i32, ordinal: u32) -> (r: Option<i32>)
    requires
        in_range(days as int),
    ensures
        r == (if 1 <= ordinal <= days_in_year(year_of(days as int)) {
            Some((days_before_year(year_of(days as int)) + ordinal) as i32)
        } else {
            None
        }),
{
    let date = NaiveDate::from_num_days_from_ce_opt(days).unwrap();
    match date.with_ordinal(ordinal) {
        Some(found) => Some(found.num_days_from_ce()),
        None => None,
    }
}

/// Calls `Datelike::with_year` on the date with the day number `days`.
/// Trusted: it makes a date exactly when `year` has the same month and day
/// and can be represented, and that date is that day of `year`.
#[verifier::external_body]
fn chrono_with_year(days: i32, year: i32) -> (r: Option<i32>)
    requires
        in_range(days as int),
    ensures
        r == (if valid_ymd(year as int, month_of(days as int), day_of(days as int)) {
            Some(ymd_to_days(year as int, month_of(days as int), day_of(days as int)) as i32)
        } else {
            None
        }),
{
    let date = NaiveDate::from_num_days_from_ce_opt(days).unwrap();
    match date.with_year(year) {
        Some(found) => Some(found.num_days_from_ce()),
        None => None,
    }
}

/// Calls `Datelike::with_month` on the date with the day number `days`.
/// Trusted: it makes a date exactly when `month` of the same year has the
/// same day, and that date is that day of `month`.
#[verifier::external_body]
fn chrono_with_month(days: i32, month: u32) -> (r: Option<i32>)
    requires
        in_range(days as int),
    ensures
        r == (if valid_ymd(year_of(days as int), month as int, day_of(days as int)) {
            Some(ymd_to_days(year_of(days as int), month as int, day_of(days as int)) as i32)
        } else {
            None
        }),
{
    let date = NaiveDate::from_num_days_from_ce_opt(days).unwrap();
    match date.with_month(month) {
        Some(found) => Some(found.num_days_from_ce()),
        None => None,
    }
}

/// Calls `Datelike::with_day` on the date with the day number `days`.
/// Trusted: it makes a date exactly when the same month has a day `day`,
/// and that date is that day of the month.
#[verifier::external_body]
fn chrono_with_day(days: i32, day: u32) -> (r: Option<i32>)
    requires
        in_range(days as int),
    ensures
        r == (if valid_ymd(year_of(days as int), month_of(days as int), day as int) {
            Some(ymd_to_days(year_of(days as int), month_of(days as int), day as int) as i32)
        } else {
            None
        }),
{
    let date = NaiveDate::from_num_days_from_ce_opt(days).unwrap();
    match date.with_day(day) {
        Some(found) => Some(found.num_days_from_ce()),
        None => None,
    }
}

/// Calls `NaiveDate::checked_add_signed` with a span of `count` whole days.
/// Trusted: it makes a date exactly when the day `count` days on can be
/// represented, and that date is that day.
#[verifier::external_body]
fn chrono_add_days(days: i32, count: i32) -> (r: Option<i32>)
    requires
        in_range(days as int),
    ensures
        r == (if in_range(days + count) {
            Some((days + count) as i32)
        } else {
            None
        }),
{
    let date = NaiveDate::from_num_days_from_ce_opt(days).unwrap();
    match date.checked_add_signed(TimeDelta::days(count as i64)) {
        Some(found) => Some(found.num_days_from_ce()),
        None => None,
    }
}

} // verus!
