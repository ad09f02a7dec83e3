//! The proleptic Gregorian calendar as arithmetic on day numbers.
//!
//! A day number counts the days of the calendar, with January 1 of year 1 as
//! day 1. Everything here is specification: the functions say what the year,
//! the month, the day of month and the weekday of a day number are, and the
//! lemmas relate them.

use vstd::prelude::*;

verus! {

/// The first year in which a date can be represented.
pub const MIN_YEAR: i32 = -262143;

/// The last year in which a date can be represented.
pub const MAX_YEAR: i32 = 262142;

/// The day number of January 1 of `MIN_YEAR`.
pub const MIN_DAYS: i32 = -95746129;

/// The day number of December 31 of `MAX_YEAR`.
pub const MAX_DAYS: i32 = 95745399;

/// Every fourth year is a leap year, except the centuries that 400 does not divide.
pub open spec fn is_leap_year(year: int) -> bool {
    year % 4 == 0 && (year % 100 != 0 || year % 400 == 0)
}

/// The number of days of `year`.
pub open spec fn days_in_year(year: int) -> int {
    if is_leap_year(year) {
        366
    } else {
        365
    }
}

/// The number of days of the calendar that lie before January 1 of `year`,
/// counted from January 1 of year 1 (negative for the years before it).
pub open spec fn days_before_year(year: int) -> int {
    365 * (year - 1) + (year - 1) / 4 - (year - 1) / 100 + (year - 1) / 400
}

/// The number of days of `month` in `year`.
pub open spec fn days_in_month(year: int, month: int) -> int {
    if month == 2 {
        if is_leap_year(year) {
            29
        } else {
            28
        }
    } else if month == 4 || month == 6 || month == 9 || month == 11 {
        30
    } else {
        31
    }
}

/// The number of days of `year` that lie before the first of `month`.
/// For `month == 13` this is the length of the year.
pub open spec fn days_before_month(year: int, month: int) -> int
    decreases month,
{
    if month <= 1 {
        0
    } else {
        days_before_month(year, month - 1) + days_in_month(year, month - 1)
    }
}

/// Whether `year`, `month`, `day` name a day of the calendar that can be represented.
pub open spec fn valid_ymd(year: int, month: int, day: int) -> bool {
    &&& MIN_YEAR <= year <= MAX_YEAR
    &&& 1 <= month <= 12
    &&& 1 <= day <= days_in_month(year, month)
}

/// The day number of the calendar date `year`-`month`-`day`.
pub open spec fn ymd_to_days(year: int, month: int, day: int) -> int {
    days_before_year(year) + days_before_month(year, month) + day
}

/// Whether a day number belongs to a date that can be represented.
pub open spec fn in_range(days: int) -> bool {
    MIN_DAYS <= days <= MAX_DAYS
}

/// Whether the day `days` is one of the days of `year`.
pub open spec fn year_holds(year: int, days: int) -> bool {
    days_before_year(year) < days <= days_before_year(year + 1)
}

/// The calendar year that holds the day `days`.
pub open spec fn year_of(days: int) -> int {
    choose|year: int| year_holds(year, days)
}

/// The day of the year, starting from 1.
pub open spec fn ordinal_of(days: int) -> int {
    days - days_before_year(year_of(days))
}

/// Whether the day with ordinal `ordinal` in `year` is one of the days of `month`.
pub open spec fn month_holds(year: int, month: int, ordinal: int) -> bool {
    &&& 1 <= month <= 12
    &&& days_before_month(year, month) < ordinal <= days_before_month(year, month + 1)
}

/// The month that holds the day with ordinal `ordinal` in `year`.
pub open spec fn month_of_ordinal(year: int, ordinal: int) -> int {
    choose|month: int| month_holds(year, month, ordinal)
}

/// The month, starting from 1.
pub open spec fn month_of(days: int) -> int {
    month_of_ordinal(year_of(days), ordinal_of(days))
}

/// The day of the month, starting from 1.
pub open spec fn day_of(days: int) -> int {
    ordinal_of(days) - days_before_month(year_of(days), month_of(days))
}

/// The day of the week as a number: 0 for Monday up to 6 for Sunday.
/// Day 1 of the calendar is a Monday.
pub open spec fn weekday_index(days: int) -> int {
    (days - 1) % 7
}

/// Saturday or Sunday.
pub open spec fn is_weekend_day(days: int) -> bool {
    weekday_index(days) >= 5
}

/// One year further on, the count has grown by the length of the year.
pub proof fn lemma_days_before_year_step(year: int)
    ensures
        days_before_year(year + 1) == days_before_year(year) + days_in_year(year),
{
}

/// The count of days before a year grows by at least 365 with each year.
pub proof fn lemma_days_before_year_monotonic(a: int, b: int)
    requires
        a <= b,
    ensures
        days_before_year(a) + 365 * (b - a) <= days_before_year(b),
    decreases b - a,
{
    if a < b {
        lemma_days_before_year_monotonic(a, b - 1);
        lemma_days_before_year_step(b - 1);
    }
}

/// Every day number lies in some year.
pub proof fn lemma_year_exists(days: int)
    ensures
        exists|year: int| year_holds(year, days),
    decreases
            (if days >= 1 {
                days - 1
            } else {
                1 - days
            }),
{
    if days == 1 {
        assert(year_holds(1, days));
    } else if days > 1 {
        let before = days - 1;
        lemma_year_exists(before);
        let y = choose|year: int| year_holds(year, before);
        lemma_days_before_year_step(y + 1);
        if days <= days_before_year(y + 1) {
            assert(year_holds(y, days));
        } else {
            assert(year_holds(y + 1, days));
        }
    } else {
        let after = days + 1;
        lemma_year_exists(after);
        let y = choose|year: int| year_holds(year, after);
        lemma_days_before_year_step(y - 1);
        if days_before_year(y) < days {
            assert(year_holds(y, days));
        } else {
            assert(year_holds(y - 1, days));
        }
    }
}

/// The year of a day is the one year whose days enclose it.
pub proof fn lemma_year_of(days: int)
    ensures
        year_holds(year_of(days), days),
        1 <= ordinal_of(days) <= days_in_year(year_of(days)),
{
    lemma_year_exists(days);
    lemma_days_before_year_step(year_of(days));
}

/// A year whose days enclose `days` is the year of `days`.
pub proof fn lemma_year_unique(year: int, days: int)
    requires
        year_holds(year, days),
    ensures
        year_of(days) == year,
{
    lemma_year_of(days);
    let y = year_of(days);
    if y < year {
        lemma_days_before_year_monotonic(y + 1, year);
    } else if year < y {
        lemma_days_before_year_monotonic(year + 1, y);
    }
}

/// The running totals of the months, written out.
pub proof fn lemma_days_before_month_table(year: int)
    ensures
        days_before_month(year, 1) == 0,
        days_before_month(year, 2) == 31,
        days_before_month(year, 3) == 59 + days_in_year(year) - 365,
        days_before_month(year, 4) == 90 + days_in_year(year) - 365,
        days_before_month(year, 5) == 120 + days_in_year(year) - 365,
        days_before_month(year, 6) == 151 + days_in_year(year) - 365,
        days_before_month(year, 7) == 181 + days_in_year(year) - 365,
        days_before_month(year, 8) == 212 + days_in_year(year) - 365,
        days_before_month(year, 9) == 243 + days_in_year(year) - 365,
        days_before_month(year, 10) == 273 + days_in_year(year) - 365,
        days_before_month(year, 11) == 304 + days_in_year(year) - 365,
        days_before_month(year, 12) == 334 + days_in_year(year) - 365,
        days_before_month(year, 13) == days_in_year(year),
{
    reveal_with_fuel(days_before_month, 14);
}

/// Every day of a year lies in one of its twelve months, and in only one.
pub proof fn lemma_month_of_ordinal(year: int, ordinal: int)
    requires
        1 <= ordinal <= days_in_year(year),
    ensures
        month_holds(year, month_of_ordinal(year, ordinal), ordinal),
        forall|month: int|
            month_holds(year, month, ordinal) ==> month == month_of_ordinal(year, ordinal),
{
    lemma_days_before_month_table(year);
    let m: int = if ordinal <= days_before_month(year, 2) {
        1
    } else if ordinal <= days_before_month(year, 3) {
        2
    } else if ordinal <= days_before_month(year, 4) {
        3
    } else if ordinal <= days_before_month(year, 5) {
        4
    } else if ordinal <= days_before_month(year, 6) {
        5
    } else if ordinal <= days_before_month(year, 7) {
        6
    } else if ordinal <= days_before_month(year, 8) {
        7
    } else if ordinal <= days_before_month(year, 9) {
        8
    } else if ordinal <= days_before_month(year, 10) {
        9
    } else if ordinal <= days_before_month(year, 11) {
        10
    } else if ordinal <= days_before_month(year, 12) {
        11
    } else {
        12
    };
    assert(month_holds(year, m, ordinal));
}

/// A day number splits into a valid year, month and day, and they give it back.
pub proof fn lemma_civil_of_days(days: int)
    ensures
        1 <= month_of(days) <= 12,
        1 <= day_of(days) <= days_in_month(year_of(days), month_of(days)),
        ymd_to_days(year_of(days), month_of(days), day_of(days)) == days,
        in_range(days) ==> valid_ymd(year_of(days), month_of(days), day_of(days)),
{
    lemma_year_of(days);
    lemma_month_of_ordinal(year_of(days), ordinal_of(days));
    if in_range(days) {
        lemma_year_in_range(days);
    }
}

/// The day number of a calendar date splits back into that date.
pub proof fn lemma_days_of_civil(year: int, month: int, day: int)
    requires
        1 <= month <= 12,
        1 <= day <= days_in_month(year, month),
    ensures
        year_of(ymd_to_days(year, month, day)) == year,
        ordinal_of(ymd_to_days(year, month, day)) == days_before_month(year, month) + day,
        month_of(ymd_to_days(year, month, day)) == month,
        day_of(ymd_to_days(year, month, day)) == day,
{
    let days = ymd_to_days(year, month, day);
    lemma_days_before_month_table(year);
    lemma_days_before_year_step(year);
    lemma_year_unique(year, days);
    lemma_month_of_ordinal(year, days_before_month(year, month) + day);
}

/// The days that can be represented are those of the years from `MIN_YEAR` to `MAX_YEAR`.
pub proof fn lemma_year_in_range(days: int)
    requires
        in_range(days),
    ensures
        MIN_YEAR <= year_of(days) <= MAX_YEAR,
{
    lemma_year_of(days);
    lemma_range_bounds();
    let y = year_of(days);
    if y < MIN_YEAR {
        lemma_days_before_year_monotonic(y + 1, MIN_YEAR as int);
    } else if y > MAX_YEAR {
        lemma_days_before_year_monotonic(MAX_YEAR + 1, y);
    }
}

/// The first and the last day number are those of January 1 of `MIN_YEAR` and
/// of December 31 of `MAX_YEAR`.
pub proof fn lemma_range_bounds()
    ensures
        days_before_year(MIN_YEAR as int) + 1 == MIN_DAYS,
        days_before_year(MAX_YEAR + 1) == MAX_DAYS,
{
}

/// A calendar date that can be represented has a day number in range.
pub proof fn lemma_valid_ymd_in_range(year: int, month: int, day: int)
    requires
        valid_ymd(year, month, day),
    ensures
        in_range(ymd_to_days(year, month, day)),
{
    lemma_range_bounds();
    lemma_days_before_month_table(year);
    lemma_days_before_year_step(year);
    lemma_days_before_year_monotonic(MIN_YEAR as int, year);
    lemma_days_before_year_monotonic(year + 1, MAX_YEAR + 1);
}

/// Seven days on, the weekday is the same.
pub proof fn lemma_weekday_period(days: int)
    ensures
        weekday_index(days + 7) == weekday_index(days),
        0 <= weekday_index(days) < 7,
        weekday_index(days + 1) == (weekday_index(days) + 1) % 7,
{
}

} // verus!
