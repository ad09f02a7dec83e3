//! Holiday calendars for the United States.

use crate::calendar::{CalendarError, HolidayCalendar, HolidayRules};
use crate::civil::{
    day_of, in_range, lemma_days_before_month_table, lemma_days_before_year_step,
    lemma_valid_ymd_in_range, lemma_weekday_period, lemma_year_in_range, month_of, valid_ymd,
    weekday_index, year_of, ymd_to_days,
};
use crate::date::{Date, Weekday};
use vstd::prelude::*;

verus! {

/// The day number of the last day of `month` in `year`: the day before the
/// first of the month after it. Month 0 stands for the December before `year`.
pub open spec fn month_end(year: int, month: int) -> int {
    ymd_to_days(year, month + 1, 1) - 1
}

/// The year and the month that follow `month` of `year`.
pub open spec fn month_after(year: int, month: int) -> (int, int) {
    if month == 12 {
        (year + 1, 1)
    } else {
        (year, month + 1)
    }
}

/// The days that the occurrences after the first lie further on.
pub open spec fn extra_weeks(occurrence: int) -> int {
    if occurrence > 1 {
        7 * (occurrence - 1)
    } else {
        0
    }
}

/// The day number of the `occurrence`-th `weekday` of `month` in `year`,
/// counted from the first of the month.
pub open spec fn weekday_from_start(
    weekday: Weekday,
    year: int,
    month: int,
    occurrence: int,
) -> int {
    let anchor = ymd_to_days(year, month, 1);
    anchor + (weekday.index() - weekday_index(anchor)) % 7 + extra_weeks(occurrence)
}

/// The day number of the `occurrence`-th `weekday` of `month` in `year`,
/// counted back from the last of the month.
pub open spec fn weekday_from_end(weekday: Weekday, year: int, month: int, occurrence: int) -> int {
    let anchor = month_end(year, month);
    anchor - (weekday_index(anchor) - weekday.index()) % 7 - extra_weeks(occurrence)
}

/// The day on which a holiday is observed: the Friday before for one that
/// falls on a Saturday, the Monday after for one that falls on a Sunday.
pub open spec fn observed_day(day: int) -> int {
    if weekday_index(day) == 5 {
        day - 1
    } else if weekday_index(day) == 6 {
        day + 1
    } else {
        day
    }
}

/// Whether `found` is the date with the day number `day`; there is none
/// where that day cannot be represented.
pub open spec fn is_day(found: Option<Date>, day: int) -> bool {
    match found {
        Some(date) => date.wf() && date@ == day,
        None => !in_range(day),
    }
}

/// Going on from a day by the distance of its weekday to the weekday with
/// index `target`, and by whole weeks, ends on that weekday.
pub proof fn lemma_forward_offset(anchor: int, target: int, weeks: int)
    requires
        0 <= target < 7,
    ensures
        0 <= (target - weekday_index(anchor)) % 7 < 7,
        weekday_index(anchor + (target - weekday_index(anchor)) % 7 + 7 * weeks) == target,
{
    let from = weekday_index(anchor);
    let offset = (target - from) % 7;
    assert(anchor - 1 == 7 * ((anchor - 1) / 7) + from);
    if target >= from {
        assert(offset == target - from);
        assert(anchor + offset + 7 * weeks - 1 == 7 * ((anchor - 1) / 7 + weeks) + target);
    } else {
        assert(offset == target - from + 7);
        assert(anchor + offset + 7 * weeks - 1 == 7 * ((anchor - 1) / 7 + weeks + 1) + target);
    }
}

/// Going back from a day by the distance from the weekday with index
/// `target` to its own weekday, and by whole weeks, ends on that weekday.
pub proof fn lemma_backward_offset(anchor: int, target: int, weeks: int)
    requires
        0 <= target < 7,
    ensures
        0 <= (weekday_index(anchor) - target) % 7 < 7,
        weekday_index(anchor - (weekday_index(anchor) - target) % 7 - 7 * weeks) == target,
{
    let from = weekday_index(anchor);
    let offset = (from - target) % 7;
    assert(anchor - 1 == 7 * ((anchor - 1) / 7) + from);
    if from >= target {
        assert(offset == from - target);
        assert(anchor - offset - 7 * weeks - 1 == 7 * ((anchor - 1) / 7 - weeks) + target);
    } else {
        assert(offset == from - target + 7);
        assert(anchor - offset - 7 * weeks - 1 == 7 * ((anchor - 1) / 7 - weeks - 1) + target);
    }
}

/// The days found by `weekday_from_start` and `weekday_from_end` fall on the
/// weekday that was asked for, the first occurrence within a week of the anchor.
pub proof fn lemma_weekday_found(weekday: Weekday, year: int, month: int, occurrence: int)
    ensures
        weekday_index(weekday_from_start(weekday, year, month, occurrence)) == weekday.index(),
        weekday_index(weekday_from_end(weekday, year, month, occurrence)) == weekday.index(),
        0 <= weekday_from_start(weekday, year, month, 1) - ymd_to_days(year, month, 1) < 7,
        0 <= month_end(year, month) - weekday_from_end(weekday, year, month, 1) < 7,
{
    let weeks = if occurrence > 1 {
        occurrence - 1
    } else {
        0
    };
    lemma_forward_offset(ymd_to_days(year, month, 1), weekday.index(), weeks);
    lemma_backward_offset(month_end(year, month), weekday.index(), weeks);
}

/// The last day of a month.
pub fn end_of_month(yy: i32, mm: u32) -> (r: Date)
    requires
        mm <= 12,
        valid_ymd(month_after(yy as int, mm as int).0, month_after(yy as int, mm as int).1, 1),
        in_range(month_end(yy as int, mm as int)),
    ensures
        r.wf(),
        r@ == month_end(yy as int, mm as int),
{
    let mut yy: i32 = yy;
    let mut mm: u32 = mm;
    proof {
        lemma_days_before_month_table(yy as int);
        lemma_days_before_year_step(yy as int);
    }
    if mm == 12 {
        yy += 1;
        mm = 1;
    } else {
        mm += 1;
    }
    let first: Date = Date::from_ymd_opt(yy, mm, 1).unwrap();
    first.checked_add_days(-1).unwrap()
}

/// The `occurrence`-th `weekday` of a month, counted from its first day.
pub fn find_weekday_ascending(weekday: Weekday, yy: i32, mm: u32, occurrence: u32) -> (r: Date)
    requires
        valid_ymd(yy as int, mm as int, 1),
        in_range(weekday_from_start(weekday, yy as int, mm as int, occurrence as int)),
    ensures
        r.wf(),
        r@ == weekday_from_start(weekday, yy as int, mm as int, occurrence as int),
{
    let anchor: Date = Date::from_ymd_opt(yy, mm, 1).unwrap();
    proof {
        lemma_weekday_period(anchor@);
    }
    let mut offset: u32 = (weekday.number_from_monday() + 7
        - anchor.weekday().number_from_monday()) % 7;

    if occurrence > 1 {
        offset += 7 * (occurrence - 1);
    }
    anchor.checked_add_days(offset as i32).unwrap()
}

/// The `occurrence`-th `weekday` of a month, counted back from its last day.
pub fn find_weekday_descending(weekday: Weekday, yy: i32, mm: u32, occurrence: u32) -> (r: Date)
    requires
        mm <= 12,
        valid_ymd(month_after(yy as int, mm as int).0, month_after(yy as int, mm as int).1, 1),
        in_range(month_end(yy as int, mm as int)),
        in_range(weekday_from_end(weekday, yy as int, mm as int, occurrence as int)),
    ensures
        r.wf(),
        r@ == weekday_from_end(weekday, yy as int, mm as int, occurrence as int),
{
    let anchor: Date = end_of_month(yy, mm);
    proof {
        lemma_weekday_period(anchor@);
    }
    let mut offset: u32 = (anchor.weekday().number_from_monday() + 7
        - weekday.number_from_monday()) % 7;

    if occurrence > 1 {
        offset += 7 * (occurrence - 1);
    }
    anchor.checked_add_days(-(offset as i32)).unwrap()
}

/// What `find_weekday` returns: the day counted from the start of the month
/// or from its end.
pub open spec fn find_weekday_spec(
    weekday: Weekday,
    year: int,
    month: int,
    occurrence: int,
    ascending: bool,
) -> int {
    if ascending {
        weekday_from_start(weekday, year, month, occurrence)
    } else {
        weekday_from_end(weekday, year, month, occurrence)
    }
}

/// The `occurrence`-th `weekday` of a month, counted from its first day if
/// `ascending`, else back from its last day.
pub fn find_weekday(weekday: Weekday, yy: i32, mm: u32, occurrence: u32, ascending: bool) -> (r:
    Date)
    requires
        ascending ==> valid_ymd(yy as int, mm as int, 1),
        !ascending ==> mm <= 12 && valid_ymd(
            month_after(yy as int, mm as int).0,
            month_after(yy as int, mm as int).1,
            1,
        ) && in_range(month_end(yy as int, mm as int)),
        in_range(find_weekday_spec(weekday, yy as int, mm as int, occurrence as int, ascending)),
    ensures
        r.wf(),
        r@ == find_weekday_spec(weekday, yy as int, mm as int, occurrence as int, ascending),
{
    if ascending {
        find_weekday_ascending(weekday, yy, mm, occurrence)
    } else {
        find_weekday_descending(weekday, yy, mm, occurrence)
    }
}

/// In the United States, if a holiday falls on Saturday, it's observed on the preceding Friday.
/// If it falls on Sunday, it's observed on the next Monday.
pub fn adjust_weekend_holidays_us(date: Date) -> (r: Option<Date>)
    requires
        date.wf(),
    ensures
        is_day(r, observed_day(date@)),
{
    proof {
        lemma_weekday_period(date@);
    }
    match date.weekday() {
        Weekday::Sat => date.checked_add_days(-1),
        Weekday::Sun => date.checked_add_days(1),
        _ => Some(date),
    }
}

/// Whether the holiday `holiday` is observed on `date`.
fn observed_on(holiday: Date, date: Date) -> (r: bool)
    requires
        holiday.wf(),
        date.wf(),
    ensures
        r == (observed_day(holiday@) == date@),
{
    match adjust_weekend_holidays_us(holiday) {
        Some(observed) => observed.num_days_from_ce() == date.num_days_from_ce(),
        None => false,
    }
}

/// The federal holidays of the United States.
pub open spec fn us_federal_holiday(day: int) -> bool {
    let year = year_of(day);
    // New Year's Day
    ||| observed_day(ymd_to_days(year, 1, 1)) == day
    // New Year's Day on the previous year when 1st Jan is Saturday
    ||| (month_of(day) == 12 && day_of(day) == 31 && weekday_index(day) == 4)
    // Birthday of Martin Luther King, Jr.
    ||| (year >= 1983 && observed_day(weekday_from_start(Weekday::Mon, year, 1, 3)) == day)
    // Washington's Birthday
    ||| observed_day(weekday_from_start(Weekday::Mon, year, 2, 3)) == day
    // Memorial Day
    ||| observed_day(weekday_from_end(Weekday::Mon, year, 5, 1)) == day
    // Juneteenth
    ||| (year >= 2021 && observed_day(ymd_to_days(year, 6, 19)) == day)
    // Independence Day
    ||| observed_day(ymd_to_days(year, 7, 4)) == day
    // Labor Day
    ||| observed_day(weekday_from_start(Weekday::Mon, year, 9, 1)) == day
    // Columbus Day
    ||| observed_day(weekday_from_start(Weekday::Mon, year, 10, 2)) == day
    // Veterans Day
    ||| observed_day(ymd_to_days(year, 11, 11)) == day
    // Thanksgiving Day
    ||| observed_day(weekday_from_start(Weekday::Thu, year, 11, 4)) == day
    // Christmas
    ||| observed_day(ymd_to_days(year, 12, 25)) == day
}

/// In a year that can be represented, the days of the first four weeks of
/// each month and those of its last week can be represented too.
proof fn lemma_month_in_range(year: int, month: int)
    requires
        crate::civil::MIN_YEAR <= year <= crate::civil::MAX_YEAR,
        1 <= month <= 12,
    ensures
        valid_ymd(year, month, 1),
        in_range(ymd_to_days(year, month, 1)),
        in_range(ymd_to_days(year, month, 1) + 27),
        in_range(month_end(year, month)),
        in_range(month_end(year, month) - 6),
        month_end(year, month) - 27 >= ymd_to_days(year, month, 1),
{
    lemma_valid_ymd_in_range(year, month, 1);
    lemma_valid_ymd_in_range(year, month, 28);
    lemma_days_before_month_table(year);
    lemma_days_before_year_step(year);
    reveal_with_fuel(crate::civil::days_before_month, 2);
}

/// United States federal holidays.
pub struct USSettlement;

impl HolidayCalendar for USSettlement {
    open spec fn rules(&self) -> HolidayRules {
        |day: int| Ok::<bool, CalendarError>(us_federal_holiday(day))
    }

    fn is_holiday(&self, date: Date) -> (r: Result<bool, CalendarError>) {
        let (yy, mm, dd): (i32, u32, u32) = (date.year(), date.month(), date.day());
        let dt_naive: Date = date;
        proof {
            lemma_year_in_range(date@);
            lemma_weekday_period(date@);
            lemma_month_in_range(yy as int, 1);
            lemma_month_in_range(yy as int, 2);
            lemma_month_in_range(yy as int, 5);
            lemma_month_in_range(yy as int, 6);
            lemma_month_in_range(yy as int, 7);
            lemma_month_in_range(yy as int, 9);
            lemma_month_in_range(yy as int, 10);
            lemma_month_in_range(yy as int, 11);
            lemma_month_in_range(yy as int, 12);
            lemma_weekday_found(Weekday::Mon, yy as int, 1, 1);
            lemma_weekday_found(Weekday::Mon, yy as int, 2, 1);
            lemma_weekday_found(Weekday::Mon, yy as int, 5, 1);
            lemma_weekday_found(Weekday::Mon, yy as int, 9, 1);
            lemma_weekday_found(Weekday::Mon, yy as int, 10, 1);
            lemma_weekday_found(Weekday::Thu, yy as int, 11, 1);
        }

        if
        // New Year's Day
        observed_on(Date::from_ymd_opt(yy, 1, 1).unwrap(), dt_naive)
            ||
        // New Year's Day on the previous year when 1st Jan is Saturday
        (mm == 12 && dd == 31 && dt_naive.weekday() == Weekday::Fri)
            ||
        // Birthday of Martin Luther King, Jr.
        (yy >= 1983 && observed_on(find_weekday(Weekday::Mon, yy, 1, 3, true), dt_naive))
            ||
        // Washington's Birthday
        observed_on(find_weekday(Weekday::Mon, yy, 2, 3, true), dt_naive)
            ||
        // Memorial Day
        observed_on(find_weekday(Weekday::Mon, yy, 5, 1, false), dt_naive)
            ||
        // Juneteenth
        (yy >= 2021 && observed_on(Date::from_ymd_opt(yy, 6, 19).unwrap(), dt_naive))
            ||
        // Independence Day
        observed_on(Date::from_ymd_opt(yy, 7, 4).unwrap(), dt_naive)
            ||
        // Labor Day
        observed_on(find_weekday(Weekday::Mon, yy, 9, 1, true), dt_naive)
            ||
        // Columbus Day
        observed_on(find_weekday(Weekday::Mon, yy, 10, 2, true), dt_naive)
            ||
        // Veterans Day
        observed_on(Date::from_ymd_opt(yy, 11, 11).unwrap(), dt_naive)
            ||
        // Thanksgiving Day
        observed_on(find_weekday(Weekday::Thu, yy, 11, 4, true), dt_naive)
            ||
        // Christmas
        observed_on(Date::from_ymd_opt(yy, 12, 25).unwrap(), dt_naive) {
            return Ok(true)
        }
        Ok(false)
    }
}

} // verus!
