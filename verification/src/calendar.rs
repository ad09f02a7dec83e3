//! Holiday calendars and the business day arithmetic that every calendar shares.
//!
//! A calendar says of each day whether it is a holiday. From that alone follow
//! what a business day is, the nearest business day to a date, the date a
//! number of business days on, and the number of business days between two
//! dates. The specification functions of this file define those four on day
//! numbers; the methods of `HolidayCalendar` compute them on dates.

use crate::civil::{in_range, is_weekend_day, MAX_DAYS, MIN_DAYS};
use crate::date::Date;
use crate::easter::EasterError;
use crate::step::{is_weekend, next_date};
use vstd::prelude::*;

verus! {

/// What can go wrong when a calendar is asked.
#[derive(Clone, Copy, Debug, PartialEq, Eq, Structural)]
pub enum CalendarError {
    /// A holiday rule needed Easter for a year that has none.
    YearOutOfRange(EasterError),
    /// A range of dates was given with its first date after its last.
    InvalidRange,
    /// The date lies outside the dates that the calendar answers for.
    OutOfRange,
}

/// Holiday rules as a function of the day number: `Ok(true)` for a holiday,
/// `Ok(false)` for a day that is none, an error where the rules give no answer.
pub type HolidayRules = spec_fn(int) -> Result<bool, CalendarError>;

/// What `is_bday` answers for the day `day`.
///
/// A day outside the calendar's range is an error. Otherwise a weekend is
/// never a business day, whatever the holiday rules say of it; on the other
/// days the holiday rules decide, and their error is the answer's error.
pub open spec fn bday_spec(rules: HolidayRules, day: int) -> Result<
    bool,
    CalendarError,
> {
    match rules(day) {
        Err(CalendarError::OutOfRange) => Err(CalendarError::OutOfRange),
        Err(e) => if is_weekend_day(day) {
            Ok(false)
        } else {
            Err(e)
        },
        Ok(holiday) => Ok(!is_weekend_day(day) && !holiday),
    }
}

/// The answer of `is_bday` on any day number: beyond the dates that can be
/// represented there is nothing to ask.
pub open spec fn day_answer(rules: HolidayRules, day: int) -> Result<
    bool,
    CalendarError,
> {
    if in_range(day) {
        bday_spec(rules, day)
    } else {
        Err(CalendarError::OutOfRange)
    }
}

/// One day on from `day` in the direction `forward`.
pub open spec fn step_spec(day: int, forward: bool) -> int {
    if forward {
        day + 1
    } else {
        day - 1
    }
}

/// How far a walk in the direction `forward` can still go from `day`.
pub open spec fn days_left(day: int, forward: bool) -> int {
    if forward {
        MAX_DAYS + 1 - day
    } else {
        day - MIN_DAYS + 1
    }
}

/// The nearest business day to `day` in the direction `forward`, `day` itself
/// included: the first day on the way that is a business day. A day on the
/// way that gives an error ends the search with that error.
pub open spec fn snap_spec(rules: HolidayRules, day: int, forward: bool) -> Result<
    int,
    CalendarError,
>
    decreases days_left(day, forward),
{
    match day_answer(rules, day) {
        Err(e) => Err(e),
        Ok(true) => Ok(day),
        Ok(false) => snap_spec(rules, step_spec(day, forward), forward),
    }
}

/// The business day reached from `day` by `count` hops in the direction
/// `forward`. A hop goes to the nearest business day after the day it starts
/// from (before it, when going back).
pub open spec fn hops_spec(
    rules: HolidayRules,
    day: int,
    forward: bool,
    count: nat,
) -> Result<int, CalendarError>
    decreases count,
{
    if count == 0 {
        Ok(day)
    } else {
        match snap_spec(rules, step_spec(day, forward), forward) {
            Err(e) => Err(e),
            Ok(next) => hops_spec(rules, next, forward, (count - 1) as nat),
        }
    }
}

/// The date `count` business days on from `day`: `day` is first moved forward
/// to a business day, and from there `count` hops are made, forward for a
/// positive `count` and back for a negative one.
pub open spec fn advance_spec(rules: HolidayRules, day: int, count: int) -> Result<
    int,
    CalendarError,
> {
    match snap_spec(rules, day, true) {
        Err(e) => Err(e),
        Ok(start) => hops_spec(
            rules,
            start,
            count > 0,
            (if count >= 0 {
                count
            } else {
                -count
            }) as nat,
        ),
    }
}

/// The number of business days from `from` up to, and without, `to`. A day
/// among them that gives an error makes the count that error; the first such
/// day decides.
pub open spec fn tally_spec(rules: HolidayRules, from: int, to: int) -> Result<
    int,
    CalendarError,
>
    decreases to - from,
{
    if from >= to {
        Ok(0)
    } else {
        match day_answer(rules, from) {
            Err(e) => Err(e),
            Ok(open) => match tally_spec(rules, from + 1, to) {
                Err(e) => Err(e),
                Ok(rest) => Ok(
                    rest + (if open {
                        1int
                    } else {
                        0int
                    }),
                ),
            },
        }
    }
}

/// The number of business days between `d0` and `d1`: both are moved forward
/// to a business day, and the business days from the one up to the other are
/// counted, with a minus sign where the second comes first.
pub open spec fn bdays_spec(rules: HolidayRules, d0: int, d1: int) -> Result<
    int,
    CalendarError,
> {
    match snap_spec(rules, d0, true) {
        Err(e) => Err(e),
        Ok(s0) => match snap_spec(rules, d1, true) {
            Err(e) => Err(e),
            Ok(s1) => if s0 <= s1 {
                tally_spec(rules, s0, s1)
            } else {
                match tally_spec(rules, s1, s0) {
                    Err(e) => Err(e),
                    Ok(n) => Ok(-n),
                }
            },
        },
    }
}

/// The day number of a date that was found, or the error.
pub open spec fn day_number(r: Result<Date, CalendarError>) -> Result<int, CalendarError> {
    match r {
        Ok(date) => Ok(date@),
        Err(e) => Err(e),
    }
}

/// A count as a mathematical integer, or the error.
pub open spec fn amount(r: Result<i32, CalendarError>) -> Result<int, CalendarError> {
    match r {
        Ok(n) => Ok(n as int),
        Err(e) => Err(e),
    }
}

/// Abstraction for a Holiday Calendar.
///
/// A calendar is given by its `rules`, which say for each day number
/// whether the day is a holiday, or with which error the calendar refuses to
/// say. The other methods are the same for every calendar; one that overrides
/// them has to return what they return.
pub trait HolidayCalendar {
    /// The calendar's holiday rules: for each day number, whether the day is
    /// a holiday, or the error that the calendar gives for it.
    spec fn rules(&self) -> HolidayRules;

    /// Returns `true` if `date` is a holiday.
    fn is_holiday(&self, date: Date) -> (r: Result<bool, CalendarError>)
        requires
            date.wf(),
        ensures
            r == (self.rules())(date@),
    ;

    /// Returns `true` if `date` is a Business Day.
    /// A Business Day is defined as a weekday that is not a holiday.
    fn is_bday(&self, date: Date) -> (r: Result<bool, CalendarError>)
        requires
            date.wf(),
        ensures
            r == bday_spec(self.rules(), date@),
    {
        match self.is_holiday(date) {
            Err(CalendarError::OutOfRange) => Err(CalendarError::OutOfRange),
            Err(e) => if is_weekend(date) {
                Ok(false)
            } else {
                Err(e)
            },
            Ok(holiday) => Ok(!(is_weekend(date) || holiday)),
        }
    }

    /// Adjusts `date` to the last/next business day if it's not a business day.
    ///
    /// Fails with the error of the first day on the way that the calendar
    /// gives one for, and with `OutOfRange` where the way ends with the dates
    /// that can be represented.
    fn to_bday(&self, date: Date, adjust_next: bool) -> (r: Result<Date, CalendarError>)
        requires
            date.wf(),
        ensures
            day_number(r) == snap_spec(self.rules(), date@, adjust_next),
            r matches Ok(d) ==> d.wf(),
            bday_spec(self.rules(), date@) == Ok::<bool, CalendarError>(true) ==> r == Ok::<
                Date,
                CalendarError,
            >(date),
    {
        let mut current: Date = date;
        loop
            invariant
                date.wf(),
                current.wf(),
                snap_spec(self.rules(), current@, adjust_next) == snap_spec(
                    self.rules(),
                    date@,
                    adjust_next,
                ),
            decreases days_left(current@, adjust_next),
        {
            match self.is_bday(current) {
                Err(e) => {
                    return Err(e);
                },
                Ok(true) => {
                    proof {
                        Date::lemma_view_injective(current, date);
                    }
                    return Ok(current);
                },
                Ok(false) => {},
            }
            let at_end: bool = if adjust_next {
                current.num_days_from_ce() >= MAX_DAYS
            } else {
                current.num_days_from_ce() <= MIN_DAYS
            };
            if at_end {
                assert(snap_spec(self.rules(), step_spec(current@, adjust_next), adjust_next)
                    == Err::<int, CalendarError>(CalendarError::OutOfRange));
                return Err(CalendarError::OutOfRange);
            }
            current = next_date(current, adjust_next);
        }
    }

    /// Advances `bdays_count` number of business days from `date`.
    ///
    /// `date` is first adjusted to the next business day; that day is not
    /// counted. Fails where a search for a business day on the way fails.
    fn advance_bdays(&self, date: Date, bdays_count: i32) -> (r: Result<Date, CalendarError>)
        requires
            date.wf(),
        ensures
            day_number(r) == advance_spec(self.rules(), date@, bdays_count as int),
            r matches Ok(d) ==> d.wf(),
    {
        let start: Date = match self.to_bday(date, true) {
            Ok(d) => d,
            Err(e) => {
                return Err(e);
            },
        };
        if bdays_count == 0 {
            return Ok(start);
        }
        let inc_fwd: bool = bdays_count > 0;
        let total: u32 = if bdays_count > 0 {
            bdays_count as u32
        } else {
            (-(bdays_count as i64)) as u32
        };
        let mut current: Date = start;
        let mut num_iterations: u32 = total;
        while num_iterations > 0
            invariant
                current.wf(),
                snap_spec(self.rules(), date@, true) == Ok::<int, CalendarError>(start@),
                bdays_count != 0,
                inc_fwd == (bdays_count > 0),
                total == (if bdays_count >= 0 {
                    bdays_count as int
                } else {
                    -(bdays_count as int)
                }),
                hops_spec(self.rules(), current@, inc_fwd, num_iterations as nat) == hops_spec(
                    self.rules(),
                    start@,
                    inc_fwd,
                    total as nat,
                ),
            decreases num_iterations,
        {
            let at_end: bool = if inc_fwd {
                current.num_days_from_ce() >= MAX_DAYS
            } else {
                current.num_days_from_ce() <= MIN_DAYS
            };
            if at_end {
                assert(snap_spec(self.rules(), step_spec(current@, inc_fwd), inc_fwd)
                    == Err::<int, CalendarError>(CalendarError::OutOfRange));
                return Err(CalendarError::OutOfRange);
            }
            current = next_date(current, inc_fwd);
            // Looks for previous / next Business Day
            current = match self.to_bday(current, inc_fwd) {
                Ok(d) => d,
                Err(e) => {
                    return Err(e);
                },
            };
            num_iterations -= 1;
        }
        Ok(current)
    }

    /// Returns the number of business days between `d0` and `d1`.
    ///
    /// Both dates are first adjusted to the next business day. The number is
    /// negative where `d1` then comes before `d0`. Fails where one of the
    /// two searches fails, or a day between gives an error.
    fn bdays(&self, d0: Date, d1: Date) -> (r: Result<i32, CalendarError>)
        requires
            d0.wf(),
            d1.wf(),
        ensures
            amount(r) == bdays_spec(self.rules(), d0@, d1@),
    {
        let s0: Date = match self.to_bday(d0, true) {
            Ok(d) => d,
            Err(e) => {
                return Err(e);
            },
        };
        let s1: Date = match self.to_bday(d1, true) {
            Ok(d) => d,
            Err(e) => {
                return Err(e);
            },
        };
        let forward: bool = s0.num_days_from_ce() <= s1.num_days_from_ce();
        let (first, to): (Date, Date) = if forward {
            (s0, s1)
        } else {
            (s1, s0)
        };
        let mut from: Date = first;
        let mut hops: i32 = 0;
        proof {
            lemma_snap_lands(self.rules(), d0@, true);
            lemma_snap_lands(self.rules(), d1@, true);
        }
        while from.num_days_from_ce() < to.num_days_from_ce()
            invariant
                from.wf(),
                to.wf(),
                first.wf(),
                snap_spec(self.rules(), d0@, true) == Ok::<int, CalendarError>(s0@),
                snap_spec(self.rules(), d1@, true) == Ok::<int, CalendarError>(s1@),
                forward == (s0@ <= s1@),
                forward ==> first@ == s0@ && to@ == s1@,
                !forward ==> first@ == s1@ && to@ == s0@,
                first@ <= from@ <= to@,
                0 <= hops <= from@ - first@,
                day_answer(self.rules(), from@) == Ok::<bool, CalendarError>(true),
                day_answer(self.rules(), to@) == Ok::<bool, CalendarError>(true),
                tally_spec(self.rules(), first@, to@) == (match tally_spec(
                    self.rules(),
                    from@,
                    to@,
                ) {
                    Ok(n) => Ok::<int, CalendarError>(n + hops),
                    Err(e) => Err(e),
                }),
            decreases to@ - from@,
        {
            proof {
                lemma_tally_hop(self.rules(), from@, to@);
                reveal_with_fuel(hops_spec, 2);
                lemma_snap_lands(self.rules(), from@ + 1, true);
            }
            from = match self.advance_bdays(from, 1) {
                Ok(d) => d,
                Err(e) => {
                    return Err(e);
                },
            };
            hops += 1;
        }
        if forward {
            Ok(hops)
        } else {
            Ok(-hops)
        }
    }
}

/// Where a search ends: on a business day, with only days that are none
/// between the start and it.
pub proof fn lemma_snap_lands(rules: HolidayRules, day: int, forward: bool)
    ensures
        snap_spec(rules, day, forward) matches Ok(found) ==> {
            &&& in_range(found)
            &&& day_answer(rules, found) == Ok::<bool, CalendarError>(true)
            &&& (forward ==> day <= found)
            &&& (!forward ==> found <= day)
        },
    decreases days_left(day, forward),
{
    if day_answer(rules, day) == Ok::<bool, CalendarError>(false) {
        lemma_snap_lands(rules, step_spec(day, forward), forward);
    }
}

/// Counting up to a business day `to` can skip the days that are none: the
/// count from `day` is the count from the nearest business day after it, and
/// where the search for that one fails, so does the count.
pub proof fn lemma_tally_snap(rules: HolidayRules, day: int, to: int)
    requires
        day <= to,
        day_answer(rules, to) == Ok::<bool, CalendarError>(true),
    ensures
        match snap_spec(rules, day, true) {
            Ok(found) => day <= found <= to && tally_spec(rules, day, to) == tally_spec(
            rules,
                found,
                to,
            ),
            Err(e) => tally_spec(rules, day, to) == Err::<int, CalendarError>(e),
        },
    decreases to - day,
{
    if day < to && day_answer(rules, day) == Ok::<bool, CalendarError>(false) {
        lemma_tally_snap(rules, day + 1, to);
    }
}

/// One hop forward from a business day `from`, on the way to a later business
/// day `to`, takes one business day off the count.
pub proof fn lemma_tally_hop(rules: HolidayRules, from: int, to: int)
    requires
        from < to,
        day_answer(rules, from) == Ok::<bool, CalendarError>(true),
        day_answer(rules, to) == Ok::<bool, CalendarError>(true),
    ensures
        snap_spec(rules, from, true) == Ok::<int, CalendarError>(from),
        match snap_spec(rules, from + 1, true) {
            Ok(found) => from < found <= to && (match tally_spec(rules, found, to) {
                Ok(n) => tally_spec(rules, from, to) == Ok::<int, CalendarError>(n + 1),
                Err(e) => tally_spec(rules, from, to) == Err::<int, CalendarError>(e),
            }),
            Err(e) => tally_spec(rules, from, to) == Err::<int, CalendarError>(e),
        },
{
    lemma_tally_snap(rules, from + 1, to);
}

/// A count over a stretch of days is the sum of the counts over its two
/// parts, and fails where the first of the parts to fail does.
pub proof fn lemma_tally_split(rules: HolidayRules, from: int, mid: int, to: int)
    requires
        from <= mid <= to,
    ensures
        tally_spec(rules, from, to) == (match tally_spec(rules, from, mid) {
            Err(e) => Err::<int, CalendarError>(e),
            Ok(head) => match tally_spec(rules, mid, to) {
                Err(e) => Err(e),
                Ok(tail) => Ok(head + tail),
            },
        }),
    decreases mid - from,
{
    if from < mid {
        lemma_tally_split(rules, from + 1, mid, to);
    }
}

} // verus!
