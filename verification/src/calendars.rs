//! A set of holiday calendars built into the crate.

use crate::calendar::{
    bday_spec, day_answer, lemma_tally_split, tally_spec, CalendarError, HolidayCalendar,
    HolidayRules,
};
use crate::civil::{in_range, is_weekend_day, lemma_weekday_period, weekday_index};
use crate::date::{weekday_of, Date, Weekday};
use vstd::prelude::*;

/// Holiday Calendars for Brazil.
pub mod brazil;

/// Holiday Calendars for the German states.
pub mod de;

/// Holiday Calendars for the United States.
pub mod us;

verus! {

/// The `WeekendsOnly` holiday calendar always returns `false` for method `is_holiday`.
/// So `is_bday` method returns `false` only for weekend dates.
pub struct WeekendsOnly;

/// Rules without any holiday.
pub open spec fn no_holidays() -> HolidayRules {
    |day: int| Ok::<bool, CalendarError>(false)
}

/// For `WeekendsOnly`, the business days are the days from Monday to Friday.
pub proof fn lemma_weekends_only_bday(day: int)
    ensures
        bday_spec(WeekendsOnly.rules(), day) == Ok::<bool, CalendarError>(!is_weekend_day(day)),
        bday_spec(no_holidays(), day) == Ok::<bool, CalendarError>(!is_weekend_day(day)),
        in_range(day) ==> day_answer(no_holidays(), day) == Ok::<bool, CalendarError>(
            weekday_index(day) < 5,
        ),
{
}

/// Without holidays, any seven days in a row hold five business days.
pub proof fn lemma_week_has_five(from: int)
    requires
        in_range(from),
        in_range(from + 6),
    ensures
        tally_spec(no_holidays(), from, from + 7) == Ok::<int, CalendarError>(5),
{
    reveal_with_fuel(tally_spec, 8);
    lemma_weekends_only_bday(from);
    lemma_weekends_only_bday(from + 1);
    lemma_weekends_only_bday(from + 2);
    lemma_weekends_only_bday(from + 3);
    lemma_weekends_only_bday(from + 4);
    lemma_weekends_only_bday(from + 5);
    lemma_weekends_only_bday(from + 6);
}

/// Without holidays, any number of whole weeks holds five business days each.
pub proof fn lemma_weeks_have_five(from: int, weeks: int)
    requires
        0 <= weeks,
        in_range(from),
        in_range(from + 7 * weeks - 1) || weeks == 0,
    ensures
        tally_spec(no_holidays(), from, from + 7 * weeks) == Ok::<int, CalendarError>(5 * weeks),
    decreases weeks,
{
    if weeks > 0 {
        lemma_weeks_have_five(from, weeks - 1);
        let mid = from + 7 * (weeks - 1);
        lemma_week_has_five(mid);
        lemma_tally_split(no_holidays(), from, mid, from + 7 * weeks);
    }
}

impl HolidayCalendar for WeekendsOnly {
    open spec fn rules(&self) -> HolidayRules {
        no_holidays()
    }

    fn is_holiday(&self, _date: Date) -> (r: Result<bool, CalendarError>) {
        Ok(false)
    }

    /// Counts by whole weeks: each holds five business days, and only the
    /// days that are left over are looked at one by one.
    fn bdays(&self, d0: Date, d1: Date) -> (r: Result<i32, CalendarError>) {
        let s0: Date = match self.to_bday(d0, true) {
            Ok(d) => d,
            Err(e) => {
                return Err(e);
            },
        };
        let s1: Date = match self.to_bday(d1, true) {
            Ok(d) => d,
            Err(e) => {
                return Err(e);
            },
        };
        if s0.num_days_from_ce() == s1.num_days_from_ce() {
            return Ok(0);
        }
        let swapped: bool = s1.num_days_from_ce() < s0.num_days_from_ce();
        let (from, to): (Date, Date) = if swapped {
            (s1, s0)
        } else {
            (s0, s1)
        };
        let days: i32 = to.num_days_from_ce() - from.num_days_from_ce();
        let whole_weeks: i32 = days / 7;
        let mut result: i32 = whole_weeks * 5;
        let mut current: Date = from.checked_add_days(whole_weeks * 7).unwrap();
        proof {
            lemma_weeks_have_five(from@, whole_weeks as int);
        }
        if current.num_days_from_ce() < to.num_days_from_ce() {
            let mut day_of_week: Weekday = current.weekday();
            while current.num_days_from_ce() < to.num_days_from_ce()
                invariant
                    from.wf(),
                    to.wf(),
                    current.wf(),
                    from@ <= current@ <= to@,
                    to@ - from@ < 7 * (whole_weeks + 1),
                    from@ + 7 * whole_weeks <= current@,
                    0 <= whole_weeks,
                    day_of_week == weekday_of(current@),
                    5 * whole_weeks <= result <= 5 * whole_weeks + (current@ - from@ - 7
                        * whole_weeks),
                    tally_spec(no_holidays(), from@, current@) == Ok::<int, CalendarError>(
                        result as int,
                    ),
                decreases to@ - current@,
            {
                proof {
                    lemma_tally_split(no_holidays(), from@, current@, current@ + 1);
                    reveal_with_fuel(tally_spec, 2);
                    lemma_weekends_only_bday(current@);
                    lemma_weekday_period(current@);
                    lemma_weekday_period(current@ + 1);
                }
                if day_of_week.number_from_monday() < 6 {
                    result += 1;
                }
                current = Date::from_num_days_from_ce_opt(current.num_days_from_ce() + 1).unwrap();
                day_of_week = day_of_week.succ();
            }
        }
        if swapped {
            result = -result;
        }
        Ok(result)
    }
}

} // verus!
