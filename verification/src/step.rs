//! Weekends, and the step from one day to the next.

use crate::civil::{
    is_weekend_day, lemma_civil_of_days, lemma_days_before_month_table,
    lemma_days_before_year_monotonic, lemma_days_before_year_step, lemma_days_of_civil,
    lemma_range_bounds, lemma_weekday_period, lemma_year_in_range, lemma_year_of, year_of,
    MAX_DAYS, MAX_YEAR, MIN_DAYS, MIN_YEAR,
};
use crate::date::{Date, Weekday};
use vstd::prelude::*;

verus! {

/// Returns `true` if `date` occurs on a Saturday or a Sunday.
pub fn is_weekend(date: Date) -> (r: bool)
    requires
        date.wf(),
    ensures
        r == is_weekend_day(date@),
{
    proof {
        lemma_weekday_period(date@);
    }
    match date.weekday() {
        Weekday::Sat | Weekday::Sun => true,
        _ => false,
    }
}

/// Returns `true` if `date` does not occur on a weekend.
pub fn is_weekday(date: Date) -> (r: bool)
    requires
        date.wf(),
    ensures
        r == !is_weekend_day(date@),
{
    !is_weekend(date)
}

/// The day after `date` (if `fwd`) or the day before it.
///
/// The step is taken on the day of the year; where the year has no such day,
/// it goes over to the first day of the next year or to the last day of the
/// year before. There is no day after the last date that can be represented,
/// and none before the first.
pub fn next_date(date: Date, fwd: bool) -> (r: Date)
    requires
        date.wf(),
        fwd ==> date@ < MAX_DAYS,
        !fwd ==> date@ > MIN_DAYS,
    ensures
        r.wf(),
        r@ == date@ + (if fwd {
            1int
        } else {
            -1int
        }),
{
    let ordinal: u32 = date.ordinal();
    let target: u32 = if fwd {
        ordinal + 1
    } else {
        ordinal - 1
    };
    let ghost year = year_of(date@);
    proof {
        lemma_year_of(date@);
        lemma_year_in_range(date@);
        lemma_civil_of_days(date@);
        lemma_range_bounds();
        lemma_days_before_month_table(year);
        lemma_days_before_year_step(year);
    }
    match date.with_ordinal(target) {
        Some(dt) => dt,
        None => {
            if fwd {
                proof {
                    // The date is December 31, and not that of the last year.
                    lemma_days_of_civil(year, 12, 31);
                    if year >= MAX_YEAR {
                        lemma_days_before_year_monotonic(MAX_YEAR + 1, year + 1);
                    }
                    lemma_days_of_civil(year + 1, 12, 31);
                    lemma_days_before_month_table(year + 1);
                    lemma_days_before_year_step(year + 1);
                }
                let same_day: Date = date.with_year(date.year() + 1).unwrap();
                same_day.with_ordinal(1).unwrap()
            } else {
                proof {
                    // The date is January 1, and not that of the first year.
                    lemma_days_of_civil(year, 1, 1);
                    if year <= MIN_YEAR {
                        lemma_days_before_year_monotonic(year, MIN_YEAR as int);
                    }
                    lemma_days_before_month_table(year - 1);
                    lemma_days_before_year_step(year - 1);
                    lemma_days_of_civil(year - 1, 1, 1);
                    lemma_days_of_civil(year - 1, 12, 1);
                }
                let same_day: Date = date.with_year(date.year() - 1).unwrap();
                same_day.with_month(12).unwrap().with_day(31).unwrap()
            }
        },
    }
}

} // verus!
