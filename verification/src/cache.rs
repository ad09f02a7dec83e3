//! A calendar with its answers computed in advance for a range of dates.

use crate::calendar::{
    bday_spec, bdays_spec, day_answer, lemma_snap_lands, snap_spec, tally_spec, CalendarError,
    HolidayCalendar, HolidayRules,
};
use crate::civil::is_weekend_day;
use crate::date::Date;
use crate::step::next_date;
use vstd::prelude::*;

verus! {

/// The number of `true` among the first `n` entries of `flags`.
pub open spec fn count_true(flags: Seq<bool>, n: int) -> int
    decreases n,
{
    if n <= 0 {
        0
    } else {
        count_true(flags, n - 1) + (if flags[n - 1] {
            1int
        } else {
            0int
        })
    }
}

/// The first error that `rules` give on the days from `from` to `to`, both
/// included, if they give one.
pub open spec fn first_failure(rules: HolidayRules, from: int, to: int) -> Option<CalendarError>
    decreases to - from + 1,
{
    if from > to {
        None
    } else {
        match rules(from) {
            Err(e) => Some(e),
            Ok(_) => first_failure(rules, from + 1, to),
        }
    }
}

/// Whether building a cache failed with the error `e`.
pub open spec fn failed_with(
    r: Result<HolidayCalendarCache, CalendarError>,
    e: CalendarError,
) -> bool {
    match r {
        Err(found) => found == e,
        Ok(_) => false,
    }
}

/// Caches business days calculation for a given holiday calendar
/// and a given range of dates. Implements the `HolidayCalendar` trait.
///
/// The three tables have one entry for each day from `dt_min` to `dt_max`:
/// whether the day is a holiday, whether it is a business day, and how many
/// business days come before it in the range.
pub struct HolidayCalendarCache {
    is_holiday_vec: Vec<bool>,
    is_bday_vec: Vec<bool>,
    bdays_counter_vec: Vec<i32>,
    dt_min: Date,
    dt_max: Date,
}

impl HolidayCalendarCache {
    /// What holds of every cache: the range is not empty, the tables cover
    /// it, the business days are the days that are neither weekend nor
    /// holiday, and each counter is the number of business days before its day.
    #[verifier::type_invariant]
    pub closed spec fn wf(&self) -> bool {
        &&& self.dt_min.wf()
        &&& self.dt_max.wf()
        &&& self.dt_min@ <= self.dt_max@
        &&& self.is_holiday_vec@.len() == self.dt_max@ - self.dt_min@ + 1
        &&& self.is_bday_vec@.len() == self.is_holiday_vec@.len()
        &&& self.bdays_counter_vec@.len() == self.is_holiday_vec@.len()
        &&& forall|i: int|
            0 <= i < self.is_bday_vec@.len() ==> #[trigger] self.is_bday_vec@[i] == (
            !is_weekend_day(self.dt_min@ + i) && !self.is_holiday_vec@[i])
        &&& forall|i: int|
            0 <= i < self.bdays_counter_vec@.len() ==> #[trigger] self.bdays_counter_vec@[i]
                == count_true(self.is_bday_vec@, i)
    }

    /// The day number of the first day of the range.
    pub closed spec fn min_day(&self) -> int {
        self.dt_min@
    }

    /// The day number of the last day of the range.
    pub closed spec fn max_day(&self) -> int {
        self.dt_max@
    }

    /// Whether the cache holds the day `day` as a holiday.
    pub closed spec fn holiday_at(&self, day: int) -> bool {
        self.is_holiday_vec@[day - self.dt_min@]
    }

    /// The number of business days that the cache holds from the first day
    /// of the range up to, and without, the day `day`.
    pub closed spec fn bdays_before(&self, day: int) -> int {
        count_true(self.is_bday_vec@, day - self.dt_min@)
    }

    /// Whether the cache holds, for every day of its range, the answer that
    /// `rules` give for it.
    pub open spec fn mirrors(&self, rules: HolidayRules) -> bool {
        forall|day: int|
            self.min_day() <= day <= self.max_day() ==> #[trigger] rules(day) == Ok::<
                bool,
                CalendarError,
            >(self.holiday_at(day))
    }

    /// Within its range, a cache says of holidays and of business days what
    /// the rules say that it was built from.
    pub proof fn lemma_same_answers(&self, rules: HolidayRules, day: int)
        requires
            self.wf(),
            self.mirrors(rules),
            self.min_day() <= day <= self.max_day(),
        ensures
            (self.rules())(day) == rules(day),
            bday_spec(self.rules(), day) == bday_spec(rules, day),
            day_answer(self.rules(), day) == day_answer(rules, day),
    {
    }

    /// Where a cache finds the nearest business day after a day of its
    /// range, the rules that it was built from find the same day.
    pub proof fn lemma_same_snap(&self, rules: HolidayRules, day: int)
        requires
            self.wf(),
            self.mirrors(rules),
            self.min_day() <= day,
        ensures
            snap_spec(self.rules(), day, true) matches Ok(found) ==> {
                &&& day <= found <= self.max_day()
                &&& snap_spec(rules, day, true) == Ok::<int, CalendarError>(found)
            },
        decreases self.max_day() + 1 - day,
    {
        if day <= self.max_day() {
            self.lemma_same_answers(rules, day);
            if day_answer(rules, day) == Ok::<bool, CalendarError>(false) {
                self.lemma_same_snap(rules, day + 1);
            }
        }
    }

    /// Over days of its range, a cache counts the business days that the
    /// rules count that it was built from.
    pub proof fn lemma_same_tally(&self, rules: HolidayRules, from: int, to: int)
        requires
            self.wf(),
            self.mirrors(rules),
            self.min_day() <= from <= to <= self.max_day(),
        ensures
            tally_spec(self.rules(), from, to) == tally_spec(rules, from, to),
        decreases to - from,
    {
        if from < to {
            self.lemma_same_answers(rules, from);
            self.lemma_same_tally(rules, from + 1, to);
        }
    }

    /// For two days of its range, a cache that gives a number of business
    /// days between them gives the number that the rules give that it was
    /// built from. (It gives none where a day has to be moved forward beyond
    /// the range.)
    pub proof fn lemma_same_bdays(&self, rules: HolidayRules, d0: int, d1: int)
        requires
            self.wf(),
            self.mirrors(rules),
            self.min_day() <= d0 <= self.max_day(),
            self.min_day() <= d1 <= self.max_day(),
            bdays_spec(self.rules(), d0, d1) is Ok,
        ensures
            bdays_spec(self.rules(), d0, d1) == bdays_spec(rules, d0, d1),
    {
        self.lemma_same_snap(rules, d0);
        self.lemma_same_snap(rules, d1);
        let s0 = snap_spec(self.rules(), d0, true)->Ok_0;
        let s1 = snap_spec(self.rules(), d1, true)->Ok_0;
        if s0 <= s1 {
            self.lemma_same_tally(rules, s0, s1);
        } else {
            self.lemma_same_tally(rules, s1, s0);
        }
    }

    /// A date outside the range of a cache gets `OutOfRange` from every
    /// question, and so does a pair of dates of which one lies outside.
    pub proof fn lemma_out_of_range(&self, day: int, other: int)
        requires
            self.wf(),
            !(self.min_day() <= day <= self.max_day()),
        ensures
            (self.rules())(day) == Err::<bool, CalendarError>(CalendarError::OutOfRange),
            bday_spec(self.rules(), day) == Err::<bool, CalendarError>(CalendarError::OutOfRange),
            snap_spec(self.rules(), day, true) == Err::<int, CalendarError>(
                CalendarError::OutOfRange,
            ),
            bdays_spec(self.rules(), day, other) is Err,
            bdays_spec(self.rules(), other, day) is Err,
            bdays_spec(self.rules(), day, other) == Err::<int, CalendarError>(
                CalendarError::OutOfRange,
            ),
            snap_spec(self.rules(), other, true) is Ok ==> bdays_spec(self.rules(), other, day)
                == Err::<int, CalendarError>(CalendarError::OutOfRange),
    {
    }

    /// Creates `HolidayCalendarCache` that caches business days calculation
    /// in the range of dates from `dt_min` to `dt_max`.
    ///
    /// Fails with `InvalidRange` if `dt_min` is after `dt_max`, and with the
    /// calendar's own error if it gives one for a day of the range.
    pub fn new<H: HolidayCalendar>(calendar: H, dt_min: Date, dt_max: Date) -> (r: Result<
        HolidayCalendarCache,
        CalendarError,
    >)
        requires
            dt_min.wf(),
            dt_max.wf(),
        ensures
            dt_min@ > dt_max@ ==> failed_with(r, CalendarError::InvalidRange),
            dt_min@ <= dt_max@ ==> match first_failure(calendar.rules(), dt_min@, dt_max@) {
                Some(failure) => failed_with(r, failure),
                None => r is Ok,
            },
            r matches Ok(cache) ==> {
                &&& cache.wf()
                &&& cache.min_day() == dt_min@
                &&& cache.max_day() == dt_max@
                &&& cache.mirrors(calendar.rules())
            },
    {
        if dt_min.num_days_from_ce() > dt_max.num_days_from_ce() {
            return Err(CalendarError::InvalidRange);
        }
        let len: usize = (dt_max.num_days_from_ce() - dt_min.num_days_from_ce() + 1) as usize;
        let mut is_holiday_vec: Vec<bool> = Vec::with_capacity(len);
        let mut is_bday_vec: Vec<bool> = Vec::with_capacity(len);
        let mut bdays_counter_vec: Vec<i32> = Vec::with_capacity(len);

        let mut bdays_counter: i32 = 0;
        let mut dt: Date = dt_min;
        let mut i: usize = 0;
        while i < len
            invariant
                dt_min.wf(),
                dt_max.wf(),
                dt_min@ <= dt_max@,
                len == dt_max@ - dt_min@ + 1,
                0 <= i <= len,
                i < len ==> dt.wf() && dt@ == dt_min@ + i,
                is_holiday_vec@.len() == i,
                is_bday_vec@.len() == i,
                bdays_counter_vec@.len() == i,
                bdays_counter == count_true(is_bday_vec@, i as int),
                0 <= bdays_counter <= i,
                first_failure(calendar.rules(), dt_min@ + i, dt_max@) == first_failure(
                    calendar.rules(),
                    dt_min@,
                    dt_max@,
                ),
                forall|k: int|
                    0 <= k < i ==> #[trigger] (calendar.rules())(dt_min@ + k) == Ok::<
                        bool,
                        CalendarError,
                    >(is_holiday_vec@[k]),
                forall|k: int|
                    0 <= k < i ==> #[trigger] is_bday_vec@[k] == (!is_weekend_day(dt_min@ + k)
                        && !is_holiday_vec@[k]),
                forall|k: int|
                    0 <= k < i ==> #[trigger] bdays_counter_vec@[k] == count_true(is_bday_vec@, k),
            decreases len - i,
        {
            let dt_is_holiday: bool = match calendar.is_holiday(dt) {
                Ok(answer) => answer,
                Err(e) => {
                    return Err(e);
                },
            };
            let dt_is_bday: bool = match calendar.is_bday(dt) {
                Ok(answer) => answer,
                Err(e) => {
                    return Err(e);
                },
            };
            let ghost bdays_so_far = is_bday_vec@;
            bdays_counter_vec.push(bdays_counter);
            is_bday_vec.push(dt_is_bday);
            is_holiday_vec.push(dt_is_holiday);
            proof {
                lemma_count_true_prefix(bdays_so_far, is_bday_vec@, i as int);
                assert forall|k: int| 0 <= k <= i implies count_true(bdays_so_far, k)
                    == count_true(is_bday_vec@, k) by {
                    lemma_count_true_prefix(bdays_so_far, is_bday_vec@, k);
                }
            }
            if dt_is_bday {
                bdays_counter += 1;
            }
            i += 1;
            if i < len {
                dt = next_date(dt, true);
            }
        }

        let cache = HolidayCalendarCache {
            is_holiday_vec,
            is_bday_vec,
            bdays_counter_vec,
            dt_min,
            dt_max,
        };
        assert forall|day: int| dt_min@ <= day <= dt_max@ implies #[trigger] (calendar.rules())(day)
            == Ok::<bool, CalendarError>(cache.holiday_at(day)) by {
            let k = day - dt_min@;
            assert((calendar.rules())(dt_min@ + k) == Ok::<bool, CalendarError>(
                cache.is_holiday_vec@[k],
            ));
        }
        Ok(cache)
    }

    /// The place of `date` in the tables.
    fn row_index(&self, date: Date) -> (r: usize)
        requires
            self.wf(),
            self.min_day() <= date@ <= self.max_day(),
        ensures
            r == date@ - self.min_day(),
    {
        (date.num_days_from_ce() - self.dt_min.num_days_from_ce()) as usize
    }

    /// Refuses a date outside the range of the cache.
    fn assert_in_bounds(&self, date: Date) -> (r: Result<(), CalendarError>)
        ensures
            self.min_day() <= date@ <= self.max_day() ==> r is Ok,
            !(self.min_day() <= date@ <= self.max_day()) ==> r == Err::<(), CalendarError>(
                CalendarError::OutOfRange,
            ),
    {
        let days: i32 = date.num_days_from_ce();
        if days < self.dt_min.num_days_from_ce() || self.dt_max.num_days_from_ce() < days {
            Err(CalendarError::OutOfRange)
        } else {
            Ok(())
        }
    }

    /// Within the range of a cache, the count of business days between two
    /// days is the difference of their counters.
    pub proof fn lemma_tally(&self, from: int, to: int)
        requires
            self.wf(),
            self.min_day() <= from <= to <= self.max_day(),
        ensures
            tally_spec(self.rules(), from, to) == Ok::<int, CalendarError>(
                self.bdays_before(to) - self.bdays_before(from),
            ),
        decreases to - from,
    {
        if from < to {
            self.lemma_tally(from + 1, to);
            assert(self.is_bday_vec@[from - self.dt_min@] == (!is_weekend_day(from)
                && !self.is_holiday_vec@[from - self.dt_min@]));
        }
    }
}

/// Entries that are added at the end of `flags` leave the counts over its
/// first entries as they were.
pub proof fn lemma_count_true_prefix(flags: Seq<bool>, longer: Seq<bool>, n: int)
    requires
        n <= flags.len() <= longer.len(),
        forall|k: int| 0 <= k < flags.len() ==> flags[k] == longer[k],
    ensures
        count_true(flags, n) == count_true(longer, n),
    decreases n,
{
    if n > 0 {
        lemma_count_true_prefix(flags, longer, n - 1);
    }
}

impl HolidayCalendar for HolidayCalendarCache {
    /// The rules of a cache are its table of holidays; outside its range it
    /// gives `OutOfRange`.
    open spec fn rules(&self) -> HolidayRules {
        |day: int|
            if self.min_day() <= day <= self.max_day() {
                Ok::<bool, CalendarError>(self.holiday_at(day))
            } else {
                Err::<bool, CalendarError>(CalendarError::OutOfRange)
            }
    }

    fn is_holiday(&self, date: Date) -> (r: Result<bool, CalendarError>) {
        proof {
            use_type_invariant(self);
        }
        match self.assert_in_bounds(date) {
            Err(e) => Err(e),
            Ok(()) => Ok(self.is_holiday_vec[self.row_index(date)]),
        }
    }

    fn is_bday(&self, date: Date) -> (r: Result<bool, CalendarError>) {
        proof {
            use_type_invariant(self);
        }
        match self.assert_in_bounds(date) {
            Err(e) => Err(e),
            Ok(()) => Ok(self.is_bday_vec[self.row_index(date)]),
        }
    }

    fn bdays(&self, d0: Date, d1: Date) -> (r: Result<i32, CalendarError>) {
        proof {
            use_type_invariant(self);
        }
        let s0: Date = match self.to_bday(d0, true) {
            Ok(d) => d,
            Err(e) => {
                return Err(e);
            },
        };
        let s1: Date = match self.to_bday(d1, true) {
            Ok(d) => d,
            Err(e) => {
                return Err(e);
            },
        };
        proof {
            lemma_snap_lands(self.rules(), d0@, true);
            lemma_snap_lands(self.rules(), d1@, true);
            if s0@ <= s1@ {
                self.lemma_tally(s0@, s1@);
            } else {
                self.lemma_tally(s1@, s0@);
            }
            lemma_count_true_bounds(self.is_bday_vec@, s0@ - self.dt_min@);
            lemma_count_true_bounds(self.is_bday_vec@, s1@ - self.dt_min@);
        }
        Ok(
            self.bdays_counter_vec[self.row_index(s1)] - self.bdays_counter_vec[self.row_index(
                s0,
            )],
        )
    }
}

/// A count over the first `n` entries lies between 0 and `n`.
pub proof fn lemma_count_true_bounds(flags: Seq<bool>, n: int)
    requires
        0 <= n,
    ensures
        0 <= count_true(flags, n) <= n,
    decreases n,
{
    if n > 0 {
        lemma_count_true_bounds(flags, n - 1);
    }
}

} // verus!
