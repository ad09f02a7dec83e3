//! What holds of the business day arithmetic of every calendar.

use crate::calendar::{
    advance_spec, bdays_spec, day_answer, days_left, hops_spec, lemma_snap_lands,
    lemma_tally_hop, lemma_tally_split, snap_spec, step_spec, tally_spec, CalendarError,
    HolidayRules,
};
use vstd::prelude::*;

verus! {

/// Whether `day` lies on the way from `from` to `to` in the direction
/// `forward`, `from` included and `to` not.
pub open spec fn on_the_way(from: int, day: int, to: int, forward: bool) -> bool {
    if forward {
        from <= day < to
    } else {
        to < day <= from
    }
}

/// Whether no day on the way from `from` to `to` is a business day, and
/// none gives an error.
pub open spec fn closed_on_the_way(rules: HolidayRules, from: int, to: int, forward: bool) -> bool {
    forall|day: int|
        on_the_way(from, day, to, forward) ==> #[trigger] day_answer(rules, day) == Ok::<
            bool,
            CalendarError,
        >(false)
}

/// A business day is its own nearest business day, in both directions.
pub proof fn lemma_to_bday_of_bday(rules: HolidayRules, day: int, forward: bool)
    requires
        day_answer(rules, day) == Ok::<bool, CalendarError>(true),
    ensures
        snap_spec(rules, day, true) == Ok::<int, CalendarError>(day),
        snap_spec(rules, day, false) == Ok::<int, CalendarError>(day),
        snap_spec(rules, day, forward) == Ok::<int, CalendarError>(day),
{
}

/// The days that a search passes over are no business days.
pub proof fn lemma_snap_passes_closed(rules: HolidayRules, from: int, forward: bool)
    ensures
        snap_spec(rules, from, forward) matches Ok(found) ==> closed_on_the_way(
            rules,
            from,
            found,
            forward,
        ),
    decreases days_left(from, forward),
{
    if day_answer(rules, from) == Ok::<bool, CalendarError>(false) {
        lemma_snap_passes_closed(rules, step_spec(from, forward), forward);
        lemma_snap_lands(rules, step_spec(from, forward), forward);
    }
}

/// A search that starts among days that are no business days finds what a
/// search from the end of those days finds.
pub proof fn lemma_snap_skips_closed(rules: HolidayRules, from: int, to: int, forward: bool)
    requires
        forward ==> from <= to,
        !forward ==> to <= from,
        closed_on_the_way(rules, from, to, forward),
    ensures
        snap_spec(rules, from, forward) == snap_spec(rules, to, forward),
    decreases
            (if forward {
                to - from
            } else {
                from - to
            }),
{
    if from != to {
        assert(on_the_way(from, from, to, forward));
        lemma_snap_skips_closed(rules, step_spec(from, forward), to, forward);
    }
}

/// A hop can be taken back: from where it ends, a hop in the other
/// direction ends where it began.
pub proof fn lemma_hop_back(rules: HolidayRules, from: int, forward: bool)
    requires
        day_answer(rules, from) == Ok::<bool, CalendarError>(true),
    ensures
        snap_spec(rules, step_spec(from, forward), forward) matches Ok(found) ==> {
            &&& day_answer(rules, found) == Ok::<bool, CalendarError>(true)
            &&& snap_spec(rules, step_spec(found, !forward), !forward) == Ok::<
                int,
                CalendarError,
            >(from)
        },
{
    let first = step_spec(from, forward);
    if let Ok(found) = snap_spec(rules, first, forward) {
        lemma_snap_lands(rules, first, forward);
        lemma_snap_passes_closed(rules, first, forward);
        let back = step_spec(found, !forward);
        assert forall|day: int| on_the_way(back, day, from, !forward) implies #[trigger] day_answer(
            rules,
            day,
        ) == Ok::<bool, CalendarError>(false) by {
            assert(on_the_way(first, day, found, forward));
        }
        lemma_snap_skips_closed(rules, back, from, !forward);
    }
}

/// One hop more is a hop from where the hops before it end.
pub proof fn lemma_hops_last(rules: HolidayRules, from: int, forward: bool, count: nat)
    ensures
        hops_spec(rules, from, forward, count + 1) == (match hops_spec(
            rules,
            from,
            forward,
            count,
        ) {
            Ok(there) => snap_spec(rules, step_spec(there, forward), forward),
            Err(e) => Err(e),
        }),
    decreases count,
{
    reveal_with_fuel(hops_spec, 2);
    if count > 0 {
        if let Ok(next) = snap_spec(rules, step_spec(from, forward), forward) {
            lemma_hops_last(rules, next, forward, (count - 1) as nat);
        }
    }
}

/// Hops can be taken back: from where they end, as many hops in the other
/// direction end where they began.
pub proof fn lemma_hops_back(rules: HolidayRules, from: int, forward: bool, count: nat)
    requires
        day_answer(rules, from) == Ok::<bool, CalendarError>(true),
    ensures
        hops_spec(rules, from, forward, count) matches Ok(there) ==> {
            &&& day_answer(rules, there) == Ok::<bool, CalendarError>(true)
            &&& hops_spec(rules, there, !forward, count) == Ok::<int, CalendarError>(from)
        },
    decreases count,
{
    if count > 0 {
        if let Ok(next) = snap_spec(rules, step_spec(from, forward), forward) {
            lemma_hop_back(rules, from, forward);
            lemma_hops_back(rules, next, forward, (count - 1) as nat);
            if let Ok(there) = hops_spec(rules, next, forward, (count - 1) as nat) {
                lemma_hops_last(rules, there, !forward, (count - 1) as nat);
            }
        }
    }
}

/// Advancing by a number of business days and then by as many back ends on
/// the business day that the start was moved forward to.
pub proof fn lemma_advance_inverse(rules: HolidayRules, day: int, count: int)
    requires
        advance_spec(rules, day, count) is Ok,
    ensures
        advance_spec(rules, day, count) matches Ok(there) && advance_spec(rules, there, -count)
            == snap_spec(rules, day, true),
{
    lemma_snap_lands(rules, day, true);
    let start = snap_spec(rules, day, true)->Ok_0;
    let size = (if count >= 0 {
        count
    } else {
        -count
    }) as nat;
    lemma_hops_back(rules, start, count > 0, size);
    let there = hops_spec(rules, start, count > 0, size)->Ok_0;
    lemma_to_bday_of_bday(rules, there, true);
}

/// The number of business days from `d1` to `d0` is that from `d0` to `d1`
/// with the other sign, and the one fails where the other does.
pub proof fn lemma_bdays_antisymmetric(rules: HolidayRules, d0: int, d1: int)
    ensures
        match (bdays_spec(rules, d0, d1), bdays_spec(rules, d1, d0)) {
            (Ok(there), Ok(back)) => there == -back,
            (Err(_), Err(_)) => true,
            _ => false,
        },
{
}

/// Two dates that are moved forward to the same business day have no
/// business days between them, in either order.
pub proof fn lemma_bdays_same_snap(rules: HolidayRules, d0: int, d1: int)
    requires
        snap_spec(rules, d0, true) is Ok,
        snap_spec(rules, d0, true) == snap_spec(rules, d1, true),
    ensures
        bdays_spec(rules, d0, d1) == Ok::<int, CalendarError>(0),
        bdays_spec(rules, d1, d0) == Ok::<int, CalendarError>(0),
{
}

/// The hops from a business day count the business days passed: where
/// `count` hops forward end, `count` business days lie between.
pub proof fn lemma_hops_tally(rules: HolidayRules, from: int, count: nat)
    requires
        day_answer(rules, from) == Ok::<bool, CalendarError>(true),
    ensures
        hops_spec(rules, from, true, count) matches Ok(there) ==> {
            &&& from <= there
            &&& tally_spec(rules, from, there) == Ok::<int, CalendarError>(count as int)
        },
    decreases count,
{
    if count > 0 {
        if let Ok(next) = snap_spec(rules, from + 1, true) {
            lemma_snap_lands(rules, from + 1, true);
            lemma_hops_tally(rules, next, (count - 1) as nat);
            if let Ok(there) = hops_spec(rules, next, true, (count - 1) as nat) {
                lemma_tally_hop(rules, from, next);
                lemma_tally_split(rules, from, next, there);
            }
        }
    }
}

/// From a date to the date a number of business days on, that number of
/// business days lies between.
pub proof fn lemma_bdays_of_advance(rules: HolidayRules, day: int, count: int)
    requires
        advance_spec(rules, day, count) is Ok,
    ensures
        advance_spec(rules, day, count) matches Ok(there) && bdays_spec(rules, day, there)
            == Ok::<int, CalendarError>(count),
{
    lemma_snap_lands(rules, day, true);
    let start = snap_spec(rules, day, true)->Ok_0;
    let size = (if count >= 0 {
        count
    } else {
        -count
    }) as nat;
    let there = hops_spec(rules, start, count > 0, size)->Ok_0;
    lemma_hops_back(rules, start, count > 0, size);
    lemma_to_bday_of_bday(rules, there, true);
    if count > 0 {
        lemma_hops_tally(rules, start, size);
    } else if count < 0 {
        lemma_hops_tally(rules, there, size);
    }
}

/// Days that are no business days add nothing to a count.
pub proof fn lemma_tally_of_closed(rules: HolidayRules, from: int, to: int)
    requires
        from <= to,
        closed_on_the_way(rules, from, to, true),
    ensures
        tally_spec(rules, from, to) == Ok::<int, CalendarError>(0),
    decreases to - from,
{
    if from < to {
        assert(on_the_way(from, from, to, true));
        assert forall|day: int| on_the_way(from + 1, day, to, true) implies #[trigger] day_answer(
            rules,
            day,
        ) == Ok::<bool, CalendarError>(false) by {
            assert(on_the_way(from, day, to, true));
        }
        lemma_tally_of_closed(rules, from + 1, to);
    }
}

/// The number of business days between two dates in their order is the
/// number of business days from the first up to, and without, the second:
/// to move both forward to a business day does not change the count.
pub proof fn lemma_bdays_counts(rules: HolidayRules, d0: int, d1: int)
    requires
        d0 <= d1,
        bdays_spec(rules, d0, d1) is Ok,
    ensures
        bdays_spec(rules, d0, d1) == tally_spec(rules, d0, d1),
{
    lemma_snap_lands(rules, d0, true);
    lemma_snap_lands(rules, d1, true);
    lemma_snap_passes_closed(rules, d0, true);
    lemma_snap_passes_closed(rules, d1, true);
    let s0 = snap_spec(rules, d0, true)->Ok_0;
    let s1 = snap_spec(rules, d1, true)->Ok_0;
    if s1 < s0 {
        assert(on_the_way(d0, s1, s0, true));
    }
    lemma_tally_of_closed(rules, d1, s1);
    if s0 <= d1 {
        lemma_tally_of_closed(rules, d0, s0);
        lemma_tally_split(rules, d0, s0, d1);
        lemma_tally_split(rules, s0, d1, s1);
    } else {
        assert forall|day: int| on_the_way(d0, day, d1, true) implies #[trigger] day_answer(
            rules,
            day,
        ) == Ok::<bool, CalendarError>(false) by {
            assert(on_the_way(d0, day, s0, true));
        }
        lemma_tally_of_closed(rules, d0, d1);
        if s0 < s1 {
            assert(on_the_way(d1, s0, s1, true));
        }
    }
}

} // verus!
