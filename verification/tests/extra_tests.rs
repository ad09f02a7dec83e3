use bdays::calendars::brazil::{BRSettlement, BrazilExchange};
use bdays::calendars::de::{GermanState, GermanStateHoliday};
use bdays::calendars::us::{adjust_weekend_holidays_us, find_weekday_ascending, find_weekday_descending, USSettlement};
use bdays::calendars::WeekendsOnly;
use bdays::civil::{MAX_DAYS, MAX_YEAR, MIN_DAYS};
use bdays::easter::{easter_naive_date, easter_num_days_from_ce, with_range_note, EasterError};
use bdays::{
    is_weekday, is_weekend, next_date, CalendarError, Date, HolidayCalendar, HolidayCalendarCache,
    Weekday,
};

fn ymd(year: i32, month: u32, day: u32) -> Date {
    Date::from_ymd_opt(year, month, day).expect("Valid date")
}

fn day(number: i32) -> Date {
    Date::from_num_days_from_ce_opt(number).expect("Valid date")
}

// Dates

#[test]
fn date_from_ymd_gives_day_number() {
    assert_eq!(ymd(1, 1, 1).num_days_from_ce(), 1);
    assert_eq!(ymd(2, 1, 1).num_days_from_ce(), 366);
    assert_eq!(ymd(0, 1, 1).num_days_from_ce(), -365);
    assert_eq!(ymd(1970, 1, 1).num_days_from_ce(), 719_163);
    assert_eq!(ymd(2016, 2, 29).num_days_from_ce(), 736_023);
}

#[test]
fn date_from_ymd_refuses_what_is_no_date() {
    assert_eq!(Date::from_ymd_opt(2015, 0, 14), None);
    assert_eq!(Date::from_ymd_opt(2015, 13, 1), None);
    assert_eq!(Date::from_ymd_opt(2015, 2, 29), None);
    assert_eq!(Date::from_ymd_opt(2015, 4, 31), None);
    assert_eq!(Date::from_ymd_opt(2015, 4, 0), None);
    assert_eq!(Date::from_ymd_opt(400000, 1, 1), None);
    assert_eq!(Date::from_ymd_opt(-400000, 1, 1), None);
    assert!(Date::from_ymd_opt(-4, 2, 29).is_some());
    assert!(Date::from_ymd_opt(2000, 2, 29).is_some());
    assert_eq!(Date::from_ymd_opt(1900, 2, 29), None);
}

#[test]
fn date_from_day_number_keeps_to_the_range() {
    assert_eq!(Date::from_num_days_from_ce_opt(730_000), Some(ymd(1999, 9, 3)));
    assert_eq!(Date::from_num_days_from_ce_opt(1), Some(ymd(1, 1, 1)));
    assert_eq!(Date::from_num_days_from_ce_opt(0), Some(ymd(0, 12, 31)));
    assert_eq!(Date::from_num_days_from_ce_opt(100_000_000), None);
    assert_eq!(Date::from_num_days_from_ce_opt(-100_000_000), None);
    assert_eq!(Date::from_num_days_from_ce_opt(MAX_DAYS), Some(ymd(MAX_YEAR, 12, 31)));
    assert_eq!(Date::from_num_days_from_ce_opt(MAX_DAYS + 1), None);
    assert_eq!(Date::from_num_days_from_ce_opt(MIN_DAYS), Some(ymd(-262143, 1, 1)));
    assert_eq!(Date::from_num_days_from_ce_opt(MIN_DAYS - 1), None);
}

#[test]
fn date_parts_of_a_day_number() {
    let date = day(730_000);
    assert_eq!(date.year(), 1999);
    assert_eq!(date.month(), 9);
    assert_eq!(date.day(), 3);
    assert_eq!(date.ordinal(), 246);
    assert_eq!(date.weekday(), Weekday::Fri);
    let leap = ymd(2016, 12, 31);
    assert_eq!(leap.ordinal(), 366);
    assert_eq!(leap.weekday(), Weekday::Sat);
    assert_eq!(day(1).weekday(), Weekday::Mon);
    assert_eq!(day(0).year(), 0);
    assert_eq!(day(0).month(), 12);
    assert_eq!(day(0).day(), 31);
}

#[test]
fn date_with_parts_changed() {
    let date = ymd(2015, 1, 1);
    assert_eq!(date.with_ordinal(60), Some(ymd(2015, 3, 1)));
    assert_eq!(date.with_ordinal(366), None);
    assert_eq!(date.with_ordinal(0), None);
    assert_eq!(ymd(2016, 1, 1).with_ordinal(60), Some(ymd(2016, 2, 29)));
    assert_eq!(ymd(2016, 1, 1).with_ordinal(366), Some(ymd(2016, 12, 31)));
    assert_eq!(ymd(2016, 2, 29).with_year(2015), None);
    assert_eq!(ymd(2016, 2, 29).with_year(2020), Some(ymd(2020, 2, 29)));
    assert_eq!(ymd(2015, 9, 8).with_year(-308), Some(ymd(-308, 9, 8)));
    assert_eq!(ymd(2015, 9, 8).with_year(400000), None);
    assert_eq!(ymd(2015, 9, 8).with_month(10), Some(ymd(2015, 10, 8)));
    assert_eq!(ymd(2015, 9, 8).with_month(13), None);
    assert_eq!(ymd(2015, 9, 8).with_month(0), None);
    assert_eq!(ymd(2015, 9, 30).with_month(2), None);
    assert_eq!(ymd(2015, 9, 8).with_day(30), Some(ymd(2015, 9, 30)));
    assert_eq!(ymd(2015, 9, 8).with_day(31), None);
    assert_eq!(ymd(2015, 9, 8).with_day(0), None);
}

#[test]
fn date_days_added() {
    assert_eq!(ymd(2015, 9, 5).checked_add_days(40), Some(ymd(2015, 10, 15)));
    assert_eq!(ymd(2015, 9, 5).checked_add_days(-40), Some(ymd(2015, 7, 27)));
    assert_eq!(ymd(2015, 9, 5).checked_add_days(0), Some(ymd(2015, 9, 5)));
    assert_eq!(day(MAX_DAYS).checked_add_days(1), None);
    assert_eq!(day(MIN_DAYS).checked_add_days(-1), None);
    assert_eq!(day(MIN_DAYS).checked_add_days(i32::MIN), None);
    assert_eq!(day(MAX_DAYS).checked_add_days(i32::MAX), None);
}

#[test]
fn dates_are_ordered_by_day_number() {
    assert!(ymd(2018, 12, 31) < ymd(2019, 1, 1));
    assert!(ymd(-1, 12, 31) < ymd(1, 1, 1));
    assert_eq!(ymd(2019, 1, 1), day(ymd(2019, 1, 1).num_days_from_ce()));
}

#[test]
fn weekday_numbers_and_successors() {
    assert_eq!(Weekday::Mon.number_from_monday(), 1);
    assert_eq!(Weekday::Fri.number_from_monday(), 5);
    assert_eq!(Weekday::Sun.number_from_monday(), 7);
    assert_eq!(Weekday::Mon.succ(), Weekday::Tue);
    assert_eq!(Weekday::Sat.succ(), Weekday::Sun);
    assert_eq!(Weekday::Sun.succ(), Weekday::Mon);
}

// Stepping

#[test]
fn next_date_over_leap_days_and_years() {
    assert_eq!(next_date(ymd(2016, 2, 28), true), ymd(2016, 2, 29));
    assert_eq!(next_date(ymd(2016, 2, 29), true), ymd(2016, 3, 1));
    assert_eq!(next_date(ymd(2015, 2, 28), true), ymd(2015, 3, 1));
    assert_eq!(next_date(ymd(2016, 3, 1), false), ymd(2016, 2, 29));
    assert_eq!(next_date(ymd(2016, 12, 31), true), ymd(2017, 1, 1));
    assert_eq!(next_date(ymd(2017, 1, 1), false), ymd(2016, 12, 31));
    assert_eq!(next_date(ymd(0, 12, 31), true), ymd(1, 1, 1));
    assert_eq!(next_date(ymd(1, 1, 1), false), ymd(0, 12, 31));
}

#[test]
fn next_date_is_one_day_on_for_every_day_of_four_years() {
    let mut date = ymd(2015, 12, 30);
    while date < ymd(2020, 1, 2) {
        let next = next_date(date, true);
        assert_eq!(next.num_days_from_ce(), date.num_days_from_ce() + 1);
        assert_eq!(next_date(next, false), date);
        date = next;
    }
}

#[test]
fn next_date_at_the_ends_of_the_calendar() {
    assert_eq!(next_date(day(MAX_DAYS - 1), true), day(MAX_DAYS));
    assert_eq!(next_date(day(MAX_DAYS), false), day(MAX_DAYS - 1));
    assert_eq!(next_date(day(MIN_DAYS + 1), false), day(MIN_DAYS));
    assert_eq!(next_date(day(MIN_DAYS), true), day(MIN_DAYS + 1));
}

#[test]
fn weekend_is_saturday_and_sunday() {
    let monday = ymd(2018, 11, 26).num_days_from_ce();
    let expected = [false, false, false, false, false, true, true];
    for week in 0..3 {
        for (offset, weekend) in expected.iter().enumerate() {
            let date = day(monday + 7 * week + offset as i32);
            assert_eq!(is_weekend(date), *weekend);
            assert_eq!(is_weekday(date), !*weekend);
        }
    }
}

// Easter

#[test]
fn easter_day_numbers() {
    assert_eq!(easter_num_days_from_ce(2023), Ok(738_619));
    assert_eq!(easter_num_days_from_ce(2024), Ok(738_976));
    assert_eq!(easter_num_days_from_ce(1582), Ok(577_556));
    assert_eq!(easter_num_days_from_ce(4000), Ok(1_460_704));
    assert_eq!(easter_num_days_from_ce(MAX_YEAR), Ok(95_745_132));
}

#[test]
fn easter_is_a_sunday_in_march_or_april() {
    for year in 1582..3600 {
        let easter = easter_naive_date(year).expect("Easter");
        assert_eq!(easter.weekday(), Weekday::Sun);
        assert_eq!(easter.year(), year);
        assert!(ymd(year, 3, 22) <= easter && easter <= ymd(year, 4, 25));
    }
}

#[test]
fn easter_fails_before_the_gregorian_calendar() {
    assert_eq!(easter_num_days_from_ce(1581), Err(EasterError { y: 1581 }));
    assert_eq!(easter_num_days_from_ce(0), Err(EasterError { y: 0 }));
    assert_eq!(easter_num_days_from_ce(-5), Err(EasterError { y: -5 }));
    assert_eq!(easter_num_days_from_ce(i32::MIN), Err(EasterError { y: i32::MIN }));
    assert_eq!(easter_naive_date(1581), Err(EasterError { y: 1581 }));
    assert!(easter_naive_date(1582).is_ok());
}

#[test]
fn easter_fails_beyond_the_last_year() {
    assert!(easter_naive_date(MAX_YEAR).is_ok());
    assert_eq!(easter_num_days_from_ce(MAX_YEAR + 1), Err(EasterError { y: MAX_YEAR + 1 }));
    assert_eq!(easter_naive_date(i32::MAX), Err(EasterError { y: i32::MAX }));
}

#[test]
fn easter_error_description() {
    assert_eq!(
        EasterError { y: 1500 }.description_string(),
        "Couldn't parse easter date for year 1500. Current algorithm only works after year 1582."
    );
    assert_eq!(
        EasterError { y: 300000 }.description_string(),
        "Couldn't parse easter date for year 300000."
    );
    assert_eq!(
        EasterError { y: -7 }.description_string(),
        "Couldn't parse easter date for year -7. Current algorithm only works after year 1582."
    );
}

#[test]
fn range_note_is_added_before_1582_only() {
    assert_eq!(
        with_range_note(String::from("No."), 1581),
        "No. Current algorithm only works after year 1582."
    );
    assert_eq!(with_range_note(String::from("No."), 1582), "No.");
}

// The arithmetic of every calendar

#[test]
fn weekends_only_business_days_are_the_weekdays() {
    let cal = WeekendsOnly;
    let mut date = ymd(2019, 1, 1);
    while date < ymd(2019, 3, 1) {
        assert_eq!(cal.is_holiday(date), Ok(false));
        assert_eq!(cal.is_bday(date), Ok(!is_weekend(date)));
        date = next_date(date, true);
    }
}

#[test]
fn to_bday_leaves_a_business_day_where_it_is() {
    let calendars: (WeekendsOnly, BRSettlement, USSettlement) = (WeekendsOnly, BRSettlement, USSettlement);
    let mut date = ymd(2013, 1, 1);
    while date < ymd(2013, 4, 1) {
        if calendars.0.is_bday(date) == Ok(true) {
            assert_eq!(calendars.0.to_bday(date, true), Ok(date));
            assert_eq!(calendars.0.to_bday(date, false), Ok(date));
        }
        if calendars.1.is_bday(date) == Ok(true) {
            assert_eq!(calendars.1.to_bday(date, true), Ok(date));
            assert_eq!(calendars.1.to_bday(date, false), Ok(date));
        }
        if calendars.2.is_bday(date) == Ok(true) {
            assert_eq!(calendars.2.to_bday(date, true), Ok(date));
            assert_eq!(calendars.2.to_bday(date, false), Ok(date));
        }
        date = next_date(date, true);
    }
}

#[test]
fn to_bday_finds_the_nearest_business_day() {
    let cal = WeekendsOnly;
    let saturday = ymd(2018, 11, 24);
    let sunday = ymd(2018, 11, 25);
    assert_eq!(cal.to_bday(saturday, true), Ok(ymd(2018, 11, 26)));
    assert_eq!(cal.to_bday(sunday, true), Ok(ymd(2018, 11, 26)));
    assert_eq!(cal.to_bday(saturday, false), Ok(ymd(2018, 11, 23)));
    assert_eq!(cal.to_bday(sunday, false), Ok(ymd(2018, 11, 23)));
}

#[test]
fn advance_bdays_by_zero_moves_forward_to_a_business_day() {
    let cal = BRSettlement;
    assert_eq!(cal.advance_bdays(ymd(2013, 2, 9), 0), Ok(ymd(2013, 2, 13)));
    assert_eq!(cal.advance_bdays(ymd(2013, 2, 9), 1), Ok(ymd(2013, 2, 14)));
    assert_eq!(cal.advance_bdays(ymd(2013, 2, 9), -1), Ok(ymd(2013, 2, 8)));
}

#[test]
fn advance_bdays_there_and_back() {
    let cal = BRSettlement;
    let mut date = ymd(2013, 1, 25);
    while date < ymd(2013, 3, 5) {
        let start = cal.to_bday(date, true);
        for count in 1..30 {
            let there = cal.advance_bdays(date, count).expect("in range");
            assert_eq!(cal.advance_bdays(there, -count), start);
            let back = cal.advance_bdays(date, -count).expect("in range");
            assert_eq!(cal.advance_bdays(back, count), start);
        }
        date = next_date(date, true);
    }
}

#[test]
fn bdays_counts_the_hops_of_advance_bdays() {
    let cal = BRSettlement;
    let date = ymd(2013, 2, 6);
    for count in -40..40 {
        let there = cal.advance_bdays(date, count).expect("in range");
        assert_eq!(cal.bdays(date, there), Ok(count));
    }
}

#[test]
fn bdays_changes_its_sign_with_the_order() {
    let br = BRSettlement;
    let weekends = WeekendsOnly;
    let first = ymd(2013, 1, 20).num_days_from_ce();
    for i in 0..40 {
        for j in 0..40 {
            let (d0, d1) = (day(first + i), day(first + j));
            assert_eq!(br.bdays(d0, d1), br.bdays(d1, d0).map(|n| -n));
            assert_eq!(weekends.bdays(d0, d1), weekends.bdays(d1, d0).map(|n| -n));
        }
    }
}

#[test]
fn bdays_of_dates_that_move_to_the_same_business_day() {
    let cal = WeekendsOnly;
    assert_eq!(cal.bdays(ymd(2019, 8, 24), ymd(2019, 8, 25)), Ok(0));
    assert_eq!(cal.bdays(ymd(2019, 8, 25), ymd(2019, 8, 24)), Ok(0));
    assert_eq!(cal.bdays(ymd(2019, 8, 23), ymd(2019, 8, 24)), Ok(1));
}

#[test]
fn weekends_only_counts_as_every_calendar_does() {
    // A cache of the same rules counts with its own tables.
    let first = ymd(2019, 8, 1);
    let last = ymd(2019, 12, 31);
    let cached = HolidayCalendarCache::new(WeekendsOnly, first, last).expect("Valid range");
    let cal = WeekendsOnly;
    let start = first.num_days_from_ce();
    for i in (0..120).step_by(3) {
        for j in (0..120).step_by(5) {
            let (d0, d1) = (day(start + i), day(start + j));
            assert_eq!(cal.bdays(d0, d1), cached.bdays(d0, d1));
        }
    }
    assert_eq!(cal.bdays(ymd(2015, 6, 29), ymd(2100, 12, 20)), Ok(22300));
}

#[test]
fn business_days_between_brazilian_carnival() {
    let cal = BRSettlement;
    assert_eq!(cal.bdays(ymd(2013, 2, 6), ymd(2013, 2, 14)), Ok(4));
    assert_eq!(cal.is_bday(ymd(2013, 2, 11)), Ok(false));
    assert_eq!(cal.is_bday(ymd(2013, 2, 13)), Ok(true));
}

#[test]
fn arithmetic_ends_with_the_calendar() {
    let cal = WeekendsOnly;
    // The last date is a Monday, the first a Thursday.
    let last = day(MAX_DAYS);
    let first = day(MIN_DAYS);
    assert_eq!(cal.to_bday(last, true), Ok(last));
    assert_eq!(cal.to_bday(day(MAX_DAYS - 1), true), Ok(last));
    assert_eq!(cal.advance_bdays(last, 0), Ok(last));
    assert_eq!(cal.advance_bdays(last, 1), Err(CalendarError::OutOfRange));
    assert_eq!(cal.advance_bdays(last, -1), Ok(day(MAX_DAYS - 3)));
    assert_eq!(cal.advance_bdays(first, -1), Err(CalendarError::OutOfRange));
    assert_eq!(cal.advance_bdays(first, 1), Ok(day(MIN_DAYS + 1)));
    assert_eq!(cal.bdays(day(MAX_DAYS - 7), last), Ok(5));
    // A cache of the last weekend holds no business day.
    let weekend = HolidayCalendarCache::new(WeekendsOnly, day(MAX_DAYS - 2), day(MAX_DAYS - 1))
        .expect("Valid range");
    assert_eq!(weekend.to_bday(day(MAX_DAYS - 2), true), Err(CalendarError::OutOfRange));
}

// The cache

#[test]
fn cache_refuses_a_range_that_ends_before_it_begins() {
    let result = HolidayCalendarCache::new(BRSettlement, ymd(2020, 1, 2), ymd(2020, 1, 1));
    assert_eq!(result.err(), Some(CalendarError::InvalidRange));
    assert!(HolidayCalendarCache::new(BRSettlement, ymd(2020, 1, 1), ymd(2020, 1, 1)).is_ok());
}

#[test]
fn cache_refuses_dates_outside_its_range() {
    let cached = HolidayCalendarCache::new(BRSettlement, ymd(1980, 1, 1), ymd(2100, 12, 31))
        .expect("Valid range");
    let inside = ymd(2000, 1, 1);
    let after = ymd(2101, 1, 1);
    let before = ymd(1970, 1, 1);
    assert_eq!(cached.is_bday(after), Err(CalendarError::OutOfRange));
    assert_eq!(cached.is_holiday(after), Err(CalendarError::OutOfRange));
    assert_eq!(cached.is_bday(before), Err(CalendarError::OutOfRange));
    assert_eq!(cached.is_holiday(ymd(1979, 12, 31)), Err(CalendarError::OutOfRange));
    assert_eq!(cached.bdays(inside, after), Err(CalendarError::OutOfRange));
    assert_eq!(cached.bdays(after, inside), Err(CalendarError::OutOfRange));
    assert_eq!(cached.bdays(before, inside), Err(CalendarError::OutOfRange));
    assert_eq!(cached.bdays(inside, before), Err(CalendarError::OutOfRange));
    assert_eq!(cached.to_bday(after, true), Err(CalendarError::OutOfRange));
    assert_eq!(cached.advance_bdays(before, 3), Err(CalendarError::OutOfRange));
    // The cache goes on answering within its range.
    assert_eq!(cached.is_bday(inside), Ok(false));
    assert_eq!(cached.is_bday(ymd(1980, 1, 1)), Ok(false));
    assert_eq!(cached.is_bday(ymd(2100, 12, 31)), Ok(true));
}

#[test]
fn cache_refuses_to_look_beyond_its_range() {
    // The range ends on a Saturday.
    let cached = HolidayCalendarCache::new(WeekendsOnly, ymd(2019, 8, 19), ymd(2019, 8, 24))
        .expect("Valid range");
    assert_eq!(cached.to_bday(ymd(2019, 8, 24), true), Err(CalendarError::OutOfRange));
    assert_eq!(cached.to_bday(ymd(2019, 8, 24), false), Ok(ymd(2019, 8, 23)));
    assert_eq!(cached.bdays(ymd(2019, 8, 19), ymd(2019, 8, 24)), Err(CalendarError::OutOfRange));
    assert_eq!(cached.bdays(ymd(2019, 8, 19), ymd(2019, 8, 23)), Ok(4));
    assert_eq!(cached.advance_bdays(ymd(2019, 8, 19), 4), Ok(ymd(2019, 8, 23)));
    assert_eq!(cached.advance_bdays(ymd(2019, 8, 19), 5), Err(CalendarError::OutOfRange));
    assert_eq!(cached.advance_bdays(ymd(2019, 8, 19), -1), Err(CalendarError::OutOfRange));
}

#[test]
fn cache_answers_as_the_calendar_it_was_built_from() {
    let first = ymd(2012, 12, 20);
    let last = ymd(2013, 7, 10);
    let raw = BRSettlement;
    let cached = HolidayCalendarCache::new(BRSettlement, first, last).expect("Valid range");
    let mut date = first;
    while date <= last {
        assert_eq!(cached.is_holiday(date), raw.is_holiday(date));
        assert_eq!(cached.is_bday(date), raw.is_bday(date));
        if date < last {
            date = next_date(date, true);
        } else {
            break;
        }
    }
    // The last days of the range are left out: from them the cache would
    // have to look beyond it.
    let start = first.num_days_from_ce();
    for i in (0..180).step_by(7) {
        for j in (0..180).step_by(11) {
            let (d0, d1) = (day(start + i), day(start + j));
            assert_eq!(cached.bdays(d0, d1), raw.bdays(d0, d1));
            assert_eq!(cached.to_bday(d0, true), raw.to_bday(d0, true));
            assert_eq!(cached.advance_bdays(d0, 5), raw.advance_bdays(d0, 5));
        }
    }
}

#[test]
fn cache_of_a_single_day_and_of_the_last_days() {
    let monday = ymd(2019, 8, 26);
    let single = HolidayCalendarCache::new(WeekendsOnly, monday, monday).expect("Valid range");
    assert_eq!(single.is_bday(monday), Ok(true));
    assert_eq!(single.bdays(monday, monday), Ok(0));
    assert_eq!(single.advance_bdays(monday, 0), Ok(monday));
    let last = HolidayCalendarCache::new(WeekendsOnly, day(MAX_DAYS - 9), day(MAX_DAYS))
        .expect("Valid range");
    assert_eq!(last.is_bday(day(MAX_DAYS)), Ok(true));
    assert_eq!(last.bdays(day(MAX_DAYS - 9), day(MAX_DAYS)), Ok(5));
}

#[test]
fn cache_fails_with_the_error_of_its_calendar() {
    let result = HolidayCalendarCache::new(BRSettlement, ymd(1581, 12, 1), ymd(1582, 12, 31));
    assert!(result.is_ok());
    let result = HolidayCalendarCache::new(BRSettlement, ymd(1581, 1, 1), ymd(1582, 12, 31));
    assert_eq!(result.err(), Some(CalendarError::YearOutOfRange(EasterError { y: 1581 })));
    // A cache of a cache cannot reach beyond the first one.
    let inner = HolidayCalendarCache::new(WeekendsOnly, ymd(2019, 8, 19), ymd(2019, 8, 24))
        .expect("Valid range");
    let outer = HolidayCalendarCache::new(inner, ymd(2019, 8, 20), ymd(2019, 8, 26));
    assert_eq!(outer.err(), Some(CalendarError::OutOfRange));
}

// The calendars

#[test]
fn brazil_before_the_gregorian_calendar() {
    let cal = BRSettlement;
    let error = Err(CalendarError::YearOutOfRange(EasterError { y: 1500 }));
    // A Monday, a Saturday, a fixed holiday and a day of the second half of the year.
    assert_eq!(ymd(1500, 3, 5).weekday(), Weekday::Mon);
    assert_eq!(cal.is_holiday(ymd(1500, 3, 5)), error);
    assert_eq!(cal.is_bday(ymd(1500, 3, 5)), error);
    assert_eq!(cal.is_holiday(ymd(1500, 3, 10)), error);
    assert_eq!(cal.is_bday(ymd(1500, 3, 10)), Ok(false));
    assert_eq!(cal.is_holiday(ymd(1500, 4, 21)), Ok(true));
    assert_eq!(cal.is_holiday(ymd(1500, 9, 4)), Ok(false));
    assert_eq!(cal.is_holiday(ymd(1500, 9, 7)), Ok(true));
    assert_eq!(
        cal.to_bday(ymd(1500, 3, 10), true),
        Err(CalendarError::YearOutOfRange(EasterError { y: 1500 }))
    );
    assert_eq!(BrazilExchange.is_holiday(ymd(1500, 1, 25)), Ok(true));
    assert_eq!(BrazilExchange.is_holiday(ymd(1500, 1, 26)), error);
}

#[test]
fn brazil_exchange_last_business_day_of_the_year() {
    let cal = BrazilExchange;
    // In 2023 December 31 is a Sunday, and the Friday before it is the 29th.
    assert_eq!(cal.is_holiday(ymd(2023, 12, 29)), Ok(true));
    assert_eq!(cal.is_holiday(ymd(2023, 12, 28)), Ok(false));
    assert_eq!(cal.is_holiday(ymd(2023, 12, 31)), Ok(true));
    assert_eq!(cal.is_holiday(ymd(2024, 12, 30)), Ok(false));
    assert_eq!(cal.is_holiday(ymd(2006, 11, 20)), Ok(false));
    assert_eq!(cal.is_holiday(ymd(2007, 11, 20)), Ok(true));
}

#[test]
fn us_weekday_of_the_month() {
    assert_eq!(find_weekday_ascending(Weekday::Thu, 2015, 11, 4), ymd(2015, 11, 26));
    assert_eq!(find_weekday_ascending(Weekday::Sun, 2015, 11, 0), ymd(2015, 11, 1));
    assert_eq!(find_weekday_ascending(Weekday::Sun, 2015, 11, 1), ymd(2015, 11, 1));
    assert_eq!(find_weekday_descending(Weekday::Mon, 2015, 5, 1), ymd(2015, 5, 25));
    assert_eq!(find_weekday_descending(Weekday::Sun, 2015, 5, 1), ymd(2015, 5, 31));
    assert_eq!(find_weekday_descending(Weekday::Mon, 2015, 12, 1), ymd(2015, 12, 28));
    assert_eq!(find_weekday_descending(Weekday::Mon, 2015, 0, 1), ymd(2014, 12, 29));
}

#[test]
fn us_holidays_are_observed_next_to_the_weekend() {
    assert_eq!(adjust_weekend_holidays_us(ymd(2015, 7, 4)), Some(ymd(2015, 7, 3)));
    assert_eq!(adjust_weekend_holidays_us(ymd(2021, 7, 4)), Some(ymd(2021, 7, 5)));
    assert_eq!(adjust_weekend_holidays_us(ymd(2019, 7, 4)), Some(ymd(2019, 7, 4)));
    assert_eq!(adjust_weekend_holidays_us(day(MAX_DAYS)), Some(day(MAX_DAYS)));
    let cal = USSettlement;
    assert_eq!(cal.is_holiday(ymd(2021, 12, 31)), Ok(true));
    assert_eq!(cal.is_holiday(ymd(2022, 1, 1)), Ok(false));
    assert_eq!(cal.is_holiday(ymd(2023, 1, 2)), Ok(true));
    assert_eq!(cal.is_holiday(ymd(2023, 1, 1)), Ok(false));
    assert_eq!(cal.is_holiday(day(MIN_DAYS)), Ok(true));
    assert_eq!(cal.is_holiday(day(MAX_DAYS)), Ok(false));
}

#[test]
fn german_holiday_of_a_date() {
    assert_eq!(GermanStateHoliday::from_date(ymd(2023, 1, 1)), Some(GermanStateHoliday::NewYearsDay));
    assert_eq!(GermanStateHoliday::from_date(ymd(2023, 4, 7)), Some(GermanStateHoliday::GoodFriday));
    assert_eq!(GermanStateHoliday::from_date(ymd(2023, 4, 10)), Some(GermanStateHoliday::EasterMonday));
    assert_eq!(GermanStateHoliday::from_date(ymd(2023, 5, 18)), Some(GermanStateHoliday::AscensionDay));
    assert_eq!(GermanStateHoliday::from_date(ymd(2023, 5, 29)), Some(GermanStateHoliday::WhitMonday));
    assert_eq!(GermanStateHoliday::from_date(ymd(2023, 6, 8)), Some(GermanStateHoliday::CorpusChristi));
    assert_eq!(
        GermanStateHoliday::from_date(ymd(2023, 11, 22)),
        Some(GermanStateHoliday::RepentanceAndPrayerDay)
    );
    assert_eq!(
        GermanStateHoliday::from_date(ymd(2022, 11, 16)),
        Some(GermanStateHoliday::RepentanceAndPrayerDay)
    );
    assert_eq!(GermanStateHoliday::from_date(ymd(2022, 11, 23)), None);
    assert_eq!(GermanStateHoliday::from_date(ymd(2023, 11, 15)), None);
    assert_eq!(GermanStateHoliday::from_date(ymd(2023, 7, 15)), None);
    // In 2008 Ascension Day fell on May 1; Labour Day comes first in the list.
    assert_eq!(GermanStateHoliday::from_date(ymd(2008, 5, 1)), Some(GermanStateHoliday::LabourDay));
    // No Easter, no holidays.
    assert_eq!(GermanStateHoliday::from_date(ymd(1500, 1, 1)), None);
}

#[test]
fn german_holidays_list() {
    let all = GermanStateHoliday::holidays();
    assert_eq!(all.len(), 17);
    assert_eq!(all[0], GermanStateHoliday::NewYearsDay);
    assert_eq!(all[8], GermanStateHoliday::CorpusChristi);
    assert_eq!(all[16], GermanStateHoliday::SecondDayOfChristmas);
}

#[test]
fn german_states_keep_their_holidays() {
    assert!(GermanState::BE.has_holiday(GermanStateHoliday::InternationalWomensDay, 2019));
    assert!(!GermanState::BE.has_holiday(GermanStateHoliday::InternationalWomensDay, 2018));
    assert!(!GermanState::MV.has_holiday(GermanStateHoliday::InternationalWomensDay, 2022));
    assert!(GermanState::ANY.has_holiday(GermanStateHoliday::InternationalWomensDay, 2019));
    assert!(!GermanState::ANY.has_holiday(GermanStateHoliday::WorldChildrensDay, 2018));
    assert!(GermanState::NI.has_holiday(GermanStateHoliday::ReformationDay, 2018));
    assert!(!GermanState::NI.has_holiday(GermanStateHoliday::ReformationDay, 2016));
    assert!(GermanState::BY.has_holiday(GermanStateHoliday::ReformationDay, 2017));
    assert!(GermanState::HE.has_holiday(GermanStateHoliday::RepentanceAndPrayerDay, 1994));
    assert!(!GermanState::HE.has_holiday(GermanStateHoliday::RepentanceAndPrayerDay, 1995));
    assert!(GermanState::SN.has_holiday(GermanStateHoliday::RepentanceAndPrayerDay, 1995));
    assert!(!GermanState::BW.has_holiday(GermanStateHoliday::NewYearsDay, 1989));
    assert_eq!(GermanState::BW.num_holidays(1989), 0);
    assert_eq!(GermanState::ANY.num_holidays(2023), 17);
    assert_eq!(GermanState::ANY.num_holidays(2018), 15);
    assert_eq!(GermanState::NI.num_holidays(2017), 10);
    assert_eq!(GermanState::NI.num_holidays(1994), 10);
    assert_eq!(GermanState::NI.num_holidays(1995), 9);
}

#[test]
fn german_states_together() {
    let both: Vec<GermanState> = vec![GermanState::NI, GermanState::BY];
    let none: Vec<GermanState> = Vec::new();
    let epiphany = ymd(2023, 1, 6);
    let reformation = ymd(2023, 10, 31);
    let womens_day = ymd(2023, 3, 8);
    assert_eq!(both.is_holiday(epiphany), Ok(true));
    assert_eq!(both.is_holiday(reformation), Ok(true));
    assert_eq!(both.is_holiday(womens_day), Ok(false));
    assert_eq!(both.is_bday(epiphany), Ok(false));
    assert_eq!(none.is_holiday(epiphany), Ok(false));
    assert_eq!(none.is_holiday(ymd(2023, 1, 1)), Ok(false));
    assert_eq!(GermanState::NI.is_holiday(epiphany), Ok(false));
    assert_eq!(GermanState::BY.is_holiday(reformation), Ok(false));
    assert_eq!(GermanState::ANY.is_holiday(ymd(1989, 12, 25)), Ok(false));
    assert_eq!(both.bdays(ymd(2023, 1, 5), ymd(2023, 1, 9)), Ok(1));
}
