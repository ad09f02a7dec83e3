//! The date of Easter Sunday in the Gregorian calendar.

use crate::civil::{
    in_range, lemma_days_before_month_table, lemma_days_before_year_monotonic,
    lemma_valid_ymd_in_range, valid_ymd, weekday_index, ymd_to_days, MAX_YEAR,
};
use crate::date::Date;
use vstd::prelude::*;
use vstd::string::StringExecFns;

verus! {

/// The first year of the Gregorian calendar.
pub const GREGORIAN_START: i32 = 1582;

/// The error of the Easter functions: no Easter date can be given for the year `y`.
#[derive(Clone, Copy, Debug, PartialEq, Eq, Structural)]
pub struct EasterError {
    pub y: i32,
}

/// The first sentence of the error's description, which holds the year in decimal.
pub uninterp spec fn easter_message(y: int) -> Seq<char>;

/// Writes the first sentence of the description with `format`, which puts
/// the year into it in decimal. Trusted only to depend on the year alone.
#[verifier::external_body]
fn format_easter_message(y: i32) -> (r: String)
    ensures
        r@ == easter_message(y as int),
{
    format!("Couldn't parse easter date for year {}.", y)
}

/// What a description says that begins with `sentence`: for a year before
/// the Gregorian calendar a second sentence follows, which says so.
pub open spec fn with_range_note_spec(sentence: Seq<char>, y: int) -> Seq<char> {
    if y < GREGORIAN_START {
        sentence + " Current algorithm only works after year 1582."@
    } else {
        sentence
    }
}

/// Adds to `sentence` the note on the Gregorian calendar, where the year `y`
/// lies before it.
pub fn with_range_note(sentence: String, y: i32) -> (msg: String)
    ensures
        msg@ == with_range_note_spec(sentence@, y as int),
{
    let mut msg: String = sentence;
    if y < GREGORIAN_START {
        msg.append(" Current algorithm only works after year 1582.");
    }
    msg
}

impl EasterError {
    /// What the description says: the sentence with the year, and for a year
    /// before the Gregorian calendar the note on it.
    pub open spec fn description_spec(&self) -> Seq<char> {
        with_range_note_spec(easter_message(self.y as int), self.y as int)
    }

    /// A description of the error for people to read.
    pub fn description_string(&self) -> (msg: String)
        ensures
            msg@ == self.description_spec(),
    {
        with_range_note(format_easter_message(self.y), self.y)
    }
}

/// Whether Easter can be computed for `year`: the year belongs to the
/// Gregorian calendar, and its dates can be represented.
pub open spec fn easter_year(year: int) -> bool {
    GREGORIAN_START <= year <= MAX_YEAR
}

/// The epact of `year` before it is reduced modulo 30 and corrected.
pub open spec fn raw_epact(year: int) -> int {
    let century = year / 100 + 1;
    14 + 11 * (year % 19) - (3 * century) / 4 + (5 + 8 * century) / 25
}

/// The shifted epact of `year`: the age of the moon that fixes the Paschal
/// full moon, with its two corrections.
pub open spec fn shifted_epact(year: int) -> int {
    let epact = raw_epact(year) % 30;
    if epact == 0 || (epact == 1 && year % 19 > 10) {
        epact + 1
    } else {
        epact
    }
}

/// The day number of the Paschal full moon of `year`.
pub open spec fn paschal_moon(year: int) -> int {
    ymd_to_days(year, 4, 19) - shifted_epact(year)
}

/// The day number of Easter Sunday of `year`: the Sunday after the Paschal full moon.
pub open spec fn easter_index(year: int) -> int {
    paschal_moon(year) + 7 - paschal_moon(year) % 7
}

/// Easter is a Sunday, the first one after the Paschal full moon, and falls
/// between March 22 and April 25.
pub proof fn lemma_easter_is_sunday(year: int)
    ensures
        weekday_index(easter_index(year)) == 6,
        paschal_moon(year) < easter_index(year) <= paschal_moon(year) + 7,
        ymd_to_days(year, 3, 22) <= easter_index(year) <= ymd_to_days(year, 4, 25),
{
    lemma_epact_bounds(year);
    lemma_around_april_19(year);
    lemma_next_sunday(paschal_moon(year));
}

/// March 22 is four weeks before April 19, and April 25 six days after it.
proof fn lemma_around_april_19(year: int)
    ensures
        ymd_to_days(year, 3, 22) == ymd_to_days(year, 4, 19) - 28,
        ymd_to_days(year, 4, 25) == ymd_to_days(year, 4, 19) + 6,
{
    lemma_days_before_month_table(year);
}

/// The next multiple of 7 after a day number is at most a week on, and is a Sunday.
proof fn lemma_next_sunday(day: int)
    ensures
        day < day + 7 - day % 7 <= day + 7,
        weekday_index(day + 7 - day % 7) == 6,
{
    let weeks = day / 7;
    assert(day == 7 * weeks + day % 7);
    assert(day + 7 - day % 7 - 1 == 7 * weeks + 6);
}

/// The shifted epact lies between 1 and 29.
pub proof fn lemma_epact_bounds(year: int)
    ensures
        1 <= shifted_epact(year) <= 29,
{
    let epact = raw_epact(year) % 30;
    assert(0 <= epact < 30);
}

/// The day number of Easter Sunday of the year `y`.
///
/// Fails for a year before the Gregorian calendar, and for one whose dates
/// cannot be represented.
pub fn easter_num_days_from_ce(y: i32) -> (r: Result<i32, EasterError>)
    ensures
        easter_year(y as int) ==> r == Ok::<i32, EasterError>(easter_index(y as int) as i32),
        !easter_year(y as int) ==> r == Err::<i32, EasterError>(EasterError { y }),
        r matches Ok(n) ==> in_range(n as int) && n == easter_index(y as int),
{
    if y < GREGORIAN_START {
        return Err(EasterError { y });
    }
    let april_19: i32 = match Date::from_ymd_opt(y, 4, 19) {
        Some(date) => date.num_days_from_ce(),
        None => {
            return Err(EasterError { y });
        },
    };
    let epact: i32 = shifted_epact_of(y);
    proof {
        lemma_easter_in_range(y as int);
    }
    let moon: i32 = april_19 - epact;
    Ok(moon + 7 - (moon % 7))
}

/// The shifted epact of the year `y`.
fn shifted_epact_of(y: i32) -> (r: i32)
    requires
        easter_year(y as int),
    ensures
        r == shifted_epact(y as int),
        1 <= r <= 29,
{
    let golden: i32 = y % 19;
    let century: i32 = (y / 100) + 1;
    assert(16 <= century <= 2622);
    let solar: i32 = 3 * century / 4;
    let lunar: i32 = (5 + 8 * century) / 25;
    assert(12 <= solar <= 1967 && 5 <= lunar <= 840);
    let raw: i32 = 14 + 11 * golden - solar + lunar;
    assert(raw == raw_epact(y as int));
    let mut epact: i32 = euclid_rem_30(raw);
    if (epact == 0) || ((epact == 1) && (10 < golden)) {
        epact += 1;
    }
    epact
}

/// The remainder of `x` modulo 30, which is never negative.
fn euclid_rem_30(x: i32) -> (r: i32)
    ensures
        r == x % 30,
{
    let rem: i32 = x % 30;
    if rem < 0 {
        rem + 30
    } else {
        rem
    }
}

/// Easter Sunday of the year `y` as a date.
///
/// Fails for a year before the Gregorian calendar, and for one whose dates
/// cannot be represented.
pub fn easter_naive_date(y: i32) -> (r: Result<Date, EasterError>)
    ensures
        r is Ok <==> easter_year(y as int),
        r matches Ok(date) ==> date.wf() && date@ == easter_index(y as int),
        r matches Err(e) ==> e == (EasterError { y }),
{
    let rata: i32 = match easter_num_days_from_ce(y) {
        Ok(n) => n,
        Err(e) => {
            return Err(e);
        },
    };
    match Date::from_num_days_from_ce_opt(rata) {
        Some(result) => Ok(result),
        None => Err(EasterError { y }),
    }
}

/// In a year of the Gregorian calendar that can be represented, April 19 is
/// a date, Easter can be represented too, and all day numbers around it are
/// positive.
pub proof fn lemma_easter_in_range(year: int)
    requires
        easter_year(year),
    ensures
        valid_ymd(year, 4, 19),
        in_range(ymd_to_days(year, 4, 19)),
        in_range(easter_index(year)),
        paschal_moon(year) > 0,
        1 <= shifted_epact(year) <= 29,
{
    lemma_valid_ymd_in_range(year, 4, 19);
    lemma_valid_ymd_in_range(year, 3, 22);
    lemma_valid_ymd_in_range(year, 4, 25);
    lemma_easter_is_sunday(year);
    lemma_days_before_month_table(year);
    lemma_days_before_year_monotonic(1, year);
}

} // verus!
