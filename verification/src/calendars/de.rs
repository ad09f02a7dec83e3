//! Holiday calendars for the German states.

use crate::calendar::{CalendarError, HolidayCalendar, HolidayRules};
use crate::civil::{
    day_of, in_range, lemma_valid_ymd_in_range, lemma_weekday_period, lemma_year_in_range,
    month_of, weekday_index, year_of, ymd_to_days,
};
use crate::date::{Date, Weekday};
use crate::easter::{easter_index, easter_naive_date, easter_year};
use vstd::prelude::*;

verus! {

/// Enum lising all possible holidays
#[derive(Clone, Copy, Debug, PartialEq, Eq, Structural)]
pub enum GermanStateHoliday {
    /// Neujahrstag
    NewYearsDay,
    /// Heilige drei Könige
    Epiphany,
    /// Internationaler Frauentag
    InternationalWomensDay,
    /// Karfreitag
    GoodFriday,
    /// Ostermontag
    EasterMonday,
    /// Tag der Arbeit
    LabourDay,
    /// Christi Himmelfahrt
    AscensionDay,
    /// Pfingstmontag
    WhitMonday,
    /// Fronleichnam
    CorpusChristi,
    /// Mariä Himmelfahrt
    AssumptionDay,
    /// Weltkindertag
    WorldChildrensDay,
    /// Tag der Deutschen Einheit
    GermanUnityDay,
    /// Reformationstag
    ReformationDay,
    /// Allerheiligen
    AllSaintsDay,
    /// Buß- und Bettag
    RepentanceAndPrayerDay,
    /// Erster Weihnachtstag
    ChristmasDay,
    /// Zweiter Weihnachtstag
    SecondDayOfChristmas,
}

/// All the holidays, in the order of the year.
pub open spec fn all_holidays() -> Seq<GermanStateHoliday> {
    seq![
        GermanStateHoliday::NewYearsDay,
        GermanStateHoliday::Epiphany,
        GermanStateHoliday::InternationalWomensDay,
        GermanStateHoliday::GoodFriday,
        GermanStateHoliday::EasterMonday,
        GermanStateHoliday::LabourDay,
        GermanStateHoliday::AscensionDay,
        GermanStateHoliday::WhitMonday,
        GermanStateHoliday::CorpusChristi,
        GermanStateHoliday::AssumptionDay,
        GermanStateHoliday::WorldChildrensDay,
        GermanStateHoliday::GermanUnityDay,
        GermanStateHoliday::ReformationDay,
        GermanStateHoliday::AllSaintsDay,
        GermanStateHoliday::RepentanceAndPrayerDay,
        GermanStateHoliday::ChristmasDay,
        GermanStateHoliday::SecondDayOfChristmas,
    ]
}

/// Whether the day `day` is the day of `holiday` in its year. The days that
/// move with Easter are given by their distance from Easter Sunday; the day
/// of repentance and prayer is the Wednesday of the week that ends with
/// November 22.
pub open spec fn falls_on(holiday: GermanStateHoliday, day: int) -> bool {
    let (year, month, dom) = (year_of(day), month_of(day), day_of(day));
    match holiday {
        GermanStateHoliday::NewYearsDay => dom == 1 && month == 1,
        GermanStateHoliday::Epiphany => dom == 6 && month == 1,
        GermanStateHoliday::InternationalWomensDay => dom == 8 && month == 3,
        GermanStateHoliday::GoodFriday => day == easter_index(year) - 2,
        GermanStateHoliday::EasterMonday => day == easter_index(year) + 1,
        GermanStateHoliday::LabourDay => dom == 1 && month == 5,
        GermanStateHoliday::AscensionDay => day == easter_index(year) + 39,
        GermanStateHoliday::WhitMonday => day == easter_index(year) + 50,
        GermanStateHoliday::CorpusChristi => day == easter_index(year) + 60,
        GermanStateHoliday::AssumptionDay => dom == 15 && month == 8,
        GermanStateHoliday::WorldChildrensDay => dom == 20 && month == 9,
        GermanStateHoliday::GermanUnityDay => dom == 3 && month == 10,
        GermanStateHoliday::ReformationDay => dom == 31 && month == 10,
        GermanStateHoliday::AllSaintsDay => dom == 1 && month == 11,
        GermanStateHoliday::RepentanceAndPrayerDay => weekday_index(day) == 2 && ymd_to_days(
            year,
            11,
            22,
        ) - 6 <= day <= ymd_to_days(year, 11, 22),
        GermanStateHoliday::ChristmasDay => dom == 25 && month == 12,
        GermanStateHoliday::SecondDayOfChristmas => dom == 26 && month == 12,
    }
}

/// The first of the holidays from position `from` on whose day `day` is.
pub open spec fn first_holiday_on(day: int, from: int) -> Option<GermanStateHoliday>
    decreases 17 - from,
{
    if from < 0 || from >= 17 {
        None
    } else if falls_on(all_holidays()[from], day) {
        Some(all_holidays()[from])
    } else {
        first_holiday_on(day, from + 1)
    }
}

/// The holiday whose day `day` is, if it is one; where two fall on one day,
/// the one that comes first in the list. A year without an Easter date has
/// no holidays.
pub open spec fn holiday_on(day: int) -> Option<GermanStateHoliday> {
    if easter_year(year_of(day)) {
        first_holiday_on(day, 0)
    } else {
        None
    }
}

fn check_newyear(date: &Date) -> (r: bool)
    requires
        date.wf(),
    ensures
        r == falls_on(GermanStateHoliday::NewYearsDay, date@),
{
    date.day() == 1 && date.month() == 1
}

fn check_epiphany(date: &Date) -> (r: bool)
    requires
        date.wf(),
    ensures
        r == falls_on(GermanStateHoliday::Epiphany, date@),
{
    date.day() == 6 && date.month() == 1
}

fn check_intwomansday(date: &Date) -> (r: bool)
    requires
        date.wf(),
    ensures
        r == falls_on(GermanStateHoliday::InternationalWomensDay, date@),
{
    date.day() == 8 && date.month() == 3
}

fn check_goodfriday(date: &Date, easter_sunday: &Date) -> (r: bool)
    requires
        date.wf(),
        easter_sunday.wf(),
        easter_sunday@ == easter_index(year_of(date@)),
    ensures
        r == falls_on(GermanStateHoliday::GoodFriday, date@),
{
    date.num_days_from_ce() == easter_sunday.num_days_from_ce() - 2
}

fn check_eastermonday(date: &Date, easter_sunday: &Date) -> (r: bool)
    requires
        date.wf(),
        easter_sunday.wf(),
        easter_sunday@ == easter_index(year_of(date@)),
    ensures
        r == falls_on(GermanStateHoliday::EasterMonday, date@),
{
    date.num_days_from_ce() == easter_sunday.num_days_from_ce() + 1
}

fn check_labourday(date: &Date) -> (r: bool)
    requires
        date.wf(),
    ensures
        r == falls_on(GermanStateHoliday::LabourDay, date@),
{
    date.day() == 1 && date.month() == 5
}

fn check_ascensionday(date: &Date, easter_sunday: &Date) -> (r: bool)
    requires
        date.wf(),
        easter_sunday.wf(),
        easter_sunday@ == easter_index(year_of(date@)),
    ensures
        r == falls_on(GermanStateHoliday::AscensionDay, date@),
{
    date.num_days_from_ce() == easter_sunday.num_days_from_ce() + 39
}

fn check_whitmonday(date: &Date, easter_sunday: &Date) -> (r: bool)
    requires
        date.wf(),
        easter_sunday.wf(),
        easter_sunday@ == easter_index(year_of(date@)),
    ensures
        r == falls_on(GermanStateHoliday::WhitMonday, date@),
{
    date.num_days_from_ce() == easter_sunday.num_days_from_ce() + 50
}

fn check_corpuschristi(date: &Date, easter_sunday: &Date) -> (r: bool)
    requires
        date.wf(),
        easter_sunday.wf(),
        easter_sunday@ == easter_index(year_of(date@)),
    ensures
        r == falls_on(GermanStateHoliday::CorpusChristi, date@),
{
    date.num_days_from_ce() == easter_sunday.num_days_from_ce() + 60
}

fn check_assumptionday(date: &Date) -> (r: bool)
    requires
        date.wf(),
    ensures
        r == falls_on(GermanStateHoliday::AssumptionDay, date@),
{
    date.day() == 15 && date.month() == 8
}

fn check_childrenday(date: &Date) -> (r: bool)
    requires
        date.wf(),
    ensures
        r == falls_on(GermanStateHoliday::WorldChildrensDay, date@),
{
    date.day() == 20 && date.month() == 9
}

fn check_unityday(date: &Date) -> (r: bool)
    requires
        date.wf(),
    ensures
        r == falls_on(GermanStateHoliday::GermanUnityDay, date@),
{
    date.day() == 3 && date.month() == 10
}

fn check_reformationday(date: &Date) -> (r: bool)
    requires
        date.wf(),
    ensures
        r == falls_on(GermanStateHoliday::ReformationDay, date@),
{
    date.day() == 31 && date.month() == 10
}

fn check_allsaintsday(date: &Date) -> (r: bool)
    requires
        date.wf(),
    ensures
        r == falls_on(GermanStateHoliday::AllSaintsDay, date@),
{
    date.day() == 1 && date.month() == 11
}

/// Looks for the Wednesday among the seven days that end with November 22.
fn check_repentence(date: &Date) -> (r: bool)
    requires
        date.wf(),
    ensures
        r == falls_on(GermanStateHoliday::RepentanceAndPrayerDay, date@),
{
    proof {
        lemma_year_in_range(date@);
        lemma_valid_ymd_in_range(year_of(date@), 11, 22);
        lemma_valid_ymd_in_range(year_of(date@), 11, 16);
    }
    let november_22: Date = Date::from_ymd_opt(date.year(), 11, 22).unwrap();
    let mut candidate: Date = november_22;
    let mut taken: u32 = 1;
    proof {
        lemma_weekday_period(candidate@);
    }
    while taken < 7 && candidate.weekday() != Weekday::Wed
        invariant
            november_22.wf(),
            candidate.wf(),
            november_22@ == ymd_to_days(year_of(date@), 11, 22),
            in_range(november_22@ - 6),
            1 <= taken <= 7,
            candidate@ == november_22@ - (taken - 1),
            forall|day: int| candidate@ < day <= november_22@ ==> weekday_index(day) != 2,
        decreases 7 - taken,
    {
        proof {
            lemma_weekday_period(candidate@);
            lemma_weekday_period(candidate@ - 1);
        }
        candidate = candidate.checked_add_days(-1).unwrap();
        taken += 1;
    }
    proof {
        lemma_weekday_period(candidate@);
        lemma_weekday_period(date@);
        lemma_wednesday_in_week(november_22@);
    }
    candidate.weekday() == Weekday::Wed && candidate.num_days_from_ce()
        == date.num_days_from_ce()
}

/// Among seven days in a row there is a Wednesday.
proof fn lemma_wednesday_in_week(last: int)
    ensures
        exists|day: int| last - 6 <= day <= last && #[trigger] weekday_index(day) == 2,
{
    let back = (weekday_index(last) - 2) % 7;
    crate::calendars::us::lemma_backward_offset(last, 2, 0);
    assert(weekday_index(last - back) == 2);
}

fn check_christmasday(date: &Date) -> (r: bool)
    requires
        date.wf(),
    ensures
        r == falls_on(GermanStateHoliday::ChristmasDay, date@),
{
    date.day() == 25 && date.month() == 12
}

fn check_2ndchristmasday(date: &Date) -> (r: bool)
    requires
        date.wf(),
    ensures
        r == falls_on(GermanStateHoliday::SecondDayOfChristmas, date@),
{
    date.day() == 26 && date.month() == 12
}

impl GermanStateHoliday {
    /// The holiday that falls on `date`, if one does.
    pub fn from_date(date: Date) -> (r: Option<Self>)
        requires
            date.wf(),
        ensures
            r == holiday_on(date@),
    {
        let easter_sunday: Date = match easter_naive_date(date.year()) {
            Ok(sunday) => sunday,
            Err(_) => {
                return None;
            },
        };
        proof {
            reveal_with_fuel(first_holiday_on, 18);
        }

        if check_newyear(&date) {
            Some(Self::NewYearsDay)
        } else if check_epiphany(&date) {
            Some(Self::Epiphany)
        } else if check_intwomansday(&date) {
            Some(Self::InternationalWomensDay)
        } else if check_goodfriday(&date, &easter_sunday) {
            Some(Self::GoodFriday)
        } else if check_eastermonday(&date, &easter_sunday) {
            Some(Self::EasterMonday)
        } else if check_labourday(&date) {
            Some(Self::LabourDay)
        } else if check_ascensionday(&date, &easter_sunday) {
            Some(Self::AscensionDay)
        } else if check_whitmonday(&date, &easter_sunday) {
            Some(Self::WhitMonday)
        } else if check_corpuschristi(&date, &easter_sunday) {
            Some(Self::CorpusChristi)
        } else if check_assumptionday(&date) {
            Some(Self::AssumptionDay)
        } else if check_childrenday(&date) {
            Some(Self::WorldChildrensDay)
        } else if check_unityday(&date) {
            Some(Self::GermanUnityDay)
        } else if check_reformationday(&date) {
            Some(Self::ReformationDay)
        } else if check_allsaintsday(&date) {
            Some(Self::AllSaintsDay)
        } else if check_repentence(&date) {
            Some(Self::RepentanceAndPrayerDay)
        } else if check_christmasday(&date) {
            Some(Self::ChristmasDay)
        } else if check_2ndchristmasday(&date) {
            Some(Self::SecondDayOfChristmas)
        } else {
            None
        }
    }

    /// All the holidays, in the order of the year.
    pub fn holidays() -> (r: [GermanStateHoliday; 17])
        ensures
            r@ == all_holidays(),
    {
        let list: [GermanStateHoliday; 17] = [
            GermanStateHoliday::NewYearsDay,  // Neujahrstag
            GermanStateHoliday::Epiphany,  // Heilige drei Könige
            GermanStateHoliday::InternationalWomensDay,  // Internationaler Frauentag
            GermanStateHoliday::GoodFriday,  // Karfreitag
            GermanStateHoliday::EasterMonday,  // Ostermontag
            GermanStateHoliday::LabourDay,  // Tag der Arbeit
            GermanStateHoliday::AscensionDay,  // Christi Himmelfahrt
            GermanStateHoliday::WhitMonday,  // Pfingstmontag
            GermanStateHoliday::CorpusChristi,  // Fronleichnam
            GermanStateHoliday::AssumptionDay,  // Mariä Himmelfahrt
            GermanStateHoliday::WorldChildrensDay,  // Weltkindertag
            GermanStateHoliday::GermanUnityDay,  // Tag der Deutschen Einheit
            GermanStateHoliday::ReformationDay,  // Reformationstag
            GermanStateHoliday::AllSaintsDay,  // Allerheiligen
            GermanStateHoliday::RepentanceAndPrayerDay,  // Buß- und Bettag
            GermanStateHoliday::ChristmasDay,  // Erster Weihnachtstag
            GermanStateHoliday::SecondDayOfChristmas,  // Zweiter Weihnachtstag
        ];
        assert(list@ =~= all_holidays());
        list
    }
}

/// Enum for all German states, plus a variant for holidays effective in any state.
/// These implement `HolidayCalendar`.
#[derive(Clone, Copy, Debug, PartialEq, Eq, Structural)]
pub enum GermanState {
    /// Baden-Württemberg
    BW,
    /// Bayern
    BY,
    /// Berlin
    BE,
    /// Brandenburg
    BB,
    /// Bremen
    HB,
    /// Hamburg
    HH,
    /// Hessen
    HE,
    /// Mecklenburg-Vorpommern
    MV,
    /// Niedersachsen
    NI,
    /// Nordrhein-Westfalen
    NW,
    /// Rheinland-Pfalz
    RP,
    /// Saarland
    SL,
    /// Sachsen
    SN,
    /// Sachsen-Anhalt
    ST,
    /// Schleswig-Holstein
    SH,
    /// Thüringen
    TH,
    /// Checks for holidays in any state
    ANY,
}

/// Whether `state` keeps `holiday` in `year`, holiday by holiday. `ANY` keeps
/// a holiday from the year on in which the first state keeps it. Holidays
/// before the reunification are not covered.
pub open spec fn state_keeps(state: GermanState, holiday: GermanStateHoliday, year: int) -> bool {
    let any = state == GermanState::ANY;
    year >= 1990 && match holiday {
        GermanStateHoliday::NewYearsDay => true,
        GermanStateHoliday::Epiphany => {
            any || state == GermanState::BW || state == GermanState::BY || state
                == GermanState::ST
        },
        GermanStateHoliday::InternationalWomensDay => {
            ||| ((any || state == GermanState::BE) && year >= 2019)
            ||| (state == GermanState::MV && year >= 2023)
        },
        GermanStateHoliday::GoodFriday => true,
        GermanStateHoliday::EasterMonday => true,
        GermanStateHoliday::LabourDay => true,
        GermanStateHoliday::AscensionDay => true,
        GermanStateHoliday::WhitMonday => true,
        GermanStateHoliday::CorpusChristi => {
            any || state == GermanState::BW || state == GermanState::BY || state
                == GermanState::HE || state == GermanState::NW || state == GermanState::RP
                || state == GermanState::SL
        },
        GermanStateHoliday::AssumptionDay => {
            any || state == GermanState::BY || state == GermanState::SL
        },
        GermanStateHoliday::WorldChildrensDay => {
            (any || state == GermanState::TH) && year >= 2019
        },
        GermanStateHoliday::GermanUnityDay => true,
        GermanStateHoliday::ReformationDay => {
            ||| year == 2017
            ||| any
            ||| state == GermanState::BB
            ||| state == GermanState::MV
            ||| state == GermanState::SN
            ||| state == GermanState::ST
            ||| state == GermanState::TH
            ||| ((state == GermanState::HB || state == GermanState::HH || state
                == GermanState::NI || state == GermanState::SH) && year >= 2018)
        },
        GermanStateHoliday::AllSaintsDay => {
            any || state == GermanState::BW || state == GermanState::BY || state
                == GermanState::NW || state == GermanState::RP || state == GermanState::SL
        },
        GermanStateHoliday::RepentanceAndPrayerDay => {
            year <= 1994 || any || state == GermanState::SN
        },
        GermanStateHoliday::ChristmasDay => true,
        GermanStateHoliday::SecondDayOfChristmas => true,
    }
}

/// How many of the first `n` holidays of the list `state` keeps in `year`.
pub open spec fn holidays_kept(state: GermanState, year: int, n: int) -> int
    decreases n,
{
    if n <= 0 {
        0
    } else {
        holidays_kept(state, year, n - 1) + (if state_keeps(state, all_holidays()[n - 1], year) {
            1int
        } else {
            0int
        })
    }
}

impl GermanState {
    /// Returns the number of holidays in the given state and year
    ///
    /// # Arguments
    ///
    /// * `year` - The year for which to count the number of holidays
    pub fn num_holidays(&self, year: i32) -> (r: u32)
        ensures
            r == holidays_kept(*self, year as int, 17),
    {
        let all: [GermanStateHoliday; 17] = GermanStateHoliday::holidays();
        let mut total: u32 = 0;
        let mut i: usize = 0;
        while i < 17
            invariant
                0 <= i <= 17,
                all@ == all_holidays(),
                total == holidays_kept(*self, year as int, i as int),
                total <= i,
            decreases 17 - i,
        {
            if self.has_holiday(all[i], year) {
                total += 1;
            }
            i += 1;
        }
        total
    }

    /// Whether the state keeps `holiday` in `year`.
    pub fn has_holiday(&self, holiday: GermanStateHoliday, year: i32) -> (r: bool)
        ensures
            r == state_keeps(*self, holiday, year as int),
    {
        match (self, holiday) {
            _ if year < 1990 => false,  // Holidays pre reunification are not supported
            (_, GermanStateHoliday::NewYearsDay) => true,
            (GermanState::BW | GermanState::BY | GermanState::ST, GermanStateHoliday::Epiphany) => {
                true
            },
            (GermanState::BE, GermanStateHoliday::InternationalWomensDay) if year >= 2019 => true,  // Berlin adopted International Women's Day in 2019
            (GermanState::MV, GermanStateHoliday::InternationalWomensDay) if year >= 2023 => true,  // MV adopted International Women's Day in 2023
            (
                _,
                GermanStateHoliday::GoodFriday
                | GermanStateHoliday::EasterMonday
                | GermanStateHoliday::LabourDay
                | GermanStateHoliday::AscensionDay
                | GermanStateHoliday::WhitMonday,
            ) => true,
            (
                GermanState::BW
                | GermanState::BY
                | GermanState::HE
                | GermanState::NW
                | GermanState::RP
                | GermanState::SL,
                GermanStateHoliday::CorpusChristi,
            ) => true,
            (GermanState::BY | GermanState::SL, GermanStateHoliday::AssumptionDay) => true,
            (GermanState::TH, GermanStateHoliday::WorldChildrensDay) if year >= 2019 => true,
            (_, GermanStateHoliday::GermanUnityDay) => true,
            (_, GermanStateHoliday::ReformationDay) if year == 2017 => true,  // Reformation Day was a one-time holiday in all states in 2017
            (
                GermanState::BB
                | GermanState::MV
                | GermanState::SN
                | GermanState::ST
                | GermanState::TH,
                GermanStateHoliday::ReformationDay,
            ) => true,  // 5 states have had Reformation Day since reunification
            // 4 states permanently adopted Reformation Day in 2018
            (GermanState::HB, GermanStateHoliday::ReformationDay) if year >= 2018 => true,
            (GermanState::HH, GermanStateHoliday::ReformationDay) if year >= 2018 => true,
            (GermanState::NI, GermanStateHoliday::ReformationDay) if year >= 2018 => true,
            (GermanState::SH, GermanStateHoliday::ReformationDay) if year >= 2018 => true,
            (
                GermanState::BW
                | GermanState::BY
                | GermanState::NW
                | GermanState::RP
                | GermanState::SL,
                GermanStateHoliday::AllSaintsDay,
            ) => true,
            (_, GermanStateHoliday::RepentanceAndPrayerDay) if year <= 1994 => true,  // In 1994, Repentence and Prayer Day was discontinued (beginning in 1995) in all states except Saxony
            (GermanState::SN, GermanStateHoliday::RepentanceAndPrayerDay) => true,
            (_, GermanStateHoliday::ChristmasDay | GermanStateHoliday::SecondDayOfChristmas) => {
                true
            },
            // First International Women's Day and International Children's Day in Germany were in 2019 (BE and TH respectively)
            (GermanState::ANY, GermanStateHoliday::InternationalWomensDay) if year >= 2019 => true,
            (GermanState::ANY, GermanStateHoliday::WorldChildrensDay) if year >= 2019 => true,
            (
                GermanState::ANY,
                GermanStateHoliday::Epiphany
                | GermanStateHoliday::CorpusChristi
                | GermanStateHoliday::AssumptionDay
                | GermanStateHoliday::ReformationDay
                | GermanStateHoliday::AllSaintsDay
                | GermanStateHoliday::RepentanceAndPrayerDay,
            ) => true,  //Remaining days that are only holidays in some (any) states
            _ => false,
        }
    }
}

/// The holidays of one state: the days of the holidays that the state keeps
/// in their year.
pub open spec fn german_state_holiday(state: GermanState, day: int) -> bool {
    match holiday_on(day) {
        Some(holiday) => state_keeps(state, holiday, year_of(day)),
        None => false,
    }
}

/// This implementation doesn't return any holidays before 1990.
///
/// Before that the current Germany was separated into the "German
/// Democratic Republic" and the "Federal Republic of Germany" which both had
/// somewhat different holidays. Since this class is called "Germany" it
/// doesn't really make sense to include the days from the two former
/// countries.
///
/// Note that Germany doesn't have rules for holidays that happen on a
/// Sunday. Those holidays are still holiday days but there is no additional
/// day to make up for the "lost" day.
///
/// Also note that German holidays are partly declared by each state there
/// are some weired edge cases:
///
/// - Assumption Day / Mariä Himmelfahrt is only a holiday in Bavaria (BY) if your
///   municipality is mostly catholic which in term depends on census data.
///   Since we don't have this data but most municipalities in Bavaria
///   *are* mostly catholic, we count that as holiday for whole Bavaria.
/// - There is an Augsburg Peace Festival / Augsburger Friedensfest which only
///   exists in the Bavarian town Augsburg. This is excluded for Bavaria.
/// - Maundy Thursday / Gründonnerstag (Thursday before easter) is not a holiday
///   but pupils in Baden Württemberg (BW) don't have to go to school. It is
///   excluded from our list.
/// - Corpus Christi / Fronleichnam is a holiday in certain, explicitly defined
///   municipalities in Saxony (SN) and Thuringia (TH). We exclude it from
///   both provinces.
impl HolidayCalendar for GermanState {
    open spec fn rules(&self) -> HolidayRules {
        |day: int| Ok::<bool, CalendarError>(german_state_holiday(*self, day))
    }

    fn is_holiday(&self, date: Date) -> (r: Result<bool, CalendarError>) {
        if let Some(holiday) = GermanStateHoliday::from_date(date) {
            Ok(self.has_holiday(holiday, date.year()))
        } else {
            Ok(false)
        }
    }
}

/// Whether one of `states` keeps `holiday` in `year`.
pub open spec fn any_state_keeps(
    states: Seq<GermanState>,
    holiday: GermanStateHoliday,
    year: int,
) -> bool {
    exists|i: int| 0 <= i < states.len() && state_keeps(#[trigger] states[i], holiday, year)
}

/// This implementation considers a date a holiday if it is a holiday in any
/// State in the Vec. See the implementation for `GermanState` for details.
impl HolidayCalendar for Vec<GermanState> {
    open spec fn rules(&self) -> HolidayRules {
        |day: int|
            Ok::<bool, CalendarError>(
                match holiday_on(day) {
                    Some(holiday) => any_state_keeps(self@, holiday, year_of(day)),
                    None => false,
                },
            )
    }

    fn is_holiday(&self, date: Date) -> (r: Result<bool, CalendarError>) {
        if let Some(holiday) = GermanStateHoliday::from_date(date) {
            let year: i32 = date.year();
            let mut i: usize = 0;
            while i < self.len()
                invariant
                    0 <= i <= self@.len(),
                    holiday_on(date@) == Some(holiday),
                    year == year_of(date@),
                    forall|k: int|
                        0 <= k < i ==> !state_keeps(#[trigger] self@[k], holiday, year as int),
                decreases self@.len() - i,
            {
                if self[i].has_holiday(holiday, year) {
                    assert(state_keeps(self@[i as int], holiday, year as int));
                    return Ok(true);
                }
                i += 1;
            }
            Ok(false)
        } else {
            Ok(false)
        }
    }
}

} // verus!
