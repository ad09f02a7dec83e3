//! Holiday calendars for Brazil.

use crate::calendar::{CalendarError, HolidayCalendar, HolidayRules};
use crate::civil::{day_of, month_of, year_of};
use crate::date::{weekday_of, Date, Weekday};
use crate::easter::{easter_index, easter_num_days_from_ce, easter_year, EasterError};
use vstd::prelude::*;

verus! {

/// The national holidays that fall on the same day every year.
pub open spec fn brazilian_fixed_holiday(month: int, day: int) -> bool {
    // Confraternizacao Universal
    ||| (month == 1 && day == 1)
    // Tiradentes
    ||| (month == 4 && day == 21)
    // Dia do Trabalho
    ||| (month == 5 && day == 1)
    // Independencia do Brasil
    ||| (month == 9 && day == 7)
    // Nossa Senhora Aparecida
    ||| (month == 10 && day == 12)
    // Finados
    ||| (month == 11 && day == 2)
    // Proclamacao da Republica
    ||| (month == 11 && day == 15)
    // Natal
    ||| (month == 12 && day == 25)
}

/// The national holidays that move with Easter, by the number of days from
/// Easter Sunday: the Monday and Tuesday of Carnival, Good Friday and Corpus Christi.
pub open spec fn brazilian_easter_holiday(days_from_easter: int) -> bool {
    ||| days_from_easter == -48
    ||| days_from_easter == -47
    ||| days_from_easter == -2
    ||| days_from_easter == 60
}

/// The national holidays of Brazil. The holidays that move with Easter all
/// fall before August; in those months a year without an Easter date is an
/// error, unless the day is a fixed holiday.
pub open spec fn brazilian_national_holiday(day: int) -> Result<bool, CalendarError> {
    let year = year_of(day);
    if brazilian_fixed_holiday(month_of(day), day_of(day)) {
        Ok(true)
    } else if month_of(day) >= 8 {
        Ok(false)
    } else if !easter_year(year) {
        Err(CalendarError::YearOutOfRange(EasterError { y: year as i32 }))
    } else {
        Ok(brazilian_easter_holiday(day - easter_index(year)))
    }
}

fn is_brazilian_national_holiday(date: Date) -> (r: Result<bool, CalendarError>)
    requires
        date.wf(),
    ensures
        r == brazilian_national_holiday(date@),
{
    let (yy, mm, dd): (i32, u32, u32) = (date.year(), date.month(), date.day());

    // Bisection
    if mm >= 8 {
        // Fixed holidays
        if
        // Independencia do Brasil
        ((mm == 9) && (dd == 7))
            ||
        // Nossa Senhora Aparecida
        ((mm == 10) && (dd == 12))
            ||
        // Finados
        ((mm == 11) && (dd == 2))
            ||
        // Proclamacao da Republica
        ((mm == 11) && (dd == 15))
            ||
        // Natal
        ((mm == 12) && (dd == 25)) {
            return Ok(true);
        }
    } else {
        // mm < 8
        // Fixed holidays
        if
        // Confraternizacao Universal
        ((mm == 1) && (dd == 1))
            ||
        // Tiradentes
        ((mm == 4) && (dd == 21))
            ||
        // Dia do Trabalho
        ((mm == 5) && (dd == 1)) {
            return Ok(true);
        }
        // Easter occurs up to April, so Corpus Christi will be up to July in the worst case, which is before August (mm < 8).
        // Holidays based on easter date.

        let dt_rata: i32 = date.num_days_from_ce();
        let e_rata: i32 = match easter_num_days_from_ce(yy) {
            Ok(n) => n,
            Err(e) => {
                return Err(CalendarError::YearOutOfRange(e));
            },
        };

        if
        // Segunda de Carnaval
        (dt_rata == (e_rata - 48))
            ||
        // Terca de Carnaval
        (dt_rata == (e_rata - 47))
            ||
        // Sexta-feira Santa
        (dt_rata == (e_rata - 2))
            ||
        // Corpus Christi
        (dt_rata == (e_rata + 60)) {
            return Ok(true);
        }
    }

    Ok(false)
}

/// Brazilian banking holidays.
/// This calendar is defined by brazilian federal holidays plus Carnival.
pub struct BRSettlement;

impl HolidayCalendar for BRSettlement {
    open spec fn rules(&self) -> HolidayRules {
        |day: int| brazilian_national_holiday(day)
    }

    fn is_holiday(&self, date: Date) -> (r: Result<bool, CalendarError>) {
        is_brazilian_national_holiday(date)
    }
}

/// The holidays that the exchange keeps besides the national ones.
pub open spec fn brazil_exchange_holiday(day: int) -> bool {
    let (year, month, dom) = (year_of(day), month_of(day), day_of(day));
    // Aniversario de Sao Paulo
    ||| (month == 1 && dom == 25 && year < 2022)
    // Revolucao
    ||| (month == 7 && dom == 9 && year != 2020 && year < 2022)
    // Consciencia Negra (since 2007)
    ||| (year >= 2007 && month == 11 && dom == 20 && year != 2020 && year < 2022)
    // Christmas Eve
    ||| (month == 12 && dom == 24)
    // Ultimo dia util do ano
    ||| (month == 12 && (dom == 31 || (dom >= 29 && weekday_of(day) == Weekday::Fri)))
}

/// B3 Exchange holidays (<https://www.b3.com.br>).
pub struct BrazilExchange;

impl HolidayCalendar for BrazilExchange {
    open spec fn rules(&self) -> HolidayRules {
        |day: int|
            if brazil_exchange_holiday(day) {
                Ok::<bool, CalendarError>(true)
            } else {
                brazilian_national_holiday(day)
            }
    }

    fn is_holiday(&self, date: Date) -> (r: Result<bool, CalendarError>) {
        let (yy, mm, dd): (i32, u32, u32) = (date.year(), date.month(), date.day());

        if
        // Aniversario de Sao Paulo
        (mm == 1 && dd == 25 && yy < 2022)
            ||
        // Revolucao
        (mm == 7 && dd == 9 && yy != 2020 && yy < 2022)
            ||
        // Consciencia Negra (since 2007)
        (yy >= 2007 && mm == 11 && dd == 20 && yy != 2020 && yy < 2022)
        // Christmas Eve
         || (mm == 12 && dd == 24)
            ||
        // Ultimo dia util do ano
        (mm == 12 && (dd == 31 || (dd >= 29 && date.weekday() == Weekday::Fri))) {
            return Ok(true);
        }
        // national holidays

        is_brazilian_national_holiday(date)
    }
}

} // verus!
