//! Business day arithmetic over holiday calendars.
//!
//! A Business Day is defined as a weekday that is not a holiday.
//! To check if a date is a holiday, you must provide an implementation of the
//! `HolidayCalendar` trait.

/// A holiday calendar with its answers computed in advance.
pub mod cache;

/// The `HolidayCalendar` trait and the arithmetic it defines.
pub mod calendar;

/// A set of holiday calendars built into the crate.
pub mod calendars;

/// The Gregorian calendar as arithmetic on day numbers.
pub mod civil;

/// Calendar dates.
pub mod date;

/// Algorithms to calculate easter dates.
pub mod easter;

/// What holds of the business day arithmetic of every calendar.
pub mod laws;

/// Weekends, and the step from one day to the next.
pub mod step;

pub use cache::HolidayCalendarCache;
pub use calendar::{CalendarError, HolidayCalendar};
pub use date::{Date, Weekday};
pub use step::{is_weekday, is_weekend, next_date};
