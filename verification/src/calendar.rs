use vstd::prelude::*;

verus! {

pub const SECONDS_PER_DAY: i64 = 86_400;

/// The first day the proleptic Gregorian calendar of `chrono` can name: 1 January of the
/// year -262143, counted in days from 1970-01-01.
pub const FIRST_CALENDAR_DAY: i64 = -96_465_292;

/// The last day that calendar can name: 31 December 262142.
pub const LAST_CALENDAR_DAY: i64 = 95_026_236;

/// A calendar day, counted in days from 1970-01-01.
#[derive(Debug, Clone, Copy, PartialEq, Eq, Structural, Hash)]
pub struct Date {
    pub day: i64,
}

/// The day that the second `time` falls on, read on a clock `utc_offset` seconds east of
/// UTC: the seconds on that clock, divided by the length of a day and rounded down.
pub open spec fn date_at(time: i64, utc_offset: i32) -> Date {
    Date { day: ((time + utc_offset) / 86_400) as i64 }
}

/// The text `chrono` prints for the calendar day `day`: year, month and day of the month
/// with hyphens between them.
pub uninterp spec fn calendar_text(day: int) -> Seq<char>;

/// `chrono::NaiveDate::from_epoch_days` followed by the date's `Display`.
///
/// Claims that the date exists exactly from `FIRST_CALENDAR_DAY` to `LAST_CALENDAR_DAY`,
/// which is the range of years that `NaiveDate` accepts, and that the printed text depends
/// on the day alone.
#[verifier::external_body]
fn epoch_day_text(day: i32) -> (r: Option<String>)
    ensures
        r is Some <==> FIRST_CALENDAR_DAY <= day <= LAST_CALENDAR_DAY,
        r matches Some(s) ==> s@ == calendar_text(day as int),
{
    match chrono::NaiveDate::from_epoch_days(day) {
        Some(date) => Some(date.to_string()),
        None => None,
    }
}

impl Date {
    /// The day on which `time` falls, read on a clock `utc_offset` seconds east of UTC.
    pub fn of_instant(time: i64, utc_offset: i32) -> (d: Date)
        ensures
            d == date_at(time, utc_offset),
            d.day == (time + utc_offset) / 86_400,
    {
        let local: i128 = time as i128 + utc_offset as i128;
        Date { day: local.checked_div_euclid(86_400).unwrap() as i64 }
    }

    /// The first second of the day in UTC, where an `i64` can hold it.
    pub fn midnight(&self) -> (r: Option<i64>)
        ensures
            r is Some <==> i64::MIN <= self.day * 86_400 <= i64::MAX,
            r matches Some(t) ==> t == self.day * 86_400,
    {
        self.day.checked_mul(SECONDS_PER_DAY)
    }

    /// The date as `YYYY-MM-DD`, where the calendar reaches it.
    pub fn text(&self) -> (r: Option<String>)
        ensures
            r is Some <==> FIRST_CALENDAR_DAY <= self.day <= LAST_CALENDAR_DAY,
            r matches Some(s) ==> s@ == calendar_text(self.day as int),
    {
        if FIRST_CALENDAR_DAY <= self.day && self.day <= LAST_CALENDAR_DAY {
            epoch_day_text(self.day as i32)
        } else {
            None
        }
    }
}

} // verus!
