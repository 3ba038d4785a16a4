//! Civil dates and times, and their place on the UTC time line.

use chrono::{NaiveDate, NaiveDateTime, NaiveTime};
use vstd::prelude::*;

verus! {

/// The first year that a date can carry.
pub const MIN_YEAR: i32 = -262143;

/// The last year that a date can carry.
pub const MAX_YEAR: i32 = 262142;

/// Leap years of the proleptic Gregorian calendar.
pub open spec fn is_leap_year(year: int) -> bool {
    year % 4 == 0 && (year % 100 != 0 || year % 400 == 0)
}

/// Number of days of a month; 0 for a month outside 1..=12.
pub open spec fn days_in_month(year: int, month: int) -> int {
    if month == 2 {
        if is_leap_year(year) { 29 } else { 28 }
    } else if month == 4 || month == 6 || month == 9 || month == 11 {
        30
    } else if 1 <= month <= 12 {
        31
    } else {
        0
    }
}

/// The day exists in the calendar and its year can be carried.
pub open spec fn is_calendar_date(year: int, month: int, day: int) -> bool {
    &&& MIN_YEAR <= year <= MAX_YEAR
    &&& 1 <= month <= 12
    &&& 1 <= day <= days_in_month(year, month)
}

/// A time of day, without leap seconds.
pub open spec fn is_clock_time(hour: int, minute: int, second: int) -> bool {
    0 <= hour < 24 && 0 <= minute < 60 && 0 <= second < 60
}

/// Days from January 1 of year 1 to January 1 of `year`.
pub open spec fn days_before_year(year: int) -> int {
    let y = year - 1;
    365 * y + y / 4 - y / 100 + y / 400
}

/// Days of `year` that lie before the first day of `month`.
pub open spec fn days_before_month(year: int, month: int) -> int
    decreases month,
{
    if month <= 1 {
        0
    } else {
        days_before_month(year, month - 1) + days_in_month(year, month - 1)
    }
}

/// Days from January 1, 1970 to the given day.
pub open spec fn days_from_epoch(year: int, month: int, day: int) -> int {
    days_before_year(year) + days_before_month(year, month) + (day - 1) - 719162
}

/// Seconds from 1970-01-01T00:00:00 UTC to the given instant, read as UTC.
pub open spec fn epoch_seconds(f: CivilFields) -> int {
    days_from_epoch(f.year, f.month, f.day) * 86400 + f.hour * 3600 + f.minute * 60 + f.second
}

/// What a `CivilDateTime` stands for.
pub ghost struct CivilFields {
    pub year: int,
    pub month: int,
    pub day: int,
    pub hour: int,
    pub minute: int,
    pub second: int,
}

impl CivilFields {
    /// A day of the calendar with a time of day.
    pub open spec fn valid(self) -> bool {
        is_calendar_date(self.year, self.month, self.day) && is_clock_time(
            self.hour,
            self.minute,
            self.second,
        )
    }
}

/// A decimal digit as a character.
pub open spec fn digit_char(d: int) -> char {
    if d == 0 { '0' } else if d == 1 { '1' } else if d == 2 { '2' } else if d == 3 { '3' }
    else if d == 4 { '4' } else if d == 5 { '5' } else if d == 6 { '6' } else if d == 7 { '7' }
    else if d == 8 { '8' } else { '9' }
}

/// Two decimal digits of a number below 100.
pub open spec fn two_digit_text(n: int) -> Seq<char> {
    seq![digit_char(n / 10), digit_char(n % 10)]
}

/// Four decimal digits of a number below 10000.
pub open spec fn four_digit_text(n: int) -> Seq<char> {
    two_digit_text(n / 100) + two_digit_text(n % 100)
}

/// `YYYY-MM-DDTHH:MM:SS`, for a year of at most four digits.
pub open spec fn iso_text(f: CivilFields) -> Seq<char> {
    four_digit_text(f.year) + seq!['-'] + two_digit_text(f.month) + seq!['-'] + two_digit_text(
        f.day,
    ) + seq!['T'] + two_digit_text(f.hour) + seq![':'] + two_digit_text(f.minute) + seq![':']
        + two_digit_text(f.second)
}

/// The text that chrono's formatter gives for `%Y-%m-%dT%H:%M:%S`.
pub uninterp spec fn formatted_text(
    year: int,
    month: int,
    day: int,
    hour: int,
    minute: int,
    second: int,
) -> Seq<char>;

/// Calls `chrono::NaiveDate::from_ymd_opt` and reports whether it gave a date.
/// chrono gives one exactly for the days that exist in the proleptic Gregorian
/// calendar, in the years from `MIN_YEAR` to `MAX_YEAR`.
#[verifier::external_body]
fn calendar_date_exists(year: i32, month: u32, day: u32) -> (found: bool)
    ensures
        found == is_calendar_date(year as int, month as int, day as int),
{
    NaiveDate::from_ymd_opt(year, month, day).is_some()
}

/// Calls `chrono::NaiveTime::from_hms_opt` and reports whether it gave a time.
/// chrono gives one exactly when the hour is below 24 and minute and second
/// are below 60.
#[verifier::external_body]
fn clock_time_exists(hour: u32, minute: u32, second: u32) -> (found: bool)
    ensures
        found == is_clock_time(hour as int, minute as int, second as int),
{
    NaiveTime::from_hms_opt(hour, minute, second).is_some()
}

/// Calls `chrono::DateTime::<Utc>::timestamp` on the given civil time taken as
/// UTC. chrono counts the days since 1970-01-01 in the proleptic Gregorian
/// calendar, 86400 seconds to the day, and adds the seconds since midnight.
#[verifier::external_body]
fn utc_timestamp(year: i32, month: u32, day: u32, hour: u32, minute: u32, second: u32) -> (secs:
    i64)
    requires
        is_calendar_date(year as int, month as int, day as int),
        is_clock_time(hour as int, minute as int, second as int),
    ensures
        secs == epoch_seconds(
            (CivilFields {
                year: year as int,
                month: month as int,
                day: day as int,
                hour: hour as int,
                minute: minute as int,
                second: second as int,
            }),
        ),
{
    let date = NaiveDate::from_ymd_opt(year, month, day).unwrap();
    let time = NaiveTime::from_hms_opt(hour, minute, second).unwrap();
    NaiveDateTime::new(date, time).and_utc().timestamp()
}

/// Calls `chrono::NaiveDateTime::format` with `%Y-%m-%dT%H:%M:%S`. The result
/// depends on the six numbers alone; for a year from 0 to 9999 chrono writes
/// the year with four digits and every other number with two.
#[verifier::external_body]
fn format_civil(year: i32, month: u32, day: u32, hour: u32, minute: u32, second: u32) -> (text:
    String)
    requires
        is_calendar_date(year as int, month as int, day as int),
        is_clock_time(hour as int, minute as int, second as int),
    ensures
        text@ == formatted_text(
            year as int,
            month as int,
            day as int,
            hour as int,
            minute as int,
            second as int,
        ),
        0 <= year <= 9999 ==> text@ == iso_text(
            (CivilFields {
                year: year as int,
                month: month as int,
                day: day as int,
                hour: hour as int,
                minute: minute as int,
                second: second as int,
            }),
        ),
{
    let date = NaiveDate::from_ymd_opt(year, month, day).unwrap();
    let time = NaiveTime::from_hms_opt(hour, minute, second).unwrap();
    NaiveDateTime::new(date, time).format("%Y-%m-%dT%H:%M:%S").to_string()
}

/// A date of the proleptic Gregorian calendar with a time of day, to the
/// second, without a time zone.
#[derive(Clone, Copy, Debug, PartialEq, Eq)]
pub struct CivilDateTime {
    year: i32,
    month: u32,
    day: u32,
    hour: u32,
    minute: u32,
    second: u32,
}

impl View for CivilDateTime {
    type V = CivilFields;

    closed spec fn view(&self) -> CivilFields {
        CivilFields {
            year: self.year as int,
            month: self.month as int,
            day: self.day as int,
            hour: self.hour as int,
            minute: self.minute as int,
            second: self.second as int,
        }
    }
}

impl CivilDateTime {
    #[verifier::type_invariant]
    spec fn well_formed(self) -> bool {
        self@.valid()
    }

    /// The civil time with the given fields, if there is one.
    pub fn new(year: i32, month: u32, day: u32, hour: u32, minute: u32, second: u32) -> (made:
        Option<CivilDateTime>)
        ensures
            made is Some <==> is_calendar_date(year as int, month as int, day as int)
                && is_clock_time(hour as int, minute as int, second as int),
            made matches Some(t) ==> t@ == (CivilFields {
                year: year as int,
                month: month as int,
                day: day as int,
                hour: hour as int,
                minute: minute as int,
                second: second as int,
            }),
    {
        if calendar_date_exists(year, month, day) && clock_time_exists(hour, minute, second) {
            Some(CivilDateTime { year, month, day, hour, minute, second })
        } else {
            None
        }
    }

    /// The year, from `MIN_YEAR` to `MAX_YEAR`.
    pub fn year(&self) -> (year: i32)
        ensures
            year == self@.year,
            self@.valid(),
    {
        proof {
            use_type_invariant(self);
        }
        self.year
    }

    /// The month, from 1 to 12.
    pub fn month(&self) -> (month: u32)
        ensures
            month == self@.month,
            self@.valid(),
    {
        proof {
            use_type_invariant(self);
        }
        self.month
    }

    /// The day of the month, from 1.
    pub fn day(&self) -> (day: u32)
        ensures
            day == self@.day,
            self@.valid(),
    {
        proof {
            use_type_invariant(self);
        }
        self.day
    }

    /// The hour, from 0 to 23.
    pub fn hour(&self) -> (hour: u32)
        ensures
            hour == self@.hour,
            self@.valid(),
    {
        proof {
            use_type_invariant(self);
        }
        self.hour
    }

    /// The minute, from 0 to 59.
    pub fn minute(&self) -> (minute: u32)
        ensures
            minute == self@.minute,
            self@.valid(),
    {
        proof {
            use_type_invariant(self);
        }
        self.minute
    }

    /// The second, from 0 to 59.
    pub fn second(&self) -> (second: u32)
        ensures
            second == self@.second,
            self@.valid(),
    {
        proof {
            use_type_invariant(self);
        }
        self.second
    }

    /// Seconds since 1970-01-01T00:00:00 UTC, the civil time read as UTC.
    pub fn epoch_seconds(&self) -> (secs: i64)
        ensures
            secs == epoch_seconds(self@),
    {
        proof {
            use_type_invariant(self);
        }
        utc_timestamp(self.year, self.month, self.day, self.hour, self.minute, self.second)
    }

    /// The text `YYYY-MM-DDTHH:MM:SS` of this civil time.
    pub fn to_iso_text(&self) -> (text: String)
        ensures
            text@ == formatted_text(
                self@.year,
                self@.month,
                self@.day,
                self@.hour,
                self@.minute,
                self@.second,
            ),
            0 <= self@.year <= 9999 ==> text@ == iso_text(self@),
    {
        proof {
            use_type_invariant(self);
        }
        format_civil(self.year, self.month, self.day, self.hour, self.minute, self.second)
    }
}

} // verus!
