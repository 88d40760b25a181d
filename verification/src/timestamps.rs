//! Instants and calendar dates as plain integers, and the calls into the
//! `time` crate that read and print them.

use time::format_description::well_known::Iso8601;
use vstd::prelude::*;

verus! {

/// Nanoseconds in one second.
pub const NANOS_PER_SECOND: i128 = 1_000_000_000;

/// A UTC instant, counted in nanoseconds since the Unix epoch.
#[derive(Clone, Copy, Debug, PartialEq, Eq, Structural)]
pub struct Timestamp {
    pub unix_nanos: i128,
}

impl Timestamp {
    /// The instant `seconds` whole seconds after the Unix epoch.
    pub fn from_unix_seconds(seconds: i64) -> (t: Timestamp)
        ensures
            t.unix_nanos == seconds * NANOS_PER_SECOND,
    {
        Timestamp { unix_nanos: (seconds as i128) * NANOS_PER_SECOND }
    }
}

/// Whether `year` is a leap year of the proleptic Gregorian calendar.
pub open spec fn is_leap_year(year: int) -> bool {
    year % 4 == 0 && (year % 100 != 0 || year % 400 == 0)
}

/// The number of days of `month` (1 to 12) in `year`; 0 for any other month.
pub open spec fn days_in_month(year: int, month: int) -> int {
    if month == 2 {
        if is_leap_year(year) {
            29
        } else {
            28
        }
    } else if month == 4 || month == 6 || month == 9 || month == 11 {
        30
    } else if 1 <= month <= 12 {
        31
    } else {
        0
    }
}

/// Whether the three numbers name a day of the calendar, in the years
/// -9999 to 9999.
pub open spec fn is_calendar_date(year: int, month: int, day: int) -> bool {
    &&& -9999 <= year <= 9999
    &&& 1 <= month <= 12
    &&& 1 <= day <= days_in_month(year, month)
}

/// A day of the proleptic Gregorian calendar.
#[derive(Clone, Copy, Debug, PartialEq, Eq, Structural)]
pub struct CalendarDate {
    year: i32,
    month: u8,
    day: u8,
}

impl CalendarDate {
    /// Every date names a day of the calendar.
    #[verifier::type_invariant]
    pub open spec fn valid(self) -> bool {
        is_calendar_date(self.year() as int, self.month() as int, self.day() as int)
    }

    pub closed spec fn spec_year(&self) -> i32 {
        self.year
    }

    pub closed spec fn spec_month(&self) -> u8 {
        self.month
    }

    pub closed spec fn spec_day(&self) -> u8 {
        self.day
    }

    /// The date as one number that grows with the calendar: later days have
    /// larger keys.
    pub open spec fn key(self) -> int {
        (self.year() * 16 + self.month()) * 32 + self.day()
    }

    /// The date with these numbers, if there is such a day.
    pub fn new(year: i32, month: u8, day: u8) -> (date: Option<CalendarDate>)
        ensures
            date is Some <==> is_calendar_date(year as int, month as int, day as int),
            date matches Some(d) ==> d.year() == year && d.month() == month && d.day() == day,
    {
        if year < -9999 || year > 9999 || month < 1 || month > 12 || day < 1 {
            return None;
        }
        let shifted: u32 = (year + 10000) as u32;
        assert(shifted as int == year + 10000);
        let leap: bool = shifted % 4 == 0 && (shifted % 100 != 0 || shifted % 400 == 0);
        assert(leap == is_leap_year(year as int));
        let length: u8 = if month == 2 {
            if leap {
                29
            } else {
                28
            }
        } else if month == 4 || month == 6 || month == 9 || month == 11 {
            30
        } else {
            31
        };
        if day > length {
            return None;
        }
        Some(CalendarDate { year, month, day })
    }

    #[verifier::when_used_as_spec(spec_year)]
    pub fn year(&self) -> (y: i32)
        ensures
            y == self.spec_year(),
    {
        self.year
    }

    #[verifier::when_used_as_spec(spec_month)]
    pub fn month(&self) -> (m: u8)
        ensures
            m == self.spec_month(),
    {
        self.month
    }

    #[verifier::when_used_as_spec(spec_day)]
    pub fn day(&self) -> (d: u8)
        ensures
            d == self.spec_day(),
    {
        self.day
    }

    /// Whether `self` is a later day than `other`.
    pub fn is_after(&self, other: &CalendarDate) -> (later: bool)
        ensures
            later == (self.key() > other.key()),
    {
        proof {
            use_type_invariant(self);
            use_type_invariant(other);
        }
        self.year > other.year || (self.year == other.year && (self.month > other.month || (
        self.month == other.month && self.day > other.day)))
    }
}

/// What `time::Date::parse` reads from `text` as ISO 8601: the year, month
/// and day, or `None` where it reports an error.
pub uninterp spec fn iso8601_date(text: Seq<char>) -> Option<(i32, u8, u8)>;

/// Calls `time::Date::parse` with the default ISO 8601 description and hands
/// out the year, month and day of the date it returns.
#[verifier::external_body]
pub(crate) fn parse_iso8601_date(text: &str) -> (parts: Option<(i32, u8, u8)>)
    ensures
        parts == iso8601_date(text@),
{
    match time::Date::parse(text, &Iso8601::DEFAULT) {
        Ok(date) => Some((date.year(), u8::from(date.month()), date.day())),
        Err(_) => None,
    }
}

/// The calendar date that `text` holds as ISO 8601: what `time` reads from
/// it, where that is a day of the calendar.
pub closed spec fn date_of_text(text: Seq<char>) -> Option<CalendarDate> {
    match iso8601_date(text) {
        Some((year, month, day)) => if is_calendar_date(year as int, month as int, day as int) {
            Some(CalendarDate { year, month, day })
        } else {
            None
        },
        None => None,
    }
}

/// `date_of_text` gives a date exactly where `time` reads the numbers of a
/// calendar day, and then the date has those numbers.
pub proof fn lemma_date_of_text(text: Seq<char>)
    ensures
        match iso8601_date(text) {
            Some((year, month, day)) => if is_calendar_date(year as int, month as int, day as int) {
                &&& date_of_text(text) matches Some(d)
                &&& d.year() == year
                &&& d.month() == month
                &&& d.day() == day
            } else {
                date_of_text(text) is None
            },
            None => date_of_text(text) is None,
        },
{
}

/// Reads a calendar date from ISO 8601 text.
pub fn parse_date(text: &str) -> (date: Option<CalendarDate>)
    ensures
        date == date_of_text(text@),
{
    match parse_iso8601_date(text) {
        Some((year, month, day)) => CalendarDate::new(year, month, day),
        None => None,
    }
}

} // verus!
