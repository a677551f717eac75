//! Calendar dates and the dates for which the exchange-rate service has data.
use vstd::prelude::*;

use chrono::Datelike;

use crate::error::Error;
use crate::text::{decimal, push_char, push_padded, zero_pad};

verus! {

/// The earliest year that a `chrono::NaiveDate` holds.
pub const DATE_MIN_YEAR: i32 = -262143;

/// The latest year that a `chrono::NaiveDate` holds.
pub const DATE_MAX_YEAR: i32 = 262142;

/// A day of the proleptic Gregorian calendar, given by its year, month and
/// day; such a value may name no day at all (see [`CalendarDate::is_valid`]).
#[derive(Clone, Copy, Debug, PartialEq, Eq, Structural, PartialOrd, Ord, Hash)]
pub struct CalendarDate {
    pub year: i32,
    pub month: u32,
    pub day: u32,
}

pub open spec fn is_leap_year(year: int) -> bool {
    (year % 4 == 0 && year % 100 != 0) || year % 400 == 0
}

pub open spec fn days_in_month(year: int, month: int) -> int {
    if month == 2 {
        if is_leap_year(year) {
            29
        } else {
            28
        }
    } else if month == 4 || month == 6 || month == 9 || month == 11 {
        30
    } else {
        31
    }
}

/// Whether `year-month-day` is a day of the calendar, in the years a
/// `chrono::NaiveDate` covers.
pub open spec fn is_calendar_date(year: int, month: int, day: int) -> bool {
    &&& DATE_MIN_YEAR <= year <= DATE_MAX_YEAR
    &&& 1 <= month <= 12
    &&& 1 <= day <= days_in_month(year, month)
}

/// The day of the week of a calendar date, counted from Monday (0) to
/// Sunday (6), by Zeller's congruence.
pub open spec fn weekday_from_monday(year: int, month: int, day: int) -> int {
    let m = if month < 3 {
        month + 12
    } else {
        month
    };
    let y = if month < 3 {
        year - 1
    } else {
        year
    };
    // 0 is Saturday, 1 is Sunday, 2 is Monday, ...
    let h = (day + (13 * (m + 1)) / 5 + y + y / 4 - y / 100 + y / 400) % 7;
    (h + 5) % 7
}

/// The day of the week that is Saturday, counted from Monday.
pub const SATURDAY: u32 = 5;

/// The day of the week that is Sunday, counted from Monday.
pub const SUNDAY: u32 = 6;

/// The text of a year: four digits for the years 0 to 9999, and a sign
/// followed by at least four digits for the others.
pub open spec fn year_text(year: int) -> Seq<char> {
    if 0 <= year <= 9999 {
        zero_pad(decimal(year as nat), 4)
    } else if year < 0 {
        seq!['-'] + zero_pad(decimal((-year) as nat), 4)
    } else {
        seq!['+'] + zero_pad(decimal(year as nat), 4)
    }
}

/// The text of a date in the form `yyyy-mm-dd`.
pub open spec fn date_text(d: CalendarDate) -> Seq<char> {
    year_text(d.year as int) + seq!['-'] + zero_pad(decimal(d.month as nat), 2) + seq!['-']
        + zero_pad(decimal(d.day as nat), 2)
}

/// The result of reading a string as a date in the form `yyyy-mm-dd`, as
/// `chrono::NaiveDate` reads it, given as year, month and day.
pub uninterp spec fn parsed_date(s: Seq<char>) -> Option<(i32, u32, u32)>;

/// Relies on `chrono::NaiveDate::from_ymd_opt`: it gives a date exactly when
/// the month, day and year name a day within chrono's range of years.
#[verifier::external_body]
fn chrono_is_date(year: i32, month: u32, day: u32) -> (r: bool)
    ensures
        r == is_calendar_date(year as int, month as int, day as int),
{
    chrono::NaiveDate::from_ymd_opt(year, month, day).is_some()
}

/// Relies on `chrono::Datelike::weekday` and `Weekday::num_days_from_monday`
/// for the day of the week of a date.
#[verifier::external_body]
fn chrono_weekday(year: i32, month: u32, day: u32) -> (r: u32)
    requires
        is_calendar_date(year as int, month as int, day as int),
    ensures
        r == weekday_from_monday(year as int, month as int, day as int),
{
    chrono::NaiveDate::from_ymd_opt(year, month, day).unwrap().weekday().num_days_from_monday()
}

/// Relies on `<chrono::NaiveDate as FromStr>::from_str` to read `yyyy-mm-dd`;
/// what it reads is always a date of the calendar.
#[verifier::external_body]
fn chrono_parse(s: &str) -> (r: Option<(i32, u32, u32)>)
    ensures
        r == parsed_date(s@),
        r matches Some(t) ==> is_calendar_date(t.0 as int, t.1 as int, t.2 as int),
{
    s.parse::<chrono::NaiveDate>().ok().map(|d| (d.year(), d.month(), d.day()))
}

/// Relies on `chrono::Local::now().date_naive()` for today's date in the
/// machine's time zone; it is always a date of the calendar.
#[verifier::external_body]
fn chrono_today() -> (r: (i32, u32, u32))
    ensures
        is_calendar_date(r.0 as int, r.1 as int, r.2 as int),
{
    let d = chrono::Local::now().date_naive();
    (d.year(), d.month(), d.day())
}

impl CalendarDate {
    pub open spec fn is_valid(self) -> bool {
        is_calendar_date(self.year as int, self.month as int, self.day as int)
    }

    /// Whether `self` comes on or before `other` in the calendar.
    pub open spec fn on_or_before(self, other: CalendarDate) -> bool {
        ||| self.year < other.year
        ||| self.year == other.year && self.month < other.month
        ||| self.year == other.year && self.month == other.month && self.day <= other.day
    }

    pub open spec fn spec_weekday(self) -> int {
        weekday_from_monday(self.year as int, self.month as int, self.day as int)
    }

    /// Whether year, month and day name a day of the calendar.
    pub fn is_valid_date(&self) -> (r: bool)
        ensures
            r == self.is_valid(),
    {
        chrono_is_date(self.year, self.month, self.day)
    }

    /// Whether `self` comes on or before `other` in the calendar.
    pub fn is_on_or_before(&self, other: &CalendarDate) -> (r: bool)
        ensures
            r == self.on_or_before(*other),
    {
        self.year < other.year || (self.year == other.year && self.month < other.month) || (
        self.year == other.year && self.month == other.month && self.day <= other.day)
    }

    /// Today's date on this machine.
    pub fn today() -> (r: CalendarDate)
        ensures
            r.is_valid(),
    {
        let (year, month, day) = chrono_today();
        CalendarDate { year, month, day }
    }

    /// Reads a date in the form `yyyy-mm-dd`.
    pub fn parse(s: &str) -> (r: Option<CalendarDate>)
        ensures
            r == (match parsed_date(s@) {
                Some(t) => Some(CalendarDate { year: t.0, month: t.1, day: t.2 }),
                None => None,
            }),
            r matches Some(d) ==> d.is_valid(),
    {
        match chrono_parse(s) {
            Some((year, month, day)) => Some(CalendarDate { year, month, day }),
            None => None,
        }
    }

    /// The date in the form `yyyy-mm-dd`, e.g. `"2024-08-03"`.
    pub fn to_iso_string(&self) -> (r: String)
        ensures
            r@ == date_text(*self),
    {
        let mut s = String::new();
        if 0 <= self.year && self.year <= 9999 {
            push_padded(&mut s, self.year as u128, 4);
        } else if self.year < 0 {
            push_char(&mut s, '-');
            push_padded(&mut s, (0 - (self.year as i64)) as u128, 4);
        } else {
            push_char(&mut s, '+');
            push_padded(&mut s, self.year as u128, 4);
        }
        push_char(&mut s, '-');
        push_padded(&mut s, self.month as u128, 2);
        push_char(&mut s, '-');
        push_padded(&mut s, self.day as u128, 2);
        assert(s@ =~= date_text(*self));
        s
    }
}

/// The first date for which the service has exchange rates: 1999-01-04.
pub open spec fn first_rate_date() -> CalendarDate {
    CalendarDate { year: 1999, month: 1, day: 4 }
}

/// A date for which exchange rates may be requested: a day of the calendar,
/// which the constructors also hold to lie between [`ValidDate::min`] and
/// [`ValidDate::max`].
#[derive(Clone, Copy, Debug, PartialEq, Eq, PartialOrd, Ord, Hash)]
pub struct ValidDate {
    date: CalendarDate,
}

impl ValidDate {
    #[verifier::type_invariant]
    spec fn is_day(self) -> bool {
        self.date.is_valid()
    }

    /// The calendar date held.
    pub closed spec fn view(self) -> CalendarDate {
        self.date
    }

    /// The calendar date held.
    pub fn date(&self) -> (r: CalendarDate)
        ensures
            r == self.view(),
            r.is_valid(),
    {
        proof {
            use_type_invariant(self);
        }
        self.date
    }

    /// The earliest valid date, 1999-01-04.
    pub fn min() -> (r: ValidDate)
        ensures
            r.view() == first_rate_date(),
    {
        ValidDate { date: CalendarDate { year: 1999, month: 1, day: 4 } }
    }

    /// The latest valid date: today, read from the clock at each call.
    pub fn max() -> (r: ValidDate)
        ensures
            r.view().is_valid(),
    {
        ValidDate { date: CalendarDate::today() }
    }

    /// The date `date`, where it lies between the first date with rates and
    /// `today`; else [`Error::InvalidDate`] with the date's text.
    pub fn from_date_as_of(date: CalendarDate, today: CalendarDate) -> (r: Result<ValidDate, Error>)
        ensures
            date.is_valid() && first_rate_date().on_or_before(date) && date.on_or_before(today)
                ==> (r matches Ok(v) && v.view() == date),
            !(date.is_valid() && first_rate_date().on_or_before(date) && date.on_or_before(today))
                ==> (r matches Err(Error::InvalidDate(m)) && m@ == date_text(date)),
    {
        let first = CalendarDate { year: 1999, month: 1, day: 4 };
        if date.is_valid_date() && first.is_on_or_before(&date) && date.is_on_or_before(&today) {
            Ok(ValidDate { date })
        } else {
            Err(Error::InvalidDate(date.to_iso_string()))
        }
    }

    /// The date `date`, where it lies between the first date with rates and
    /// today's date on this machine; else [`Error::InvalidDate`].
    pub fn from_date(date: CalendarDate) -> (r: Result<ValidDate, Error>)
        ensures
            r matches Ok(v) ==> v.view() == date && first_rate_date().on_or_before(date),
            !(date.is_valid() && first_rate_date().on_or_before(date)) ==> (r matches Err(
                Error::InvalidDate(m),
            ) && m@ == date_text(date)),
    {
        ValidDate::from_date_as_of(date, CalendarDate::today())
    }

    /// Reads a date in the form `yyyy-mm-dd` and checks it against the first
    /// date with rates and `today`.
    ///
    /// A string that is no date gives [`Error::InvalidDate`] with the string.
    pub fn parse_as_of(s: &str, today: CalendarDate) -> (r: Result<ValidDate, Error>)
        ensures
            parsed_date(s@) is None ==> (r matches Err(Error::InvalidDate(m)) && m@ == s@),
            parsed_date(s@) matches Some(t) ==> {
                let date = CalendarDate { year: t.0, month: t.1, day: t.2 };
                &&& first_rate_date().on_or_before(date) && date.on_or_before(today)
                    ==> (r matches Ok(v) && v.view() == date)
                &&& !(first_rate_date().on_or_before(date) && date.on_or_before(today))
                    ==> (r matches Err(Error::InvalidDate(m)) && m@ == date_text(date))
            },
    {
        match CalendarDate::parse(s) {
            Some(date) => ValidDate::from_date_as_of(date, today),
            None => Err(Error::InvalidDate(s.to_string())),
        }
    }

    /// Reads a date in the form `yyyy-mm-dd` and checks it against the first
    /// date with rates and today's date on this machine.
    pub fn parse(s: &str) -> (r: Result<ValidDate, Error>)
        ensures
            parsed_date(s@) is None ==> (r matches Err(Error::InvalidDate(m)) && m@ == s@),
            r matches Ok(v) ==> parsed_date(s@) == Some(
                (v.view().year, v.view().month, v.view().day),
            ) && first_rate_date().on_or_before(v.view()),
            parsed_date(s@) matches Some(t) ==> ({
                let date = CalendarDate { year: t.0, month: t.1, day: t.2 };
                !first_rate_date().on_or_before(date) ==> (r matches Err(Error::InvalidDate(m))
                    && m@ == date_text(date))
            }),
    {
        ValidDate::parse_as_of(s, CalendarDate::today())
    }

    /// The date in the form `yyyy-mm-dd`.
    pub fn to_iso_string(&self) -> (r: String)
        ensures
            r@ == date_text(self.view()),
    {
        self.date.to_iso_string()
    }

    /// The day of the week, counted from Monday (0) to Sunday (6).
    pub fn weekday(&self) -> (r: u32)
        ensures
            r == self.view().spec_weekday(),
    {
        proof {
            use_type_invariant(self);
        }
        chrono_weekday(self.date.year, self.date.month, self.date.day)
    }

    /// Whether `self` comes on or before `other`.
    pub fn is_on_or_before(&self, other: &ValidDate) -> (r: bool)
        ensures
            r == self.view().on_or_before(other.view()),
    {
        self.date.is_on_or_before(&other.date)
    }
}

impl Default for ValidDate {
    fn default() -> (r: Self)
        ensures
            r.view() == first_rate_date(),
    {
        ValidDate::min()
    }
}

} // verus!
