//! Calendar dates and the clock.

use vstd::prelude::*;

use chrono::{Datelike, Timelike};

use crate::number;
use crate::number::push_padded;

verus! {

// ------------------------------------------------------------------- calendar

/// Whether a year of the Gregorian calendar has a leap day.
pub open spec fn is_leap(year: int) -> bool {
    year % 4 == 0 && (year % 100 != 0 || year % 400 == 0)
}

/// The number of days in a month; none where there is no such month.
pub open spec fn month_days(year: int, month: int) -> int {
    if month == 2 {
        if is_leap(year) {
            29
        } else {
            28
        }
    } else if month == 4 || month == 6 || month == 9 || month == 11 {
        30
    } else if 1 <= month <= 12 {
        31
    } else {
        0
    }
}

/// Whether a day exists in the calendar, in a year that dates can stand for.
pub open spec fn is_day(year: int, month: int, day: int) -> bool {
    -262143 <= year <= 262142 && 1 <= day <= month_days(year, month)
}

/// The number of days in the months before a month.
pub open spec fn days_before(year: int, month: int) -> int
    decreases month,
{
    if month <= 1 {
        0
    } else {
        days_before(year, month - 1) + month_days(year, month - 1)
    }
}

/// The number of a day, counted so that the first day of the year 1 is day 1.
pub open spec fn day_number(year: int, month: int, day: int) -> int {
    let y = year - 1;
    365 * y + y / 4 - y / 100 + y / 400 + days_before(year, month) + day
}

/// The day of the week, counted from Sunday. The first day of the year 1 was a Monday.
pub open spec fn weekday(year: int, month: int, day: int) -> int {
    day_number(year, month, day) % 7
}

/// `NaiveDate::from_ymd_opt`, `weekday` and `num_days_from_sunday` of the `chrono` crate.
/// Claimed of them: a date is made of exactly the days that exist in its years, and the
/// day of the week is the one of the Gregorian calendar.
#[verifier::external_body]
fn weekday_of(year: i32, month: u32, day: u32) -> (r: Option<u32>)
    ensures
        match r {
            Some(w) => is_day(year as int, month as int, day as int) && w == weekday(
                year as int,
                month as int,
                day as int,
            ),
            None => !is_day(year as int, month as int, day as int),
        },
{
    chrono::NaiveDate::from_ymd_opt(year, month, day).map(
        |date| date.weekday().num_days_from_sunday(),
    )
}

/// A day of the calendar.
#[derive(Debug, Clone, Copy, PartialEq, Eq, Structural)]
pub struct CalendarDate {
    pub year: i32,
    pub month: u32,
    pub day: u32,
}

impl CalendarDate {
    /// Whether the day exists.
    pub open spec fn is_valid(self) -> bool {
        is_day(self.year as int, self.month as int, self.day as int)
    }

    /// The date of a day, if that day exists.
    pub fn from_ymd_opt(year: i32, month: u32, day: u32) -> (r: Option<CalendarDate>)
        ensures
            r == if is_day(year as int, month as int, day as int) {
                Some(CalendarDate { year, month, day })
            } else {
                None
            },
    {
        match weekday_of(year, month, day) {
            Some(_) => Some(CalendarDate { year, month, day }),
            None => None,
        }
    }

    /// The day of the week, counted from Sunday.
    pub fn num_days_from_sunday(&self) -> (r: u32)
        requires
            self.is_valid(),
        ensures
            r == weekday(self.year as int, self.month as int, self.day as int),
            r < 7,
    {
        match weekday_of(self.year, self.month, self.day) {
            Some(w) => w,
            None => 0,
        }
    }
}

// ---------------------------------------------------------------------- text

/// A year with at least four characters, the sign counted.
pub open spec fn padded_year(year: int) -> Seq<char> {
    if year < 0 {
        seq!['-'] + number::padded((-year) as nat, 3)
    } else {
        number::padded(year as nat, 4)
    }
}

/// Writes a year with at least four characters, the sign counted.
pub(crate) fn push_year(out: &mut String, year: i32)
    ensures
        final(out)@ == old(out)@ + padded_year(year as int),
{
    let ghost start = out@;
    let wide: i64 = year as i64;
    if wide < 0 {
        out.push('-');
        push_padded(out, (0 - wide) as u64, 3);
        assert(out@ == start + padded_year(year as int));
    } else {
        push_padded(out, wide as u64, 4);
    }
}

/// A year as a date writes it: four digits, and a sign in front of a year that has more
/// or that is before the year 0.
pub open spec fn date_year(year: int) -> Seq<char> {
    if year < 0 {
        seq!['-'] + number::padded((-year) as nat, 4)
    } else if year > 9999 {
        seq!['+'] + number::padded(year as nat, 4)
    } else {
        number::padded(year as nat, 4)
    }
}

/// A date as year, month and day with hyphens between them.
pub open spec fn date_text(date: CalendarDate) -> Seq<char> {
    date_year(date.year as int) + seq!['-'] + number::padded(date.month as nat, 2) + seq!['-']
        + number::padded(date.day as nat, 2)
}

/// Writes a date as year, month and day with hyphens between them.
pub fn format_date(date: &CalendarDate) -> (r: String)
    ensures
        r@ == date_text(*date),
{
    let mut out = String::new();
    let wide: i64 = date.year as i64;
    if wide < 0 {
        out.push('-');
        push_padded(&mut out, (0 - wide) as u64, 4);
    } else {
        if wide > 9999 {
            out.push('+');
        }
        push_padded(&mut out, wide as u64, 4);
    }
    assert(out@ == date_year(date.year as int));
    out.push('-');
    push_padded(&mut out, date.month as u64, 2);
    out.push('-');
    push_padded(&mut out, date.day as u64, 2);
    assert(out@ == date_text(*date));
    out
}

/// What `NaiveDate::parse_from_str` reads a text as, with year, month and day separated by
/// hyphens. The forms it takes besides the plain one are not written out here.
pub uninterp spec fn parsed_date(s: Seq<char>) -> Option<(i32, u32, u32)>;

/// Whether a text is four digits, two digits and two digits with hyphens between them.
pub open spec fn is_plain_date(s: Seq<char>) -> bool {
    s.len() == 10 && s[4] == '-' && s[7] == '-' && number::all_digits(s.subrange(0, 4))
        && number::all_digits(s.subrange(5, 7)) && number::all_digits(s.subrange(8, 10))
}

/// The year, month and day of a plain date.
pub open spec fn plain_date(s: Seq<char>) -> (int, int, int) {
    (
        number::digits_value(s.subrange(0, 4)) as int,
        number::digits_value(s.subrange(5, 7)) as int,
        number::digits_value(s.subrange(8, 10)) as int,
    )
}

/// `NaiveDate::parse_from_str` of the `chrono` crate with the format `%Y-%m-%d`, and the
/// year, month and day of what it returns. Claimed of it: the result depends on the text
/// alone and is a day that exists, and four, two and two digits with hyphens between them
/// are read as the day they name, if there is one.
#[verifier::external_body]
fn read_date(s: &str) -> (r: Option<(i32, u32, u32)>)
    ensures
        r == parsed_date(s@),
        r matches Some((y, m, d)) ==> is_day(y as int, m as int, d as int),
        is_plain_date(s@) ==> match r {
            Some((y, m, d)) => plain_date(s@) == (y as int, m as int, d as int),
            None => !is_day(plain_date(s@).0, plain_date(s@).1, plain_date(s@).2),
        },
{
    match chrono::NaiveDate::parse_from_str(s, "%Y-%m-%d") {
        Ok(date) => Some((date.year(), date.month(), date.day())),
        Err(_) => None,
    }
}

/// The date that a text stands for.
pub open spec fn date_of(s: Seq<char>) -> Option<CalendarDate> {
    match parsed_date(s) {
        Some((year, month, day)) => Some(CalendarDate { year, month, day }),
        None => None,
    }
}

/// Reads a date.
pub fn parse_date(s: &str) -> (r: Option<CalendarDate>)
    ensures
        r == date_of(s@),
        r matches Some(date) ==> date.is_valid(),
        is_plain_date(s@) ==> match r {
            Some(date) => plain_date(s@) == (
                date.year as int,
                date.month as int,
                date.day as int,
            ),
            None => !is_day(plain_date(s@).0, plain_date(s@).1, plain_date(s@).2),
        },
{
    match read_date(s) {
        Some((year, month, day)) => Some(CalendarDate { year, month, day }),
        None => None,
    }
}

// ---------------------------------------------------------------------- clock

/// A moment, as a clock on the wall shows it and in milliseconds since 1970.
#[derive(Debug, Clone, Copy, PartialEq, Eq, Structural)]
pub struct Moment {
    pub date: CalendarDate,
    pub hour: u32,
    pub minute: u32,
    pub ms: i64,
}

impl Moment {
    /// Whether the date exists and the time of day is one.
    pub open spec fn is_valid(self) -> bool {
        self.date.is_valid() && self.hour < 24 && self.minute < 60
    }
}

/// `Local::now` of the `chrono` crate, and the parts of what it returns. Claimed of it: the
/// date is one that exists, and hour and minute are in range. Which moment it is, is left
/// open.
#[verifier::external_body]
pub(crate) fn now() -> (r: Moment)
    ensures
        r.is_valid(),
{
    let t = chrono::Local::now();
    Moment {
        date: CalendarDate { year: t.year(), month: t.month(), day: t.day() },
        hour: t.hour(),
        minute: t.minute(),
        ms: t.timestamp_millis(),
    }
}

/// The moment as an entry names it: date, hour and minute.
pub open spec fn stamp_text(m: Moment) -> Seq<char> {
    date_text(m.date) + seq![' '] + number::padded(m.hour as nat, 2) + seq![':'] + number::padded(
        m.minute as nat,
        2,
    )
}

/// Writes a moment as an entry names it.
pub fn format_stamp(m: &Moment) -> (r: String)
    ensures
        r@ == stamp_text(*m),
{
    let mut out: String = format_date(&m.date);
    out.push(' ');
    push_padded(&mut out, m.hour as u64, 2);
    out.push(':');
    push_padded(&mut out, m.minute as u64, 2);
    assert(out@ == stamp_text(*m));
    out
}

} // verus!
