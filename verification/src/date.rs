//! Calendar dates as plain year/month/day values, together with the two
//! clock/parsing calls the tracker needs from the `chrono` crate.

use chrono::Datelike;
use vstd::prelude::*;

verus! {

/// A calendar date. A well-formed date (see [`Date::wf`]) has a year that fits
/// the four-digit encoding used by the on-disk format, a month in `1..=12`,
/// and a day in `1..=31`.
#[derive(Debug, PartialEq, Eq, Clone, Copy, Structural)]
pub struct Date {
    pub year: u16,
    pub month: u8,
    pub day: u8,
}

impl Date {
    /// Field ranges every date held by a task satisfies.
    pub open spec fn wf(self) -> bool {
        &&& self.year <= 9999
        &&& 1 <= self.month <= 12
        &&& 1 <= self.day <= 31
    }

    /// Builds a date, rejecting field values outside the well-formed ranges.
    pub fn new(year: u16, month: u8, day: u8) -> (r: Option<Date>)
        ensures
            r is Some <==> (year <= 9999 && 1 <= month <= 12 && 1 <= day <= 31),
            r matches Some(d) ==> d == (Date { year, month, day }) && d.wf(),
    {
        if year <= 9999 && 1 <= month && month <= 12 && 1 <= day && day <= 31 {
            Some(Date { year, month, day })
        } else {
            None
        }
    }

    /// `self` is strictly before `other` in calendar order.
    pub open spec fn lt_spec(self, other: Date) -> bool {
        ||| self.year < other.year
        ||| (self.year == other.year && self.month < other.month)
        ||| (self.year == other.year && self.month == other.month && self.day < other.day)
    }

    /// Executable calendar-order comparison.
    pub fn lt(&self, other: &Date) -> (r: bool)
        ensures
            r == self.lt_spec(*other),
    {
        if self.year != other.year {
            self.year < other.year
        } else if self.month != other.month {
            self.month < other.month
        } else {
            self.day < other.day
        }
    }
}

/// What `chrono` parses out of a string with the `%Y-%m-%d` format: the
/// result depends on the characters alone.
pub uninterp spec fn parsed_ymd(s: Seq<char>) -> Option<(i32, u32, u32)>;

/// Relies on `chrono::NaiveDate::parse_from_str` with format `%Y-%m-%d`, and
/// on the `Datelike` accessors `year`, `month` and `day`, whose documentation
/// promises a month in `1..=12` and a day in `1..=31`.
#[verifier::external_body]
pub(crate) fn parse_ymd(s: &str) -> (r: Option<(i32, u32, u32)>)
    ensures
        r == parsed_ymd(s@),
        r matches Some(t) ==> 1 <= t.1 <= 12 && 1 <= t.2 <= 31,
{
    match chrono::NaiveDate::parse_from_str(s, "%Y-%m-%d") {
        Ok(d) => Some((d.year(), d.month(), d.day())),
        Err(_) => None,
    }
}

/// Relies on `chrono::Local::now` and the `Datelike` accessors `year`, `month`
/// and `day`: the month is documented to lie in `1..=12` and the day in
/// `1..=31`. The year depends on the system clock, so nothing more is stated.
#[verifier::external_body]
pub(crate) fn today_ymd() -> (r: (i32, u32, u32))
    ensures
        1 <= r.1 <= 12,
        1 <= r.2 <= 31,
{
    let now = chrono::Local::now();
    (now.year(), now.month(), now.day())
}

/// Turns raw year/month/day numbers (as handed back by the date parser) into
/// a [`Date`], rejecting values outside the well-formed ranges.
pub fn date_from_numbers(y: i32, m: u32, d: u32) -> (r: Option<Date>)
    ensures
        r is Some <==> (0 <= y <= 9999 && 1 <= m <= 12 && 1 <= d <= 31),
        r matches Some(date) ==> date.year == y && date.month == m && date.day == d && date.wf(),
{
    if 0 <= y && y <= 9999 && 1 <= m && m <= 12 && 1 <= d && d <= 31 {
        Some(Date { year: y as u16, month: m as u8, day: d as u8 })
    } else {
        None
    }
}

/// The current local date. A clock outside the representable year range
/// `0..=9999` is clamped to its nearest bound, so the result is always
/// well formed.
pub fn today() -> (r: Date)
    ensures
        r.wf(),
{
    let (y, m, d) = today_ymd();
    let year: u16 = if y < 0 {
        0
    } else if y > 9999 {
        9999
    } else {
        y as u16
    };
    Date { year, month: m as u8, day: d as u8 }
}

} // verus!
