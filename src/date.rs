//! Calendar dates as plain year, month and day values.
use chrono::Datelike;
use vstd::prelude::*;

verus! {

/// A calendar date of the proleptic Gregorian calendar.
#[derive(Clone, Copy, Debug, PartialEq, Eq, Structural)]
pub struct Date {
    pub year: i32,
    pub month: u32,
    pub day: u32,
}

/// Whether `y` is a leap year of the Gregorian calendar.
pub open spec fn is_leap_year(y: int) -> bool {
    (y % 4 == 0 && y % 100 != 0) || y % 400 == 0
}

/// The number of days of month `m` (1 to 12) of year `y`.
pub open spec fn days_in_month(y: int, m: int) -> int {
    if m == 2 {
        if is_leap_year(y) { 29 } else { 28 }
    } else if m == 4 || m == 6 || m == 9 || m == 11 {
        30
    } else {
        31
    }
}

/// Whether year, month and day name an existing calendar date.
pub open spec fn valid_ymd(y: int, m: int, d: int) -> bool {
    1 <= m <= 12 && 1 <= d <= days_in_month(y, m)
}

/// A number that orders valid dates chronologically: the month and the day
/// each take fewer than 32 values.
pub open spec fn ymd_key(y: int, m: int, d: int) -> int {
    y * 512 + m * 32 + d
}

impl Date {
    /// The date names an existing day.
    pub open spec fn valid(self) -> bool {
        valid_ymd(self.year as int, self.month as int, self.day as int)
    }

    /// The position of the date on the time line (see `ymd_key`).
    pub open spec fn key(self) -> int {
        ymd_key(self.year as int, self.month as int, self.day as int)
    }

    /// The last day of the month of this date.
    pub open spec fn month_end(self) -> Date {
        Date {
            year: self.year,
            month: self.month,
            day: days_in_month(self.year as int, self.month as int) as u32,
        }
    }

    /// The date `year-month-day`, or `None` where no such day exists.
    pub fn from_ymd_opt(year: i32, month: u32, day: u32) -> (r: Option<Date>)
        ensures
            r == (if valid_ymd(year as int, month as int, day as int) {
                Some(Date { year, month, day })
            } else {
                None::<Date>
            }),
    {
        if 1 <= month && month <= 12 && 1 <= day && day <= last_day_of_month(year, month) {
            Some(Date { year, month, day })
        } else {
            None
        }
    }

    /// The date's key, as a machine integer.
    pub fn key_exec(&self) -> (r: i64)
        ensures
            r as int == self.key(),
    {
        self.year as i64 * 512 + self.month as i64 * 32 + self.day as i64
    }
}

/// The number of the last day of month `month` (1 to 12) of `year`.
pub fn last_day_of_month(year: i32, month: u32) -> (r: u32)
    requires
        1 <= month <= 12,
    ensures
        r as int == days_in_month(year as int, month as int),
{
    if month == 2 {
        if (year % 4 == 0 && year % 100 != 0) || year % 400 == 0 {
            29
        } else {
            28
        }
    } else if month == 4 || month == 6 || month == 9 || month == 11 {
        30
    } else {
        31
    }
}

/// Whether `start` and `end` delimit a reporting period: `start` is the first
/// day of a month and `end` the last day of that same month.
pub fn is_month_period(start: Date, end: Date) -> (r: bool)
    requires
        start.valid(),
    ensures
        r == (start.day == 1 && end == start.month_end()),
{
    start.day == 1 && end.year == start.year && end.month == start.month && end.day
        == last_day_of_month(start.year, start.month)
}

/// What chrono reads from `s` with the pattern `%d/%b/%Y`, as year, month
/// and day.
pub uninterp spec fn parsed_dmy(s: Seq<char>) -> Option<(i32, u32, u32)>;

/// Relies on `chrono::NaiveDate::parse_from_str` with the pattern `%d/%b/%Y`
/// (day, abbreviated month name, year): the outcome depends on the text
/// alone, and a date that it returns exists.
#[verifier::external_body]
pub(crate) fn parse_dmy(s: &str) -> (r: Option<Date>)
    ensures
        r == (match parsed_dmy(s@) {
            Some(t) => Some(Date { year: t.0, month: t.1, day: t.2 }),
            None => None::<Date>,
        }),
        r matches Some(d) ==> d.valid(),
{
    match chrono::NaiveDate::parse_from_str(s, "%d/%b/%Y") {
        Ok(d) => Some(Date { year: d.year(), month: d.month(), day: d.day() }),
        Err(_) => None,
    }
}

/// For valid dates the key order is the chronological (lexicographic) order.
pub proof fn lemma_key_order(a: Date, b: Date)
    requires
        a.valid(),
        b.valid(),
    ensures
        (a.key() < b.key()) == (a.year < b.year || (a.year == b.year && (a.month < b.month || (
        a.month == b.month && a.day < b.day)))),
        (a.key() == b.key()) == (a == b),
{
}

/// A valid date that is the first of its month comes after the end of every
/// earlier month: a period that starts later starts after this month ends.
pub proof fn lemma_month_end_before_next(a: Date, b: Date)
    requires
        a.valid(),
        b.valid(),
        b.day == 1,
        a.key() < b.key(),
        !(a.year == b.year && a.month == b.month),
    ensures
        a.month_end().key() < b.key(),
{
}

} // verus!
