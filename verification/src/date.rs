//! Calendar dates, held as year, month and day.

use chrono::NaiveDate;
use vstd::prelude::*;

verus! {

/// Earliest year that a `chrono::NaiveDate` can hold.
pub const MIN_YEAR: i32 = -262143;

/// Latest year that a `chrono::NaiveDate` can hold.
pub const MAX_YEAR: i32 = 262142;

#[verifier::external_type_specification]
#[verifier::external_body]
pub struct ExNaiveDate(NaiveDate);

/// Gregorian leap years (proleptic, year 0 included).
pub open spec fn is_leap_year(year: int) -> bool {
    year % 4 == 0 && (year % 100 != 0 || year % 400 == 0)
}

/// Number of days in the given month of the given year.
pub open spec fn days_in_month(year: int, month: int) -> int {
    if month == 2 {
        if is_leap_year(year) { 29 } else { 28 }
    } else if month == 4 || month == 6 || month == 9 || month == 11 {
        30
    } else {
        31
    }
}

/// The calendar day exists and its year is one that `NaiveDate` can hold.
pub open spec fn valid_ymd(year: int, month: int, day: int) -> bool {
    &&& MIN_YEAR <= year <= MAX_YEAR
    &&& 1 <= month <= 12
    &&& 1 <= day <= days_in_month(year, month)
}

/// Calls `NaiveDate::from_ymd_opt` and tells whether it gave a date. Its
/// documentation says that it returns `None` exactly when the calendar day
/// does not exist, the month or day is invalid or the year is out of range;
/// the source checks the year against `MIN_YEAR..=MAX_YEAR` and the day
/// against the length of the month in the proleptic Gregorian calendar.
#[verifier::external_body]
fn naive_date_exists(year: i32, month: u32, day: u32) -> (r: bool)
    ensures
        r == valid_ymd(year as int, month as int, day as int),
{
    NaiveDate::from_ymd_opt(year, month, day).is_some()
}

/// A calendar day. Dates are ordered by year, then month, then day.
#[derive(Clone, Copy, Debug, PartialEq, Eq, Structural)]
pub struct Date {
    pub year: i32,
    pub month: u32,
    pub day: u32,
}

/// The key by which dates are ordered.
pub open spec fn date_key(d: Date) -> int {
    d.year * 10000 + d.month * 100 + d.day
}

/// `a` comes before `b`, comparing year, then month, then day.
pub open spec fn date_lt(a: Date, b: Date) -> bool {
    ||| a.year < b.year
    ||| a.year == b.year && a.month < b.month
    ||| a.year == b.year && a.month == b.month && a.day < b.day
}

/// Valid dates have the same key only when they are the same day.
pub proof fn lemma_date_key_injective(a: Date, b: Date)
    requires
        a.wf(),
        b.wf(),
    ensures
        date_key(a) == date_key(b) <==> a == b,
{
}

/// On existing days, ordering by key is the calendar order: year, then
/// month, then day.
pub proof fn lemma_date_key_order(a: Date, b: Date)
    requires
        a.wf(),
        b.wf(),
    ensures
        date_key(a) < date_key(b) <==> date_lt(a, b),
{
}

impl Date {
    pub open spec fn wf(self) -> bool {
        valid_ymd(self.year as int, self.month as int, self.day as int)
    }

    /// The date with the given year, month and day, or `None` where there is
    /// no such day (`NaiveDate::from_ymd_opt`).
    pub fn from_ymd_opt(year: i32, month: u32, day: u32) -> (r: Option<Date>)
        ensures
            r matches Some(d) ==> d == (Date { year, month, day }),
            r is Some <==> valid_ymd(year as int, month as int, day as int),
    {
        if naive_date_exists(year, month, day) {
            Some(Date { year, month, day })
        } else {
            None
        }
    }

    /// The first day of this date's month.
    pub fn month_start(&self) -> (r: Date)
        requires
            self.wf(),
        ensures
            r == (Date { year: self.year, month: self.month, day: 1 }),
            r.wf(),
    {
        Date::from_ymd_opt(self.year, self.month, 1).expect("a month's first day exists")
    }

    /// Whether both are the same day.
    pub fn same_day(&self, other: &Date) -> (r: bool)
        ensures
            r == (*self == *other),
    {
        self.year == other.year && self.month == other.month && self.day == other.day
    }

    /// Whether `self` comes before `other`, comparing year, then month, then
    /// day (the calendar order, for dates that exist).
    pub fn precedes(&self, other: &Date) -> (r: bool)
        ensures
            r == date_lt(*self, *other),
    {
        self.year < other.year || (self.year == other.year && (self.month < other.month || (self.month
            == other.month && self.day < other.day)))
    }

    /// `self < other` in calendar order.
    pub fn is_before(&self, other: &Date) -> (r: bool)
        requires
            self.wf(),
            other.wf(),
        ensures
            r == (date_key(*self) < date_key(*other)),
    {
        if self.year != other.year {
            self.year < other.year
        } else if self.month != other.month {
            self.month < other.month
        } else {
            self.day < other.day
        }
    }
}

} // verus!
