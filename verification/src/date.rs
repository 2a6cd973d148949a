//! Calendar dates.
//!
//! A [`Date`] holds year, month and day as plain numbers, so that contracts can
//! speak of them.  Validity and order are decided here; the day of the week and
//! day arithmetic are computed by `chrono`, whose results are named
//! ([`weekday_number`], [`date_plus_days`]) rather than restated.

use chrono::Datelike;
use chrono::NaiveDate;
use chrono::TimeDelta;
use vstd::prelude::*;

verus! {

/// The first year that a date can lie in.
pub const MIN_YEAR: i32 = -262143;

/// The last year that a date can lie in.
pub const MAX_YEAR: i32 = 262142;

/// A day of the week.
#[derive(Clone, Copy, Debug, PartialEq, Eq, Structural)]
pub enum Weekday {
    Mon,
    Tue,
    Wed,
    Thu,
    Fri,
    Sat,
    Sun,
}

impl Weekday {
    /// The number of days from Monday: 0 for Monday up to 6 for Sunday.
    pub open spec fn number(self) -> int {
        match self {
            Weekday::Mon => 0,
            Weekday::Tue => 1,
            Weekday::Wed => 2,
            Weekday::Thu => 3,
            Weekday::Fri => 4,
            Weekday::Sat => 5,
            Weekday::Sun => 6,
        }
    }

    /// The weekday that lies `n` days after Monday, for `n` below 7.
    pub open spec fn of_number(n: int) -> Weekday {
        if n == 0 {
            Weekday::Mon
        } else if n == 1 {
            Weekday::Tue
        } else if n == 2 {
            Weekday::Wed
        } else if n == 3 {
            Weekday::Thu
        } else if n == 4 {
            Weekday::Fri
        } else if n == 5 {
            Weekday::Sat
        } else {
            Weekday::Sun
        }
    }

    /// Computes [`Weekday::number`].
    pub fn index(&self) -> (n: u32)
        ensures
            n == self.number(),
            n < 7,
    {
        match self {
            Weekday::Mon => 0,
            Weekday::Tue => 1,
            Weekday::Wed => 2,
            Weekday::Thu => 3,
            Weekday::Fri => 4,
            Weekday::Sat => 5,
            Weekday::Sun => 6,
        }
    }

    /// Computes [`Weekday::of_number`].
    pub fn from_index(n: u32) -> (w: Weekday)
        requires
            n < 7,
        ensures
            w == Weekday::of_number(n as int),
            w.number() == n,
    {
        if n == 0 {
            Weekday::Mon
        } else if n == 1 {
            Weekday::Tue
        } else if n == 2 {
            Weekday::Wed
        } else if n == 3 {
            Weekday::Thu
        } else if n == 4 {
            Weekday::Fri
        } else if n == 5 {
            Weekday::Sat
        } else {
            Weekday::Sun
        }
    }
}

/// A calendar date of the proleptic Gregorian calendar.
#[derive(Clone, Copy, Debug, PartialEq, Eq, Structural)]
pub struct Date {
    pub year: i32,
    pub month: u32,
    pub day: u32,
}

/// Whether year `y` has a 29th of February.
pub open spec fn is_leap_year(y: int) -> bool {
    y % 4 == 0 && (y % 100 != 0 || y % 400 == 0)
}

/// The number of days of month `m` in year `y`; 0 where `m` is no month.
pub open spec fn days_in_month(y: int, m: int) -> int {
    if m == 1 || m == 3 || m == 5 || m == 7 || m == 8 || m == 10 || m == 12 {
        31
    } else if m == 4 || m == 6 || m == 9 || m == 11 {
        30
    } else if m == 2 {
        if is_leap_year(y) {
            29
        } else {
            28
        }
    } else {
        0
    }
}

/// Year, month and day name a day that exists.
pub open spec fn valid_ymd(y: int, m: int, d: int) -> bool {
    &&& MIN_YEAR <= y <= MAX_YEAR
    &&& 1 <= m <= 12
    &&& 1 <= d <= days_in_month(y, m)
}

/// The day of the week of a valid date, as days from Monday, as `chrono`
/// computes it.
pub uninterp spec fn weekday_number(d: Date) -> int;

/// The date `n` days after `d` (before it, where `n` is negative), as `chrono`
/// computes it; `None` where that day lies outside the years a date can hold.
pub uninterp spec fn date_plus_days(d: Date, n: int) -> Option<Date>;

/// Decides [`is_leap_year`].
pub fn leap_year(y: i32) -> (r: bool)
    requires
        MIN_YEAR <= y <= MAX_YEAR,
    ensures
        r == is_leap_year(y as int),
{
    // 400_000 is a multiple of 400, so the shift keeps the remainders.
    let shifted: u32 = (y + 400_000) as u32;
    assert((y as int) % 4 == (shifted as int) % 4);
    assert((y as int) % 100 == (shifted as int) % 100);
    assert((y as int) % 400 == (shifted as int) % 400);
    shifted % 4 == 0 && (shifted % 100 != 0 || shifted % 400 == 0)
}

/// Computes [`days_in_month`].
pub fn month_length(y: i32, m: u32) -> (r: u32)
    requires
        MIN_YEAR <= y <= MAX_YEAR,
    ensures
        r == days_in_month(y as int, m as int),
{
    if m == 1 || m == 3 || m == 5 || m == 7 || m == 8 || m == 10 || m == 12 {
        31
    } else if m == 4 || m == 6 || m == 9 || m == 11 {
        30
    } else if m == 2 {
        if leap_year(y) {
            29
        } else {
            28
        }
    } else {
        0
    }
}

impl Date {
    /// The date names a day that exists.
    pub open spec fn valid(self) -> bool {
        valid_ymd(self.year as int, self.month as int, self.day as int)
    }

    /// `self` lies strictly before `other`.
    pub open spec fn precedes(self, other: Date) -> bool {
        self.year < other.year || (self.year == other.year && (self.month < other.month || (
        self.month == other.month && self.day < other.day)))
    }

    /// The date of the given year, month and day, where that day exists.
    pub fn from_ymd(year: i32, month: u32, day: u32) -> (r: Option<Date>)
        ensures
            r is Some <==> valid_ymd(year as int, month as int, day as int),
            r is Some ==> r->0 == (Date { year, month, day }),
    {
        if year < MIN_YEAR || year > MAX_YEAR {
            return None;
        }
        if month < 1 || month > 12 || day < 1 {
            return None;
        }
        if day > month_length(year, month) {
            return None;
        }
        Some(Date { year, month, day })
    }

    /// Decides [`Date::precedes`].
    pub fn is_before(&self, other: &Date) -> (r: bool)
        ensures
            r == self.precedes(*other),
    {
        self.year < other.year || (self.year == other.year && (self.month < other.month || (
        self.month == other.month && self.day < other.day)))
    }

    /// Whether two dates are the same day.
    pub fn same_day(&self, other: &Date) -> (r: bool)
        ensures
            r == (*self == *other),
    {
        self.year == other.year && self.month == other.month && self.day == other.day
    }

    /// The day of the week.
    pub fn weekday(&self) -> (w: Weekday)
        requires
            self.valid(),
        ensures
            w.number() == weekday_number(*self),
    {
        Weekday::from_index(weekday_index(*self))
    }

    /// The date `n` days later, or earlier where `n` is negative.
    pub fn plus_days(&self, n: i64) -> (r: Option<Date>)
        requires
            self.valid(),
        ensures
            r == date_plus_days(*self, n as int),
            r is Some ==> r->0.valid(),
    {
        add_days(*self, n)
    }
}

/// Calls `NaiveDate::weekday` and `Weekday::num_days_from_monday`.  The answer
/// is named, and lies below 7 as the latter documents.
#[verifier::external_body]
fn weekday_index(d: Date) -> (n: u32)
    requires
        d.valid(),
    ensures
        n == weekday_number(d),
        n < 7,
{
    let day = NaiveDate::from_ymd_opt(d.year, d.month, d.day).unwrap();
    day.weekday().num_days_from_monday()
}

/// Calls `NaiveDate::checked_add_signed` with `TimeDelta::try_days(n)`.  The
/// result is named; what comes back is a `NaiveDate`, hence a day that exists.
#[verifier::external_body]
fn add_days(d: Date, n: i64) -> (r: Option<Date>)
    requires
        d.valid(),
    ensures
        r == date_plus_days(d, n as int),
        r is Some ==> r->0.valid(),
{
    let day = NaiveDate::from_ymd_opt(d.year, d.month, d.day).unwrap();
    let delta = TimeDelta::try_days(n)?;
    let sum = day.checked_add_signed(delta)?;
    Some(Date { year: sum.year(), month: sum.month(), day: sum.day() })
}

/// Of two different days one lies before the other.
pub proof fn lemma_precedes_total(a: Date, b: Date)
    ensures
        a.precedes(b) || b.precedes(a) || a == b,
        !(a.precedes(b) && b.precedes(a)),
        !a.precedes(a),
{
}

/// The order of days is transitive.
pub proof fn lemma_precedes_transitive(a: Date, b: Date, c: Date)
    requires
        a.precedes(b),
        b.precedes(c),
    ensures
        a.precedes(c),
{
}

} // verus!
