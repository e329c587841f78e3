//! Timezone-naive calendar timestamps at second resolution.
//!
//! A timestamp is a pair of a calendar `Date` (year, month, day in the
//! proleptic Gregorian calendar) and a `Time` of day (hour, minute, second).
//! Chronological order on well-formed timestamps is the lexicographic order
//! on their components.
use vstd::prelude::*;

verus! {

/// A calendar date: year, month and day.
#[derive(PartialEq, Eq, Structural, PartialOrd, Ord, Debug, Clone, Copy, Hash)]
pub struct Date {
    pub year: u16,
    pub month: u8,
    pub day: u8,
}

/// A time of day with second resolution.
#[derive(PartialEq, Eq, Structural, PartialOrd, Ord, Debug, Clone, Copy, Hash)]
pub struct Time {
    pub hour: u8,
    pub minute: u8,
    pub second: u8,
}

/// A timezone-naive timestamp: a date together with a time of day.
#[derive(PartialEq, Eq, Structural, PartialOrd, Ord, Debug, Clone, Copy, Hash)]
pub struct DateTime {
    pub date: Date,
    pub time: Time,
}

/// A year is a leap year iff it is divisible by 4 but not by 100,
/// or divisible by 400.
pub open spec fn spec_is_leap_year(year: int) -> bool {
    (year % 4 == 0 && year % 100 != 0) || year % 400 == 0
}

/// The number of days in the given month of the given year.
pub open spec fn spec_days_in_month(year: int, month: int) -> int {
    if month == 1 {
        31
    } else if month == 2 {
        if spec_is_leap_year(year) {
            29
        } else {
            28
        }
    } else if month == 3 {
        31
    } else if month == 4 {
        30
    } else if month == 5 {
        31
    } else if month == 6 {
        30
    } else if month == 7 {
        31
    } else if month == 8 {
        31
    } else if month == 9 {
        30
    } else if month == 10 {
        31
    } else if month == 11 {
        30
    } else {
        31
    }
}

impl Date {
    /// A well-formed date has a four-digit year, a month between 1 and 12
    /// and a day that exists in that month.
    pub open spec fn wf(self) -> bool {
        &&& self.year <= 9999
        &&& 1 <= self.month <= 12
        &&& 1 <= self.day <= spec_days_in_month(self.year as int, self.month as int)
    }

    /// Builds the date with the given components, or `None` when they do not
    /// name a day of the calendar.
    pub fn new(year: u16, month: u8, day: u8) -> (r: Option<Date>)
        ensures
            match r {
                Some(d) => d == (Date { year, month, day }) && d.wf(),
                None => !(Date { year, month, day }).wf(),
            },
    {
        let d = Date { year, month, day };
        if year <= 9999 && 1 <= month && month <= 12 && 1 <= day && day <= days_in_month(
            year,
            month,
        ) {
            Some(d)
        } else {
            None
        }
    }
}

impl Time {
    /// A well-formed time of day has hour below 24 and minute and second
    /// below 60.
    pub open spec fn wf(self) -> bool {
        self.hour < 24 && self.minute < 60 && self.second < 60
    }

    /// Builds the time of day with the given components, or `None` when they
    /// are out of range.
    pub fn new(hour: u8, minute: u8, second: u8) -> (r: Option<Time>)
        ensures
            match r {
                Some(t) => t == (Time { hour, minute, second }) && t.wf(),
                None => !(Time { hour, minute, second }).wf(),
            },
    {
        let t = Time { hour, minute, second };
        if hour < 24 && minute < 60 && second < 60 {
            Some(t)
        } else {
            None
        }
    }
}

impl DateTime {
    /// A well-formed timestamp pairs a well-formed date with a well-formed
    /// time of day.
    pub open spec fn wf(self) -> bool {
        self.date.wf() && self.time.wf()
    }

    /// Pairs a date with a time of day.
    pub fn new(date: Date, time: Time) -> (r: DateTime)
        ensures
            r == (DateTime { date, time }),
    {
        DateTime { date, time }
    }
}

/// Whether `year` is a leap year.
pub fn is_leap_year(year: u16) -> (r: bool)
    ensures
        r == spec_is_leap_year(year as int),
{
    (year % 4 == 0 && year % 100 != 0) || year % 400 == 0
}

/// The number of days in the given month of the given year.
pub fn days_in_month(year: u16, month: u8) -> (r: u8)
    ensures
        r == spec_days_in_month(year as int, month as int),
{
    if month == 2 {
        if is_leap_year(year) {
            29
        } else {
            28
        }
    } else if month == 4 || month == 6 || month == 9 || month == 11 {
        30
    } else {
        31
    }
}

/// Strict chronological order on times of day: lexicographic on
/// (hour, minute, second).
pub open spec fn time_lt(a: Time, b: Time) -> bool {
    ||| a.hour < b.hour
    ||| (a.hour == b.hour && a.minute < b.minute)
    ||| (a.hour == b.hour && a.minute == b.minute && a.second < b.second)
}

/// Strict chronological order on dates: lexicographic on (year, month, day).
pub open spec fn date_lt(a: Date, b: Date) -> bool {
    ||| a.year < b.year
    ||| (a.year == b.year && a.month < b.month)
    ||| (a.year == b.year && a.month == b.month && a.day < b.day)
}

/// Strict chronological order on timestamps: by date, then by time of day.
pub open spec fn dt_lt(a: DateTime, b: DateTime) -> bool {
    date_lt(a.date, b.date) || (a.date == b.date && time_lt(a.time, b.time))
}

/// Non-strict chronological order on timestamps.
pub open spec fn dt_le(a: DateTime, b: DateTime) -> bool {
    a == b || dt_lt(a, b)
}

/// Decides `dt_lt` on timestamp values.
pub fn dt_lt_exec(a: &DateTime, b: &DateTime) -> (r: bool)
    ensures
        r == dt_lt(*a, *b),
{
    if a.date.year != b.date.year {
        a.date.year < b.date.year
    } else if a.date.month != b.date.month {
        a.date.month < b.date.month
    } else if a.date.day != b.date.day {
        a.date.day < b.date.day
    } else if a.time.hour != b.time.hour {
        a.time.hour < b.time.hour
    } else if a.time.minute != b.time.minute {
        a.time.minute < b.time.minute
    } else {
        a.time.second < b.time.second
    }
}

/// Decides `dt_le` on timestamp values.
pub fn dt_le_exec(a: &DateTime, b: &DateTime) -> (r: bool)
    ensures
        r == dt_le(*a, *b),
{
    !dt_lt_exec(b, a)
}

/// Chronological order on timestamps is a strict total order: for any two
/// timestamps exactly one of `dt_lt(a, b)`, `a == b`, `dt_lt(b, a)` holds.
pub proof fn lemma_dt_order_trichotomy(a: DateTime, b: DateTime)
    ensures
        dt_lt(a, b) || a == b || dt_lt(b, a),
        dt_lt(a, b) ==> !(a == b) && !dt_lt(b, a),
        a == b ==> !dt_lt(a, b) && !dt_lt(b, a),
        dt_lt(b, a) ==> !(a == b) && !dt_lt(a, b),
{
}

/// The count of leap years in `[0, y)` of the proleptic Gregorian
/// calendar: the years divisible by 4, less those divisible by 100, plus
/// those divisible by 400 (year 0 among them).
pub open spec fn spec_leap_years_before(y: int) -> int {
    (y + 3) / 4 - (y + 99) / 100 + (y + 399) / 400
}

/// The number of days in the years `[0, y)`.
pub open spec fn spec_days_before_year(y: int) -> int {
    365 * y + spec_leap_years_before(y)
}

/// The number of days of `year` that precede the first day of `month`.
pub open spec fn spec_days_before_month(year: int, month: int) -> int {
    let base: int = if month == 1 {
        0
    } else if month == 2 {
        31
    } else if month == 3 {
        59
    } else if month == 4 {
        90
    } else if month == 5 {
        120
    } else if month == 6 {
        151
    } else if month == 7 {
        181
    } else if month == 8 {
        212
    } else if month == 9 {
        243
    } else if month == 10 {
        273
    } else if month == 11 {
        304
    } else {
        334
    };
    if month > 2 && spec_is_leap_year(year) {
        base + 1
    } else {
        base
    }
}

/// The number of days from January 1st of year 0 to the given date.
pub open spec fn day_number(d: Date) -> int {
    spec_days_before_year(d.year as int) + spec_days_before_month(d.year as int, d.month as int)
        + d.day - 1
}

/// The second of the day named by a time: seconds since midnight.
pub open spec fn seconds_of_time(t: Time) -> int {
    3600 * (t.hour as int) + 60 * (t.minute as int) + (t.second as int)
}

/// The absolute second named by a timestamp: seconds since year 0 began.
pub open spec fn seconds_of(dt: DateTime) -> int {
    86400 * day_number(dt.date) + seconds_of_time(dt.time)
}

/// Stepping the numerator of a rounded-up division by one raises the
/// quotient exactly at the multiples of the divisor.
proof fn lemma_ceil_step(y: int, d: int)
    requires
        0 <= y,
        0 < d,
    ensures
        (y + d) / d == (y + d - 1) / d + (if y % d == 0 {
            1int
        } else {
            0int
        }),
{
    vstd::arithmetic::div_mod::lemma_fundamental_div_mod(y, d);
    vstd::arithmetic::div_mod::lemma_mod_bound(y, d);
    let q = y / d;
    let r = y % d;
    vstd::arithmetic::mul::lemma_mul_is_commutative(d, q);
    assert((q + 1) * d == q * d + d) by (nonlinear_arith);
    if r == 0 {
        vstd::arithmetic::div_mod::lemma_fundamental_div_mod_converse(y + d - 1, d, q, d - 1);
        vstd::arithmetic::div_mod::lemma_fundamental_div_mod_converse(y + d, d, q + 1, 0);
    } else {
        vstd::arithmetic::div_mod::lemma_fundamental_div_mod_converse(y + d - 1, d, q + 1, r - 1);
        vstd::arithmetic::div_mod::lemma_fundamental_div_mod_converse(y + d, d, q + 1, r);
    }
}

/// Counting one more year adds one leap year exactly when the year added
/// is a leap year.
proof fn lemma_leap_years_before_step(y: int)
    requires
        0 <= y,
    ensures
        spec_leap_years_before(y + 1) == spec_leap_years_before(y) + (if spec_is_leap_year(y) {
            1int
        } else {
            0int
        }),
{
    lemma_ceil_step(y, 4);
    lemma_ceil_step(y, 100);
    lemma_ceil_step(y, 400);
    if y % 400 == 0 {
        vstd::arithmetic::div_mod::lemma_fundamental_div_mod(y, 400);
        vstd::arithmetic::div_mod::lemma_fundamental_div_mod_converse(y, 100, 4 * (y / 400), 0);
        vstd::arithmetic::div_mod::lemma_fundamental_div_mod_converse(y, 4, 100 * (y / 400), 0);
    }
    if y % 100 == 0 {
        vstd::arithmetic::div_mod::lemma_fundamental_div_mod(y, 100);
        vstd::arithmetic::div_mod::lemma_fundamental_div_mod_converse(y, 4, 25 * (y / 100), 0);
    }
}

/// Day counts of whole years grow with the year, by at least 365 per year.
proof fn lemma_days_before_year_mono(y1: int, y2: int)
    requires
        0 <= y1 <= y2,
    ensures
        spec_days_before_year(y1) <= spec_days_before_year(y2),
        y1 < y2 ==> spec_days_before_year(y1) + 365 <= spec_days_before_year(y2),
    decreases y2 - y1,
{
    if y1 < y2 {
        lemma_leap_years_before_step(y2 - 1);
        lemma_days_before_year_mono(y1, y2 - 1);
    }
}

/// An earlier date names a smaller day number.
proof fn lemma_day_number_strict_mono(a: Date, b: Date)
    requires
        a.wf(),
        b.wf(),
        date_lt(a, b),
    ensures
        day_number(a) < day_number(b),
{
    if a.year == b.year {
        if a.month < b.month {
            assert(spec_days_before_month(a.year as int, a.month as int) + spec_days_in_month(
                a.year as int,
                a.month as int,
            ) <= spec_days_before_month(b.year as int, b.month as int));
        }
    } else {
        // the whole of a's date lies before the years that precede b's
        lemma_leap_years_before_step(a.year as int);
        assert(day_number(a) < spec_days_before_year(a.year + 1));
        lemma_days_before_year_mono(a.year + 1, b.year as int);
        assert(day_number(b) >= spec_days_before_year(b.year as int));
    }
}

/// A date is chronologically earlier exactly when its day number is
/// smaller.
pub proof fn lemma_date_lt_iff_day_number(a: Date, b: Date)
    requires
        a.wf(),
        b.wf(),
    ensures
        date_lt(a, b) <==> day_number(a) < day_number(b),
{
    if date_lt(a, b) {
        lemma_day_number_strict_mono(a, b);
    } else if date_lt(b, a) {
        lemma_day_number_strict_mono(b, a);
    }
}

/// The chronological order on well-formed timestamps coincides with the
/// order of their absolute seconds: a timestamp is strictly earlier exactly
/// when it names a strictly smaller second.
pub proof fn lemma_dt_lt_iff_seconds(a: DateTime, b: DateTime)
    requires
        a.wf(),
        b.wf(),
    ensures
        dt_lt(a, b) <==> seconds_of(a) < seconds_of(b),
{
    lemma_date_lt_iff_day_number(a.date, b.date);
    assert(0 <= seconds_of_time(a.time) < 86400);
    assert(0 <= seconds_of_time(b.time) < 86400);
}

} // verus!
