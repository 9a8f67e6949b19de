//! Dates, times and unit durations of the first, flat datetime module.
use vstd::prelude::*;

pub use super::calendars::Calendars;
use super::rules::{
    days_before, days_before_month, days_in_month, gregorian_is_leap, gregorian_leaps_between,
    is_leap_gregorian, is_leap_julian, julian_is_leap, month_length,
};

verus! {

/// Year of the unix epoch.
pub const DEFAULT_YEAR: i32 = 1970;
/// Month of the unix epoch.
pub const DEFAULT_MONTH: u32 = 1;
/// Day of the unix epoch.
pub const DEFAULT_DAY: u32 = 1;
/// Seconds in a day.
pub const SECONDS_IN_DAYS: u32 = 86_400;

/// Base duration between time points.
#[derive(Debug, PartialEq, Eq, Structural, PartialOrd, Ord, Copy, Clone)]
pub enum DurationNames {
    Years,
    Months,
    Days,
    Hours,
    Minutes,
    Seconds,
    Milliseconds,
    Microseconds,
}

/// A unit of time within a calendar.
#[derive(Debug, PartialEq, Eq, Structural, PartialOrd, Ord, Copy, Clone)]
pub struct Duration {
    pub name: DurationNames,
    pub calendar: Calendars,
}

/// Microseconds in a year of each calendar (udunits definitions).
pub open spec fn year_in_us(c: Calendars) -> int {
    match c {
        Calendars::Gregorian => 31_556_952_000_000,
        Calendars::ProlepticGregorian | Calendars::Standard => 31_556_925_974_700,
        Calendars::NoLeap | Calendars::Day365 => 31_536_000_000_000,
        Calendars::AllLeap | Calendars::Day366 => 31_622_400_000_000,
        Calendars::Julian => 31_557_600_000_000,
        Calendars::Day360 => 31_104_000_000_000,
    }
}

/// Microseconds in one unit of the duration.
pub open spec fn duration_us(d: Duration) -> int {
    match d.name {
        DurationNames::Days => 86_400_000_000,
        DurationNames::Hours => 3_600_000_000,
        DurationNames::Minutes => 60_000_000,
        DurationNames::Seconds => 1_000_000,
        DurationNames::Milliseconds => 1_000,
        DurationNames::Microseconds => 1,
        DurationNames::Years => year_in_us(d.calendar),
        DurationNames::Months => year_in_us(d.calendar) / 12,
    }
}

/// Microseconds in one `n` of calendar `c`.
pub open spec fn unit_us(n: DurationNames, c: Calendars) -> int {
    duration_us(Duration { name: n, calendar: c })
}

/// The units relate as clocks and calendars have them, in every calendar: a
/// microsecond is the smallest unit, a millisecond is a thousand of them, a
/// second a thousand milliseconds, a minute sixty seconds, an hour sixty
/// minutes, a day twenty-four hours; a month is a twelfth of the year; a
/// year has 365 days without leap years, 366 when every year is a leap year,
/// 360 in the 360-day calendar, 365.25 in the Julian calendar, 365.2425 in
/// the Gregorian one, and the tropical year of 31556925.9747 seconds in the
/// proleptic Gregorian and standard ones.
pub proof fn lemma_unit_lengths(c: Calendars)
    ensures
        unit_us(DurationNames::Microseconds, c) == 1,
        unit_us(DurationNames::Milliseconds, c) == 1000 * unit_us(DurationNames::Microseconds, c),
        unit_us(DurationNames::Seconds, c) == 1000 * unit_us(DurationNames::Milliseconds, c),
        unit_us(DurationNames::Minutes, c) == 60 * unit_us(DurationNames::Seconds, c),
        unit_us(DurationNames::Hours, c) == 60 * unit_us(DurationNames::Minutes, c),
        unit_us(DurationNames::Days, c) == 24 * unit_us(DurationNames::Hours, c),
        unit_us(DurationNames::Days, c) == 86_400 * unit_us(DurationNames::Seconds, c),
        unit_us(DurationNames::Months, c) == unit_us(DurationNames::Years, c) / 12,
        (c == Calendars::NoLeap || c == Calendars::Day365) ==> unit_us(DurationNames::Years, c) == 365
            * unit_us(DurationNames::Days, c),
        (c == Calendars::AllLeap || c == Calendars::Day366) ==> unit_us(DurationNames::Years, c) == 366
            * unit_us(DurationNames::Days, c),
        c == Calendars::Day360 ==> unit_us(DurationNames::Years, c) == 360 * unit_us(DurationNames::Days, c),
        c == Calendars::Julian ==> 4 * unit_us(DurationNames::Years, c) == 1461 * unit_us(DurationNames::Days, c),
        c == Calendars::Gregorian ==> 400 * unit_us(DurationNames::Years, c) == 146_097 * unit_us(
            DurationNames::Days,
            c,
        ),
        (c == Calendars::ProlepticGregorian || c == Calendars::Standard) ==> 10_000 * unit_us(
            DurationNames::Years,
            c,
        ) == 315_569_259_747 * unit_us(DurationNames::Seconds, c),
{
}

impl Duration {
    fn year_in_us(&self) -> (r: i64)
        ensures
            r == year_in_us(self.calendar),
    {
        match self.calendar {
            Calendars::Gregorian => 31_556_952_000_000,
            Calendars::ProlepticGregorian | Calendars::Standard => 31_556_925_974_700,
            Calendars::NoLeap | Calendars::Day365 => 31_536_000_000_000,
            Calendars::AllLeap | Calendars::Day366 => 31_622_400_000_000,
            Calendars::Julian => 31_557_600_000_000,
            Calendars::Day360 => 31_104_000_000_000,
        }
    }

    fn month_in_us(&self) -> (r: i64)
        ensures
            r == year_in_us(self.calendar) / 12,
    {
        self.year_in_us() / 12
    }

    /// Length of the unit in microseconds.
    pub fn microseconds(&self) -> (r: i64)
        ensures
            r == duration_us(*self),
    {
        match self.name {
            DurationNames::Days => 86_400_000_000,
            DurationNames::Hours => 3_600_000_000,
            DurationNames::Minutes => 60_000_000,
            DurationNames::Seconds => 1_000_000,
            DurationNames::Milliseconds => 1_000,
            DurationNames::Microseconds => 1,
            DurationNames::Years => self.year_in_us(),
            DurationNames::Months => self.month_in_us(),
        }
    }

    /// Length of the unit in whole seconds.
    pub fn seconds(&self) -> (r: i64)
        ensures
            r == duration_us(*self) / 1_000_000,
    {
        self.microseconds() / 1_000_000
    }

    /// Length of the unit in nanoseconds.
    pub fn nanoseconds(&self) -> (r: i64)
        ensures
            r == duration_us(*self) * 1_000,
    {
        self.microseconds() * 1_000
    }

    /// Length of the unit in whole milliseconds.
    pub fn milliseconds(&self) -> (r: i64)
        ensures
            r == duration_us(*self) / 1_000,
    {
        self.microseconds() / 1_000
    }
}

/// A time of day.
#[derive(Debug, Default, Clone, Copy)]
pub struct Time {
    pub hour: u32,
    pub minute: u32,
    pub second: u32,
    pub nanosecond: u32,
}

impl Time {
    /// A time of day; each component must lie in its range.
    pub fn new(hour: u32, minute: u32, second: u32, nanosecond: u32) -> (t: Self)
        requires
            hour < 24,
            minute < 60,
            second < 60,
            nanosecond < 1_000_000_000,
        ensures
            t.hour == hour,
            t.minute == minute,
            t.second == second,
            t.nanosecond == nanosecond,
    {
        Self { hour, minute, second, nanosecond }
    }

    pub fn hour(&self) -> (r: u32)
        ensures
            r == self.hour,
    {
        self.hour
    }

    pub fn minute(&self) -> (r: u32)
        ensures
            r == self.minute,
    {
        self.minute
    }

    pub fn second(&self) -> (r: u32)
        ensures
            r == self.second,
    {
        self.second
    }

    pub fn nanosecond(&self) -> (r: u32)
        ensures
            r == self.nanosecond,
    {
        self.nanosecond
    }
}

/// A time-zone offset.
#[derive(Copy, Clone, Debug, PartialEq, Eq, Structural)]
pub struct Tz {
    pub hour: i8,
    pub minute: u8,
}

impl Default for Tz {
    fn default() -> (t: Self)
        ensures
            t.hour == 0 && t.minute == 0,
    {
        Tz { hour: 0, minute: 0 }
    }
}

/// A date is accepted by a calendar when its month is 1 to 12 and its day
/// does not exceed the month's length (a day of 0 is not refused).
pub open spec fn gregorian_date_accepted(year: int, month: int, day: int) -> bool {
    1 <= month <= 12 && day <= days_in_month(is_leap_gregorian(year), month)
}

/// Date in the proleptic Gregorian calendar.
#[derive(Debug, Copy, Clone, Default)]
pub struct DateProlepticGregorian {
    pub year: i32,
    pub month: u32,
    pub day: u32,
}

/// Day count of a date as this module computes it: the whole years between
/// 1970 and the year (counting the leap years from 1970 upward), the days
/// before the month in a year like 1970, and the day, signed by the side of
/// 1970 the year lies on.
pub open spec fn legacy_day_count(year: int, month: int, day: int) -> int {
    let dy = year - 1970;
    let n = if dy < 0 { -dy } else { dy };
    n * 365 + gregorian_leaps_between(1970, 1970 + n) + days_before_month(false, month) + day - 1
}

/// The sign of the year's offset from 1970.
pub open spec fn signum(x: int) -> int {
    if x > 0 {
        1
    } else if x < 0 {
        -1
    } else {
        0
    }
}

/// Days of year `y` of the calendar.
pub open spec fn year_length(y: int) -> int {
    if is_leap_gregorian(y) {
        366
    } else {
        365
    }
}

/// Days of year `y` of the calendar.
fn year_days(y: i32) -> (r: i64)
    ensures
        r == year_length(y as int),
{
    if gregorian_is_leap(y) {
        366
    } else {
        365
    }
}

/// Days from 1970-01-01 to the first day of year `y`.
pub open spec fn days_before_year(y: int) -> int
    decreases (if y >= 1970 {
        y - 1970
    } else {
        1970 - y
    }),
{
    if y == 1970 {
        0
    } else if y > 1970 {
        days_before_year(y - 1) + year_length(y - 1)
    } else {
        days_before_year(y + 1) - year_length(y)
    }
}

/// Days from 1970-01-01 to the date.
pub open spec fn days_since_epoch(year: int, month: int, day: int) -> int {
    days_before_year(year) + days_before_month(is_leap_gregorian(year), month) + day - 1
}

/// The signed day count from 1970 of a date, as `num_days_from_ce` gives it.
pub open spec fn day_number(d: DateProlepticGregorian) -> int {
    (legacy_day_count(d.year as int, d.month as int, d.day as int) as i32) * signum(d.year - 1970)
}

impl DateProlepticGregorian {
    /// Leap rule of the calendar.
    pub fn is_leap(year: i32) -> (r: bool)
        ensures
            r == is_leap_gregorian(year as int),
    {
        gregorian_is_leap(year)
    }

    /// A date of the calendar; the month must be 1 to 12 and the day at most
    /// the month's length.
    pub fn new(year: i32, month: u32, day: u32) -> (d: DateProlepticGregorian)
        requires
            gregorian_date_accepted(year as int, month as int, day as int),
        ensures
            d.year == year,
            d.month == month,
            d.day == day,
    {
        DateProlepticGregorian { year, month, day }
    }

    /// Signed day count from 1970 as this calendar module computes it.
    pub fn num_days_from_ce(&self) -> (r: i32)
        requires
            1 <= self.month <= 12,
            1 <= self.day,
            -5_883_516 <= self.year - 1970 <= 5_883_516,
            legacy_day_count(self.year as int, self.month as int, self.day as int) <= u32::MAX,
            !(self.year < 1970 && (legacy_day_count(
                self.year as int,
                self.month as int,
                self.day as int,
            ) as i32) == i32::MIN),
        ensures
            r == day_number(*self),
    {
        let dy = self.year - DEFAULT_YEAR;
        let n: i32 = if dy < 0 { -dy } else { dy };
        let mut num_days: u32 = (n * 365) as u32;
        let leaps = count_years_leaps(n);
        proof {
            lemma_leaps_bounded(1970, 1970 + n as int);
        }
        num_days = num_days + leaps;
        let before = days_before(false, self.month);
        num_days = num_days + before;
        num_days = num_days + (self.day - 1);
        let sign: i32 = if dy > 0 { 1 } else if dy < 0 { -1 } else { 0 };
        (num_days as i32) * sign
    }

    /// Seconds from 1970 of the start of the day, from `num_days_from_ce`.
    pub fn num_seconds_from_ce(&self) -> (r: i32)
        requires
            1 <= self.month <= 12,
            1 <= self.day,
            -5_883_516 <= self.year - 1970 <= 5_883_516,
            legacy_day_count(self.year as int, self.month as int, self.day as int) <= u32::MAX,
            !(self.year < 1970 && (legacy_day_count(
                self.year as int,
                self.month as int,
                self.day as int,
            ) as i32) == i32::MIN),
            i32::MIN <= day_number(*self) * 86400 <= i32::MAX,
        ensures
            r == day_number(*self) * 86400,
    {
        self.num_days_from_ce() * (SECONDS_IN_DAYS as i32)
    }

    /// The date of a unix timestamp: the day of the calendar that holds the
    /// instant `seconds` after 1970-01-01 00:00:00.
    pub fn from_timestamp(seconds: i32) -> (d: DateProlepticGregorian)
        ensures
            gregorian_date_accepted(d.year as int, d.month as int, d.day as int),
            1 <= d.day,
            days_since_epoch(d.year as int, d.month as int, d.day as int) == (seconds as int) / 86400,
    {
        let t = seconds as i64;
        let days: i64 = if t >= 0 {
            t / 86400
        } else {
            -((-t + 86399) / 86400)
        };
        assert(days == (seconds as int) / 86400) by (nonlinear_arith)
            requires
                t == seconds as int,
                t >= 0 ==> days == t / 86400,
                t < 0 ==> days == -((-t + 86399) / 86400),
        ;
        assert(-24856 <= days <= 24855);
        let mut year: i32 = DEFAULT_YEAR;
        let mut rem: i64 = days;
        while rem < 0
            invariant
                -24856 <= days <= 24855,
                1900 <= year <= 1970,
                rem == days - days_before_year(year as int),
                (1970 - year) * 365 <= rem - days,
                year < 1970 ==> rem < year_length(year as int),
            decreases year,
        {
            year = year - 1;
            rem = rem + year_days(year);
        }
        while rem >= year_days(year)
            invariant
                -24856 <= days <= 24855,
                1900 <= year <= 2040,
                0 <= rem,
                rem == days - days_before_year(year as int),
                year > 1970 ==> (year - 1970) * 365 <= days - rem,
                year < 1970 ==> rem < year_length(year as int),
            decreases rem,
        {
            rem = rem - year_days(year);
            year = year + 1;
        }
        let leap = DateProlepticGregorian::is_leap(year);
        let ghost start = rem;
        assert(days_before_month(true, 12) == 335 && days_before_month(false, 12) == 334) by {
            reveal_with_fuel(days_before_month, 13);
        }
        let mut month: u32 = 1;
        while rem >= month_length(leap, month) as i64
            invariant
                1 <= month <= 12,
                0 <= rem,
                leap == is_leap_gregorian(year as int),
                start < year_length(year as int),
                rem + days_before_month(leap, month as int) == start,
                days_before_month(true, 12) == 335 && days_before_month(false, 12) == 334,
            decreases rem,
        {
            rem = rem - month_length(leap, month) as i64;
            month = month + 1;
        }
        DateProlepticGregorian::new(year, month, (rem + 1) as u32)
    }

    pub fn year(&self) -> (r: i32)
        ensures
            r == self.year,
    {
        self.year
    }

    pub fn month(&self) -> (r: u32)
        ensures
            r == self.month,
    {
        self.month
    }

    pub fn day(&self) -> (r: u32)
        ensures
            r == self.day,
    {
        self.day
    }
}

/// Leap years counted upward from 1970 over `n` years.
fn count_years_leaps(n: i32) -> (r: u32)
    requires
        0 <= n <= 5_883_516,
    ensures
        r == gregorian_leaps_between(1970, 1970 + n as int),
{
    let mut count: u32 = 0;
    let mut i: i32 = 0;
    while i < n
        invariant
            0 <= i <= n <= 5_883_516,
            count == gregorian_leaps_between(1970, 1970 + i as int),
            count <= i,
        decreases n - i,
    {
        if gregorian_is_leap(DEFAULT_YEAR + i) {
            count = count + 1;
        }
        i = i + 1;
    }
    count
}

/// The leap count of a range is at most its length.
pub proof fn lemma_leaps_bounded(lo: int, hi: int)
    ensures
        0 <= gregorian_leaps_between(lo, hi),
        lo <= hi ==> gregorian_leaps_between(lo, hi) <= hi - lo,
    decreases hi - lo,
{
    if lo < hi {
        lemma_leaps_bounded(lo, hi - 1);
    }
}

/// Date and time in the proleptic Gregorian calendar.
#[derive(Debug, Copy, Clone)]
pub struct DateTimeProlepticGregorian {
    pub date: DateProlepticGregorian,
    pub time: Time,
    pub tz: Tz,
}

impl DateTimeProlepticGregorian {
    /// The given time of day on 1970-01-01, in UTC.
    pub fn from_hms(hour: u32, minute: u32, second: u32) -> (dt: Self)
        requires
            hour < 24,
            minute < 60,
            second < 60,
        ensures
            dt.date.year == 1970 && dt.date.month == 1 && dt.date.day == 1,
            dt.time.hour == hour && dt.time.minute == minute && dt.time.second == second,
            dt.time.nanosecond == 0,
            dt.tz.hour == 0 && dt.tz.minute == 0,
    {
        Self {
            date: DateProlepticGregorian::new(DEFAULT_YEAR, DEFAULT_MONTH, DEFAULT_DAY),
            time: Time::new(hour, minute, second, 0),
            tz: Tz { hour: 0, minute: 0 },
        }
    }

    /// Midnight of the given date, in UTC.
    pub fn from_ymd(year: i32, month: u32, day: u32) -> (dt: Self)
        requires
            gregorian_date_accepted(year as int, month as int, day as int),
        ensures
            dt.date.year == year && dt.date.month == month && dt.date.day == day,
            dt.time.hour == 0 && dt.time.minute == 0 && dt.time.second == 0,
            dt.time.nanosecond == 0,
            dt.tz.hour == 0 && dt.tz.minute == 0,
    {
        Self {
            date: DateProlepticGregorian::new(year, month, day),
            time: Time::new(0, 0, 0, 0),
            tz: Tz { hour: 0, minute: 0 },
        }
    }
}

/// Date in the Julian calendar.
#[derive(Debug, Copy, Clone, Default)]
pub struct DateJulian {
    pub year: i32,
    pub month: u32,
    pub day: u32,
}

impl DateJulian {
    /// Leap rule of the calendar.
    pub fn is_leap(year: i32) -> (r: bool)
        ensures
            r == is_leap_julian(year as int),
    {
        julian_is_leap(year)
    }
}

/// Date in a calendar where every year is a leap year.
#[derive(Debug, Copy, Clone, Default)]
pub struct DateAllLeap {
    pub year: i32,
    pub month: u32,
    pub day: u32,
}

impl DateAllLeap {
    /// Leap rule of the calendar: every year.
    pub fn is_leap(year: i32) -> (r: bool)
        ensures
            r,
    {
        true
    }
}

/// Date in a calendar without leap years.
#[derive(Debug, Copy, Clone, Default)]
pub struct DateNoLeap {
    pub year: i32,
    pub month: u32,
    pub day: u32,
    pub time: Time,
    pub tz: Tz,
}

impl DateNoLeap {
    /// Leap rule of the calendar: no year.
    pub fn is_leap(year: i32) -> (r: bool)
        ensures
            !r,
    {
        false
    }
}

/// Date in a calendar of twelve months of thirty days.
#[derive(Debug, Copy, Clone, Default)]
pub struct Date360Day {
    pub year: i32,
    pub month: u32,
    pub day: u32,
}

} // verus!
