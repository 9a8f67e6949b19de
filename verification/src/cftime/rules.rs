//! Leap-year rules, month lengths and the day walks shared by the calendars.
use vstd::prelude::*;

verus! {

/// The year as counted by the leap rules: astronomical year numbering, where
/// the year before 1 is 0, is shifted by one for negative years.
pub open spec fn shifted_year(y: int) -> int {
    if y < 0 {
        y + 1
    } else {
        y
    }
}

/// Leap rule of the proleptic Gregorian calendar.
pub open spec fn is_leap_gregorian(y: int) -> bool {
    let f = shifted_year(y);
    f % 400 == 0 || (f % 4 == 0 && f % 100 != 0)
}

/// Leap rule of the Julian calendar.
pub open spec fn is_leap_julian(y: int) -> bool {
    shifted_year(y) % 4 == 0
}

/// Days of month `m` (1 to 12) in a leap or a common year.
pub open spec fn days_in_month(leap: bool, m: int) -> int {
    if m == 2 {
        if leap {
            29
        } else {
            28
        }
    } else if m == 4 || m == 6 || m == 9 || m == 11 {
        30
    } else {
        31
    }
}

/// Days of the months before month `m` (1 to 13).
pub open spec fn days_before_month(leap: bool, m: int) -> int
    decreases m,
{
    if m <= 1 {
        0
    } else {
        days_before_month(leap, m - 1) + days_in_month(leap, m - 1)
    }
}

/// Number of Gregorian leap years `y` with `lo <= y < hi`.
pub open spec fn gregorian_leaps_between(lo: int, hi: int) -> int
    decreases hi - lo,
{
    if hi <= lo {
        0
    } else {
        gregorian_leaps_between(lo, hi - 1) + if is_leap_gregorian(hi - 1) {
            1int
        } else {
            0int
        }
    }
}

/// Gregorian leap rule.
pub fn gregorian_is_leap(year: i32) -> (r: bool)
    ensures
        r == is_leap_gregorian(year as int),
{
    let mut f_year = year;
    if year < 0 {
        f_year = year + 1;
    }
    let by400 = multiple_of_400(f_year);
    let by4 = multiple_of_4(f_year);
    let by100 = multiple_of_100(f_year);
    by400 || (by4 && !by100)
}

/// Julian leap rule.
pub fn julian_is_leap(year: i32) -> (r: bool)
    ensures
        r == is_leap_julian(year as int),
{
    let mut f_year = year;
    if year < 0 {
        f_year = year + 1;
    }
    multiple_of_4(f_year)
}

fn multiple_of_4(f: i32) -> (r: bool)
    ensures
        r == (f as int % 4 == 0),
{
    f % 4 == 0
}

fn multiple_of_100(f: i32) -> (r: bool)
    ensures
        r == (f as int % 100 == 0),
{
    f % 100 == 0
}

fn multiple_of_400(f: i32) -> (r: bool)
    ensures
        r == (f as int % 400 == 0),
{
    f % 400 == 0
}

/// Length of month `month` (1 to 12).
pub fn month_length(leap: bool, month: u32) -> (r: u32)
    requires
        1 <= month <= 12,
    ensures
        r == days_in_month(leap, month as int),
{
    if month == 2 {
        if leap {
            29
        } else {
            28
        }
    } else if month == 4 || month == 6 || month == 9 || month == 11 {
        30
    } else {
        31
    }
}

/// Days before month `month` (1 to 12).
pub fn days_before(leap: bool, month: u32) -> (r: u32)
    requires
        1 <= month <= 12,
    ensures
        r == days_before_month(leap, month as int),
        r <= 31 * (month - 1),
{
    let mut acc: u32 = 0;
    let mut m: u32 = 1;
    while m < month
        invariant
            1 <= m <= month <= 12,
            acc == days_before_month(leap, m as int),
            acc <= 31 * (m - 1),
        decreases month - m,
    {
        acc = acc + month_length(leap, m);
        m = m + 1;
    }
    acc
}

} // verus!
