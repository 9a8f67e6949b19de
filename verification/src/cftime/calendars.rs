//! The calendars of the CF conventions.
use vstd::prelude::*;

verus! {

/// A calendar as named by the CF conventions.
#[derive(Debug, PartialEq, Eq, Structural, PartialOrd, Ord, Copy, Clone)]
pub enum Calendars {
    /// Alias of `Standard`.
    Gregorian,
    Standard,
    ProlepticGregorian,
    /// 365 days every year.
    NoLeap,
    Day365,
    /// 366 days every year.
    AllLeap,
    Day366,
    Julian,
    Day360,
}

/// The calendar used when none is given.
pub open spec fn default_calendar() -> Calendars {
    Calendars::ProlepticGregorian
}

/// The human readable name of a calendar.
pub open spec fn calendar_name(c: Calendars) -> Seq<char> {
    match c {
        Calendars::Gregorian => "Gregorian"@,
        Calendars::Standard => "Standard"@,
        Calendars::ProlepticGregorian => "Proleptic Gregorian"@,
        Calendars::NoLeap | Calendars::Day365 => "No Leap"@,
        Calendars::AllLeap | Calendars::Day366 => "All Leap"@,
        Calendars::Julian => "Julian"@,
        Calendars::Day360 => "360 Day"@,
    }
}

impl Default for Calendars {
    fn default() -> (c: Calendars)
        ensures
            c == default_calendar(),
    {
        Calendars::ProlepticGregorian
    }
}

impl Calendars {
    /// The name under which the calendar is displayed.
    pub fn name(&self) -> (s: &'static str)
        ensures
            s@ == calendar_name(*self),
    {
        match self {
            Calendars::Gregorian => "Gregorian",
            Calendars::Standard => "Standard",
            Calendars::ProlepticGregorian => "Proleptic Gregorian",
            Calendars::NoLeap | Calendars::Day365 => "No Leap",
            Calendars::AllLeap | Calendars::Day366 => "All Leap",
            Calendars::Julian => "Julian",
            Calendars::Day360 => "360 Day",
        }
    }
}

} // verus!
