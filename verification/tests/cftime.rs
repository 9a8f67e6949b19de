use netcdf::cftime::datetimes::{Calendars, DateProlepticGregorian, Duration, DurationNames};

#[test]
fn datetimes_duration_month_every_calendar() {
    let duration = Duration {
        name: DurationNames::Months,
        calendar: Calendars::ProlepticGregorian,
    };
    assert_eq!(duration.seconds(), 2629743);
    let duration = Duration {
        name: DurationNames::Months,
        calendar: Calendars::Gregorian,
    };
    assert_eq!(duration.seconds(), 2629746);
    let duration = Duration {
        name: DurationNames::Months,
        calendar: Calendars::AllLeap,
    };
    assert_eq!(duration.seconds(), 2635200);
    let duration = Duration {
        name: DurationNames::Months,
        calendar: Calendars::NoLeap,
    };
    assert_eq!(duration.seconds(), 2628000);
    let duration = Duration {
        name: DurationNames::Months,
        calendar: Calendars::Day360,
    };
    assert_eq!(duration.seconds(), 2592000);
}

#[test]
fn date_from_timestamp() {
    let cases: [(i32, (i32, u32, u32)); 9] = [
        (0, (1970, 1, 1)),
        (-86400, (1969, 12, 31)),
        (-1, (1969, 12, 31)),
        (1000000, (1970, 1, 12)),
        (1658876523, (2022, 7, 26)),
        (-1658876523, (1917, 6, 8)),
        (1640908800, (2021, 12, 31)),
        (1640995200, (2022, 1, 1)),
        (951782400, (2000, 2, 29)),
    ];
    for (seconds, (year, month, day)) in cases {
        let d = DateProlepticGregorian::from_timestamp(seconds);
        assert_eq!((d.year(), d.month(), d.day()), (year, month, day), "{seconds}");
    }
    let first = DateProlepticGregorian::from_timestamp(i32::MIN);
    assert_eq!((first.year(), first.month(), first.day()), (1901, 12, 13));
    let last = DateProlepticGregorian::from_timestamp(i32::MAX);
    assert_eq!((last.year(), last.month(), last.day()), (2038, 1, 19));
}
