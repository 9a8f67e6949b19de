use netcdf::cftime::{cf_parser, Date, Duration, Time};

fn parse(input: &str) {
    println!("{:?}", cf_parser(input).unwrap())
}

#[test]
fn lib_cf_conventions_document() {
    parse("days since 1990-1-1 0:0:0");
    parse("seconds since 1992-10-8 15:15:42.5 -6:00");
    parse("days since 1-7-15 0:0:0");
    parse("days since 1-1-1 0:0:0");
}

#[test]
fn lib_cftime_py_setup() {
    parse("hours since 0001-01-01 00:00:00");
    parse("hours since 0001-01-01 00:00:00");
    parse("hours since 0001-01-01 00:00:00 -06:00");
    parse("seconds since 0001-01-01 00:00:00");
    parse("days since 1600-02-28 00:00:00");
    parse("days since 1600-02-29 00:00:00");
    parse("days since 1600-02-30 00:00:00");
    parse("hours since 1000-01-01 00:00:00");
    parse("seconds since 1970-01-01T00:00:00Z");
    parse("days since  850-01-01 00:00:00");
    parse("hours since 0001-01-01 00:00:00");
    parse("days since 1600-02-28 00:00:00");
}

#[test]
fn lib_cftime_py_tz_naive() {
    let d_check = ["1582-10-15 00:00:00", "1582-10-15 12:00:00"];
    for d in d_check {
        parse(&format!("day since {}", d));
    }
}

#[test]
fn lib_cftime_py() {
    parse("days since 1000-01-01");
    parse("seconds since 1970-01-01T00:00:00Z");
    parse("hours since 2013-12-12T12:00:00");
    parse("hours since 1682-10-15 -07:00");
    parse("hours since 1682-10-15 -07:00:12");
    parse("hours since 1682-10-15T-07:00:12");
    parse("hours since 1682-10-15 -07:00 UTC");
    parse("hours since 2000-01-01 22:30+04:00");
    parse("hours since 2000-01-01 11:30-07:00");
    parse("hours since 2000-01-01 15:00-03:30");
}

#[test]
fn lib_etc() {
    parse("seconds since 1992-10-8 15:15:42.5Z");
    parse("seconds since 1992-10-8 15:15:42Z");
}

#[test]
fn units_values() {
    let (d, dt) = cf_parser("seconds since 1992-10-8 15:15:42.5 -6:00").unwrap();
    assert_eq!(d, Duration::Seconds);
    assert_eq!(dt.date, Date { year: 1992, month: 10, day: 8 });
    assert_eq!(
        dt.time,
        Time { hour: 15, minute: 15, second: 42, millisecond: 500, microsecond: 0 }
    );
    assert_eq!(format!("{:?}", dt.tz), "Tz { hour: -6, minute: 0 }");

    let (d, dt) = cf_parser("hours since 2000-01-01 22:30+04:00").unwrap();
    assert_eq!(d, Duration::Hours);
    assert_eq!(dt.time, Time { hour: 22, minute: 30, second: 0, millisecond: 0, microsecond: 0 });
    assert_eq!(format!("{:?}", dt.tz), "Tz { hour: 4, minute: 0 }");

    // a time read from what looks like a zone
    let (_, dt) = cf_parser("hours since 1682-10-15 -07:00:12").unwrap();
    assert_eq!(dt.time.hour, -7);
    assert_eq!(dt.time.second, 12);

    let (d, dt) = cf_parser("msecs since 1970-01-01").unwrap();
    assert_eq!(d, Duration::Milliseconds);
    assert_eq!(dt.time, Time::default());
    let (d, _) = cf_parser("microsecs since 1970-01-01").unwrap();
    assert_eq!(d, Duration::Microseconds);
    let (d, _) = cf_parser("common_year since 1970-01-01").unwrap();
    assert_eq!(d, Duration::Years);
    let (_, dt) = cf_parser("s since 1-2-3 4:5:6.1234567").unwrap();
    assert_eq!(dt.time.millisecond, 123);
    assert_eq!(dt.time.microsecond, 456);
}

#[test]
fn units_refused() {
    assert!(cf_parser("days after 1990-1-1").is_err());
    assert!(cf_parser("fortnights since 1990-1-1").is_err());
    assert!(cf_parser("days since 1990-1-1 trailing").is_err());
    assert!(cf_parser("days since").is_err());
    assert!(cf_parser("days since 99999999999-1-1").is_err());
}
