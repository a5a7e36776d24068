use time::format::FormatItem::{Day, Hour, Literal, Minute, Month, Second, Year};
use time::date::Date;
use time::error::Parse;
use time::duration::Duration;
use time::literal::{parse_date_literal, parse_datetime_literal, parse_duration_literal, parse_time_literal};
use time::clock::Time;

#[test]
fn non_leap_february_29_is_rejected() {
    match parse_date_literal(b"2021-02-29") {
        Err(Parse::ComponentOutOfRange(e)) => {
            assert_eq!(e.component_name, "day");
            assert_eq!((e.minimum, e.maximum, e.value), (1, 28, 29));
        }
        other => panic!("unexpected {:?}", other),
    }
}

#[test]
fn leap_february_29_matches_runtime_value() {
    assert_eq!(parse_date_literal(b"2020-02-29").unwrap(), Date::from_calendar_date(2020, 2, 29).unwrap());
}

#[test]
fn ordinal_literals() {
    assert_eq!(parse_date_literal(b"2020-366").unwrap(), Date::from_calendar_date(2020, 12, 31).unwrap());
    assert!(parse_date_literal(b"2019-366").is_err());
    assert_eq!(parse_date_literal(b"-0001-001").unwrap(), Date::from_calendar_date(-1, 1, 1).unwrap());
}

#[test]
fn time_literals() {
    assert_eq!(parse_time_literal(b"12:34").unwrap(), Time::from_hms(12, 34, 0).unwrap());
    assert_eq!(parse_time_literal(b"12:34:56").unwrap(), Time::from_hms(12, 34, 56).unwrap());
    assert!(parse_time_literal(b"12:60").is_err());
}

#[test]
fn datetime_literal_fails_on_either_part() {
    let dt = parse_datetime_literal(b"2020-02-29", b"23:59:59").unwrap();
    assert_eq!(dt.date, Date::from_calendar_date(2020, 2, 29).unwrap());
    assert_eq!(dt.time, Time::from_hms(23, 59, 59).unwrap());
    assert!(parse_datetime_literal(b"2021-02-29", b"23:59:59").is_err());
    assert!(parse_datetime_literal(b"2021-02-28", b"25:00").is_err());
}

#[test]
fn time_literals_with_fraction_and_marker() {
    assert_eq!(parse_time_literal(b"12:34:56.25").unwrap(), Time::from_hms_nano(12, 34, 56, 250_000_000).unwrap());
    assert_eq!(parse_time_literal(b"12:00 am").unwrap(), Time::from_hms(0, 0, 0).unwrap());
    assert_eq!(parse_time_literal(b"12:00 pm").unwrap(), Time::from_hms(12, 0, 0).unwrap());
    assert_eq!(parse_time_literal(b"01:30:15 pm").unwrap(), Time::from_hms(13, 30, 15).unwrap());
    assert_eq!(parse_time_literal(b"11:59 am").unwrap(), Time::from_hms(11, 59, 0).unwrap());
    match parse_time_literal(b"13:00 pm") {
        Err(Parse::ComponentOutOfRange(e)) => {
            assert_eq!((e.component_name, e.minimum, e.maximum, e.value), ("hour", 1, 12, 13));
        }
        other => panic!("unexpected {:?}", other),
    }
    assert!(parse_time_literal(b"00:10 am").is_err());
}

#[test]
fn duration_literals() {
    assert_eq!(parse_duration_literal(b"5s").unwrap(), Duration::seconds(5));
    assert_eq!(parse_duration_literal(b"-3h").unwrap(), Duration::seconds(-10_800));
    assert_eq!(parse_duration_literal(b"+2d").unwrap(), Duration::days(2).unwrap());
    assert_eq!(parse_duration_literal(b"1w").unwrap(), Duration::days(7).unwrap());
    assert_eq!(parse_duration_literal(b"90m").unwrap(), Duration::seconds(5_400));
    assert_eq!(parse_duration_literal(b"1500ms").unwrap(), Duration::new(1, 500_000_000).unwrap());
    assert_eq!(parse_duration_literal(b"7us").unwrap(), Duration::new(0, 7_000).unwrap());
    assert_eq!(parse_duration_literal(b"-9ns").unwrap(), Duration::new(0, -9).unwrap());
}

#[test]
fn duration_literal_errors() {
    assert_eq!(parse_duration_literal(b""), Err(Parse::UnexpectedEndOfString));
    assert_eq!(parse_duration_literal(b"-"), Err(Parse::UnexpectedEndOfString));
    assert_eq!(parse_duration_literal(b"s"), Err(Parse::InvalidNumber { component_name: "duration" }));
    assert_eq!(parse_duration_literal(b"5y"), Err(Parse::UnknownName { component_name: "unit" }));
    assert_eq!(parse_duration_literal(b"5"), Err(Parse::UnknownName { component_name: "unit" }));
    assert_eq!(
        parse_duration_literal(b"9999999999999999999w"),
        Err(Parse::ValueTooLarge { component_name: "duration" })
    );
}

#[test]
fn one_digit_hours() {
    assert_eq!(parse_time_literal(b"0:00").unwrap(), Time::midnight());
    assert_eq!(parse_time_literal(b"1:02:03").unwrap(), Time::from_hms(1, 2, 3).unwrap());
    assert_eq!(parse_time_literal(b"1:02:03 am").unwrap(), Time::from_hms(1, 2, 3).unwrap());
    assert_eq!(parse_time_literal(b"9:15 pm").unwrap(), Time::from_hms(21, 15, 0).unwrap());
    assert_eq!(parse_time_literal(b"7:00:00.5").unwrap(), Time::from_hms_nano(7, 0, 0, 500_000_000).unwrap());
    let dt = parse_datetime_literal(b"2020-02-29", b"0:00:00").unwrap();
    assert_eq!(dt.date, Date::from_calendar_date(2020, 2, 29).unwrap());
    assert_eq!(dt.time, Time::midnight());
    assert!(parse_time_literal(b"1:2").is_err());
}

#[test]
fn one_digit_months_and_days() {
    assert_eq!(parse_date_literal(b"2020-2-29").unwrap(), Date::from_calendar_date(2020, 2, 29).unwrap());
    assert_eq!(parse_date_literal(b"2020-12-9").unwrap(), Date::from_calendar_date(2020, 12, 9).unwrap());
    assert_eq!(parse_date_literal(b"2020-1-1").unwrap(), Date::from_calendar_date(2020, 1, 1).unwrap());
    assert_eq!(parse_date_literal(b"-0044-3-15").unwrap(), Date::from_calendar_date(-44, 3, 15).unwrap());
    assert!(parse_date_literal(b"2021-2-29").is_err());
    assert_eq!(parse_date_literal(b"2020-060").unwrap(), Date::from_calendar_date(2020, 2, 29).unwrap());
}

#[test]
fn canonical_literals_round_trip() {
    check_literal_forms(2020, 2, 29, 0, 0, 0);
    check_literal_forms(-9999, 1, 1, 23, 59, 59);
    check_literal_forms(9999, 12, 31, 12, 0, 1);
}

fn check_literal_forms(y: i32, m: u8, d: u8, h: u8, mi: u8, s: u8) {
    let date = Date::from_calendar_date(y, m, d).unwrap();
    let time = Time::from_hms(h, mi, s).unwrap();
    let dt = date.format(&[Year, Literal(b'-'), Month, Literal(b'-'), Day]).unwrap();
    let tt = time.format(&[Hour, Literal(b':'), Minute, Literal(b':'), Second]).unwrap();
    let v = parse_datetime_literal(&dt, &tt).unwrap();
    assert_eq!((v.date, v.time), (date, time));
}
