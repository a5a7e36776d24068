use time::clock::Time;
use time::date::{Date, Weekday, MAX_YEAR, MIN_YEAR};
use time::offset::UtcOffset;

#[test]
fn calendar_date_valid() {
    let d = Date::from_calendar_date(2020, 2, 29).unwrap();
    assert_eq!(d.year(), 2020);
    assert_eq!(d.month(), 2);
    assert_eq!(d.day(), 29);
    assert_eq!(d.ordinal(), 60);
}

#[test]
fn calendar_date_day_zero() {
    let e = Date::from_calendar_date(2019, 5, 0).unwrap_err();
    assert_eq!(e.component_name, "day");
    assert_eq!((e.minimum, e.maximum, e.value), (1, 31, 0));
    assert_eq!(e.given, vec![("month", 5), ("year", 2019)]);
}

#[test]
fn calendar_date_day_past_month_end() {
    let e = Date::from_calendar_date(2019, 2, 29).unwrap_err();
    assert_eq!(e.component_name, "day");
    assert_eq!((e.minimum, e.maximum, e.value), (1, 28, 29));
    let e = Date::from_calendar_date(2020, 4, 31).unwrap_err();
    assert_eq!((e.minimum, e.maximum, e.value), (1, 30, 31));
}

#[test]
fn calendar_date_month_zero_and_thirteen() {
    let e = Date::from_calendar_date(2019, 0, 1).unwrap_err();
    assert_eq!(e.component_name, "month");
    assert_eq!((e.minimum, e.maximum, e.value), (1, 12, 0));
    assert!(e.given.is_empty());
    let e = Date::from_calendar_date(2019, 13, 1).unwrap_err();
    assert_eq!(e.component_name, "month");
    assert_eq!((e.minimum, e.maximum, e.value), (1, 12, 13));
}

#[test]
fn calendar_date_year_out_of_range() {
    let e = Date::from_calendar_date(MAX_YEAR + 1, 1, 1).unwrap_err();
    assert_eq!(e.component_name, "year");
    assert_eq!((e.minimum, e.maximum, e.value), (-9999, 9999, 10000));
    assert!(Date::from_calendar_date(MIN_YEAR, 1, 1).is_ok());
}

#[test]
fn ordinal_date_round_trip() {
    let d = Date::from_ordinal_date(2020, 366).unwrap();
    assert_eq!((d.month(), d.day()), (12, 31));
    let d = Date::from_ordinal_date(2019, 60).unwrap();
    assert_eq!((d.month(), d.day()), (3, 1));
    assert_eq!(d.ordinal(), 60);
}

#[test]
fn ordinal_date_errors() {
    let e = Date::from_ordinal_date(2019, 366).unwrap_err();
    assert_eq!(e.component_name, "ordinal");
    assert_eq!((e.minimum, e.maximum, e.value), (1, 365, 366));
    assert_eq!(e.given, vec![("year", 2019)]);
    let e = Date::from_ordinal_date(2020, 0).unwrap_err();
    assert_eq!((e.minimum, e.maximum, e.value), (1, 366, 0));
}

#[test]
fn weekday_of_dates() {
    assert_eq!(Date::from_calendar_date(2020, 1, 1).unwrap().weekday(), Weekday::Wednesday);
    assert_eq!(Date::from_calendar_date(2019, 1, 1).unwrap().weekday(), Weekday::Tuesday);
    assert_eq!(Date::from_calendar_date(1, 1, 1).unwrap().weekday(), Weekday::Monday);
    assert_eq!(Date::from_calendar_date(0, 12, 31).unwrap().weekday(), Weekday::Sunday);
    assert_eq!(Date::from_calendar_date(-1, 1, 1).unwrap().weekday(), Weekday::Friday);
}

#[test]
fn weekday_cycle() {
    assert_eq!(Weekday::Sunday.next(), Weekday::Monday);
    assert_eq!(Weekday::Monday.previous(), Weekday::Sunday);
    assert_eq!(Weekday::Thursday.number_from_monday(), 4);
}

#[test]
fn time_components() {
    let t = Time::from_hms_nano(23, 59, 59, 999_999_999).unwrap();
    assert_eq!((t.hour(), t.minute(), t.second(), t.nanosecond()), (23, 59, 59, 999_999_999));
    let e = Time::from_hms(24, 0, 0).unwrap_err();
    assert_eq!((e.component_name, e.minimum, e.maximum, e.value), ("hour", 0, 23, 24));
    let e = Time::from_hms(0, 60, 0).unwrap_err();
    assert_eq!(e.component_name, "minute");
    let e = Time::from_hms(0, 0, 60).unwrap_err();
    assert_eq!(e.component_name, "second");
    let e = Time::from_hms_nano(0, 0, 0, 1_000_000_000).unwrap_err();
    assert_eq!(e.component_name, "nanosecond");
}

#[test]
fn offset_components() {
    let o = UtcOffset::from_hms(-5, -30, 0).unwrap();
    assert_eq!(o.whole_seconds(), -19800);
    assert_eq!(o.as_hms(), (-5, -30, 0));
    assert!(UtcOffset::from_hms(1, -1, 0).is_err());
    assert!(UtcOffset::from_hms(24, 0, 0).is_err());
    let e = UtcOffset::from_whole_seconds(86_400).unwrap_err();
    assert_eq!((e.component_name, e.minimum, e.maximum, e.value), ("seconds", -86_399, 86_399, 86_400));
    assert_eq!(UtcOffset::from_whole_seconds(3661).unwrap().as_hms(), (1, 1, 1));
}

#[test]
fn offset_errors_name_component_and_signed_range() {
    let e = UtcOffset::from_hms(-24, 0, 0).unwrap_err();
    assert_eq!((e.component_name, e.minimum, e.maximum, e.value), ("hours", -23, 23, -24));
    let e = UtcOffset::from_hms(1, -1, 0).unwrap_err();
    assert_eq!((e.component_name, e.minimum, e.maximum, e.value), ("minutes", 0, 59, -1));
    let e = UtcOffset::from_hms(0, -1, 5).unwrap_err();
    assert_eq!((e.component_name, e.minimum, e.maximum, e.value), ("seconds", -59, 0, 5));
    assert_eq!(UtcOffset::from_hms(0, 0, -59).unwrap().whole_seconds(), -59);
}
