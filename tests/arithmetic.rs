use time::offset::UtcOffset;
use time::clock::Time;
use time::datetime::PrimitiveDateTime;
use time::date::Date;
use time::duration::Duration;

fn ymd(y: i32, m: u8, d: u8) -> Date {
    Date::from_calendar_date(y, m, d).unwrap()
}

#[test]
fn add_days_across_month_and_year() {
    assert_eq!(ymd(2020, 2, 28).checked_add_days(1), Some(ymd(2020, 2, 29)));
    assert_eq!(ymd(2019, 2, 28).checked_add_days(1), Some(ymd(2019, 3, 1)));
    assert_eq!(ymd(2019, 12, 31).checked_add_days(1), Some(ymd(2020, 1, 1)));
    assert_eq!(ymd(2020, 1, 1).checked_add_days(-1), Some(ymd(2019, 12, 31)));
    assert_eq!(ymd(2000, 1, 1).checked_add_days(366 + 365 * 3 + 366), Some(ymd(2005, 1, 1)));
    assert_eq!(ymd(1, 1, 1).checked_add_days(-1), Some(ymd(0, 12, 31)));
}

#[test]
fn add_days_out_of_range() {
    assert_eq!(ymd(9999, 12, 31).checked_add_days(1), None);
    assert_eq!(ymd(-9999, 1, 1).checked_add_days(-1), None);
    assert_eq!(ymd(2020, 1, 1).checked_add_days(i64::MAX), None);
    assert_eq!(ymd(2020, 1, 1).checked_add_days(i64::MIN), None);
}

#[test]
fn duration_normalises() {
    let d = Duration::new(1, 1_500_000_000).unwrap();
    assert_eq!((d.whole_seconds(), d.subsec_nanoseconds()), (2, 500_000_000));
    let d = Duration::new(1, -1_500_000_000).unwrap();
    assert_eq!((d.whole_seconds(), d.subsec_nanoseconds()), (0, -500_000_000));
    let d = Duration::new(-3, 0).unwrap();
    assert_eq!((d.whole_seconds(), d.subsec_nanoseconds()), (-3, 0));
    assert_eq!(Duration::new(i64::MAX, 1_000_000_000), None);
}

#[test]
fn duration_add_and_days() {
    let a = Duration::new(5, 700_000_000).unwrap();
    let b = Duration::new(-7, -800_000_000).unwrap();
    let c = a.checked_add(b).unwrap();
    assert_eq!((c.whole_seconds(), c.subsec_nanoseconds()), (-2, -100_000_000));
    assert_eq!(Duration::seconds(i64::MAX).checked_add(Duration::seconds(1)), None);
    assert_eq!(Duration::days(2).unwrap().whole_seconds(), 172_800);
    assert_eq!(Duration::days(i64::MAX), None);
    assert_eq!(Duration::seconds(-86_401).whole_days(), -1);
    assert_eq!(Duration::seconds(86_399).whole_days(), 0);
}

#[test]
fn date_plus_duration() {
    let d = ymd(2020, 2, 28);
    assert_eq!(d.checked_add(Duration::days(2).unwrap()), Some(ymd(2020, 3, 1)));
    assert_eq!(d.checked_add(Duration::seconds(-86_400 * 59)), Some(ymd(2019, 12, 31)));
    assert_eq!(d.checked_add(Duration::seconds(86_399)), Some(d));
}

#[test]
fn datetime_add_carries_into_days() {
    let dt = PrimitiveDateTime::new(ymd(2019, 12, 31), Time::from_hms(23, 59, 30).unwrap());
    let later = dt.checked_add(Duration::new(45, 250).unwrap()).unwrap();
    assert_eq!(later.date, ymd(2020, 1, 1));
    assert_eq!(later.time, Time::from_hms_nano(0, 0, 15, 250).unwrap());
    let earlier = dt.checked_add(Duration::seconds(-86_400 - 30)).unwrap();
    assert_eq!(earlier.date, ymd(2019, 12, 30));
    assert_eq!(earlier.time, Time::from_hms(23, 59, 0).unwrap());
    let back = later.checked_add(Duration::new(-45, -250).unwrap()).unwrap();
    assert_eq!(back, dt);
    let end = PrimitiveDateTime::new(ymd(9999, 12, 31), Time::from_hms(23, 59, 59).unwrap());
    assert_eq!(end.checked_add(Duration::seconds(1)), None);
}

#[test]
fn time_wraps_around_midnight() {
    let t = Time::from_hms(23, 0, 0).unwrap();
    assert_eq!(t.wrapping_add(Duration::seconds(7_200)), Time::from_hms(1, 0, 0).unwrap());
    assert_eq!(t.wrapping_add(Duration::seconds(-86_400 * 3 - 1)), Time::from_hms(22, 59, 59).unwrap());
    assert_eq!(Time::midnight().wrapping_add(Duration::new(0, -1).unwrap()), Time::from_hms_nano(23, 59, 59, 999_999_999).unwrap());
}

#[test]
fn subtraction() {
    let d = ymd(2020, 3, 1);
    assert_eq!(d.checked_sub(Duration::days(1).unwrap()), Some(ymd(2020, 2, 29)));
    assert_eq!(ymd(-9999, 1, 1).checked_sub(Duration::days(1).unwrap()), None);
    let dt = PrimitiveDateTime::new(d, Time::midnight());
    let earlier = dt.checked_sub(Duration::seconds(1)).unwrap();
    assert_eq!(earlier, PrimitiveDateTime::new(ymd(2020, 2, 29), Time::from_hms(23, 59, 59).unwrap()));
    assert_eq!(dt.checked_sub(Duration::seconds(i64::MIN)), None);
    assert_eq!(Duration::seconds(i64::MIN).checked_neg(), None);
    assert_eq!(Duration::seconds(5).checked_neg(), Some(Duration::seconds(-5)));
}

#[test]
fn offset_datetime_add_keeps_offset() {
    let off = UtcOffset::from_hms(2, 0, 0).unwrap();
    let odt = PrimitiveDateTime::new(ymd(2020, 12, 31), Time::from_hms(23, 30, 0).unwrap()).assume_offset(off);
    let later = odt.checked_add(Duration::seconds(3_600)).unwrap();
    assert_eq!(later.offset, off);
    assert_eq!(later.datetime, PrimitiveDateTime::new(ymd(2021, 1, 1), Time::from_hms(0, 30, 0).unwrap()));
}
