use time::clock::Time;
use time::date::Date;
use time::datetime::{OffsetDateTime, PrimitiveDateTime};
use time::error::{Format, Parse};
use time::format::FormatItem::{
    self, Day, Hour, Literal, Minute, Month, MonthName, Offset, Ordinal, Second, Subsecond, WeekdayName, Year,
};
use time::offset::UtcOffset;

const ISO_DATE: [FormatItem; 5] = [Year, Literal(b'-'), Month, Literal(b'-'), Day];

#[test]
fn format_date_iso() {
    let d = Date::from_calendar_date(2020, 2, 9).unwrap();
    assert_eq!(d.format(&ISO_DATE).unwrap(), b"2020-02-09".to_vec());
    let d = Date::from_calendar_date(-44, 3, 15).unwrap();
    assert_eq!(d.format(&ISO_DATE).unwrap(), b"-0044-03-15".to_vec());
    let d = Date::from_calendar_date(7, 12, 31).unwrap();
    assert_eq!(d.format(&[Year, Literal(b'-'), Ordinal]).unwrap(), b"0007-365".to_vec());
}

#[test]
fn date_round_trip() {
    let items = [Day, Literal(b'/'), Month, Literal(b'/'), Year];
    for (y, m, dd) in [(2020, 2, 29), (1, 1, 1), (-9999, 12, 31), (9999, 6, 15)] {
        let d = Date::from_calendar_date(y, m, dd).unwrap();
        let text = d.format(&items).unwrap();
        assert_eq!(Date::parse(&text, &items).unwrap(), d);
        let text = d.format(&ISO_DATE).unwrap();
        assert_eq!(Date::parse(&text, &ISO_DATE).unwrap(), d);
    }
}

#[test]
fn date_parse_ordinal_form() {
    let d = Date::parse(b"2020-060", &[Year, Literal(b'-'), Ordinal]).unwrap();
    assert_eq!((d.month(), d.day()), (2, 29));
}

#[test]
fn date_parse_errors() {
    assert_eq!(Date::parse(b"2020-02", &ISO_DATE), Err(Parse::UnexpectedEndOfString));
    assert_eq!(
        Date::parse(b"2020/02/01", &ISO_DATE),
        Err(Parse::UnexpectedCharacter { expected: b'-', given: b'/' })
    );
    assert_eq!(Date::parse(b"2020-0x-01", &ISO_DATE), Err(Parse::InvalidNumber { component_name: "month" }));
    assert_eq!(Date::parse(b"2020-02-01Z", &ISO_DATE), Err(Parse::TrailingInput));
    assert_eq!(Date::parse(b"2020-02", &[Year, Literal(b'-'), Month]), Err(Parse::InsufficientInformation));
    match Date::parse(b"2021-02-29", &ISO_DATE) {
        Err(Parse::ComponentOutOfRange(e)) => {
            assert_eq!(e.component_name, "day");
            assert_eq!(e.maximum, 28);
        }
        other => panic!("unexpected {:?}", other),
    }
}

#[test]
fn time_format_and_parse() {
    let items = [Hour, Literal(b':'), Minute, Literal(b':'), Second];
    let t = Time::from_hms(7, 5, 9).unwrap();
    assert_eq!(t.format(&items).unwrap(), b"07:05:09".to_vec());
    assert_eq!(Time::parse(b"07:05:09", &items).unwrap(), t);
    assert_eq!(Time::parse(b"23:59", &[Hour, Literal(b':'), Minute]).unwrap(), Time::from_hms(23, 59, 0).unwrap());
    match Time::parse(b"24:00", &[Hour, Literal(b':'), Minute]) {
        Err(Parse::ComponentOutOfRange(e)) => assert_eq!(e.component_name, "hour"),
        other => panic!("unexpected {:?}", other),
    }
}

#[test]
fn offset_needs_offset_datetime() {
    let dt = PrimitiveDateTime::new(Date::from_calendar_date(2020, 1, 2).unwrap(), Time::from_hms(3, 4, 5).unwrap());
    let items = [Year, Month, Day, Literal(b'T'), Hour, Minute, Second, Offset];
    assert_eq!(dt.format(&items), Err(Format::InsufficientTypeInformation));
    let odt = dt.assume_offset(UtcOffset::from_hms(5, 30, 0).unwrap());
    assert_eq!(odt.format(&items).unwrap(), b"20200102T030405+05:30".to_vec());
}

#[test]
fn offset_text_with_seconds_and_sign() {
    let dt = PrimitiveDateTime::new(Date::from_calendar_date(2020, 1, 2).unwrap(), Time::midnight());
    let odt = dt.assume_offset(UtcOffset::from_hms(-1, 0, -30).unwrap());
    assert_eq!(odt.format(&[Offset]).unwrap(), b"-01:00:30".to_vec());
    let odt = dt.assume_offset(UtcOffset::utc());
    assert_eq!(odt.format(&[Offset]).unwrap(), b"+00:00".to_vec());
}

#[test]
fn date_refuses_time_items() {
    let d = Date::from_calendar_date(2020, 1, 2).unwrap();
    assert_eq!(d.format(&[Year, Hour]), Err(Format::InsufficientTypeInformation));
    let t = Time::midnight();
    assert_eq!(t.format(&[Year]), Err(Format::InsufficientTypeInformation));
}

#[test]
fn names_render_and_read_back() {
    let items = [WeekdayName, Literal(b' '), Day, Literal(b' '), MonthName, Literal(b' '), Year];
    let d = Date::from_calendar_date(2020, 2, 29).unwrap();
    let text = d.format(&items).unwrap();
    assert_eq!(text, b"Sat 29 Feb 2020".to_vec());
    assert_eq!(Date::parse(&text, &items).unwrap(), d);
    assert_eq!(
        Date::parse(b"Sat 29 Fex 2020", &items),
        Err(Parse::UnknownName { component_name: "month" })
    );
    assert_eq!(
        Date::parse(b"Sut 29 Feb 2020", &items),
        Err(Parse::UnknownName { component_name: "weekday" })
    );
}

#[test]
fn fractional_seconds() {
    let items = [Hour, Literal(b':'), Minute, Literal(b':'), Second, Literal(b'.'), Subsecond];
    let t = Time::from_hms_nano(1, 2, 3, 4_000).unwrap();
    let text = t.format(&items).unwrap();
    assert_eq!(text, b"01:02:03.000004000".to_vec());
    assert_eq!(Time::parse(&text, &items).unwrap(), t);
    assert_eq!(Time::parse(b"01:02:03.5", &items).unwrap(), Time::from_hms_nano(1, 2, 3, 500_000_000).unwrap());
    assert_eq!(Time::parse(b"01:02:03.123456", &items).unwrap(), Time::from_hms_nano(1, 2, 3, 123_456_000).unwrap());
    assert_eq!(Time::parse(b"01:02:03.", &items), Err(Parse::UnexpectedEndOfString));
    assert_eq!(Time::parse(b"01:02:03.x", &items), Err(Parse::InvalidNumber { component_name: "nanosecond" }));
    assert_eq!(Time::parse(b"01:02:03.1234567891", &items), Err(Parse::TrailingInput));
}

#[test]
fn ordinal_only_round_trip() {
    let items = [Year, Ordinal];
    let d = Date::from_calendar_date(2019, 12, 31).unwrap();
    let text = d.format(&items).unwrap();
    assert_eq!(text, b"2019365".to_vec());
    assert_eq!(Date::parse(&text, &items).unwrap(), d);
}

#[test]
fn offsets_read_back() {
    let items = [Offset];
    assert_eq!(UtcOffset::parse(b"+05:30", &items).unwrap(), UtcOffset::from_hms(5, 30, 0).unwrap());
    assert_eq!(UtcOffset::parse(b"-01:00:30", &items).unwrap(), UtcOffset::from_hms(-1, 0, -30).unwrap());
    assert_eq!(UtcOffset::parse(b"05:30", &items), Err(Parse::UnexpectedCharacter { expected: b'+', given: b'0' }));
    match UtcOffset::parse(b"+24:00", &items) {
        Err(Parse::ComponentOutOfRange(e)) => assert_eq!(e.component_name, "hours"),
        other => panic!("unexpected {:?}", other),
    }
    assert_eq!(UtcOffset::parse(b"2020", &[Year]), Err(Parse::InsufficientInformation));
}

#[test]
fn offset_datetime_round_trip() {
    let items = [
        Year, Literal(b'-'), Month, Literal(b'-'), Day, Literal(b'T'), Hour, Literal(b':'), Minute, Literal(b':'),
        Second, Offset,
    ];
    let dt = PrimitiveDateTime::new(Date::from_calendar_date(1999, 12, 31).unwrap(), Time::from_hms(23, 0, 1).unwrap());
    let odt = dt.assume_offset(UtcOffset::from_hms(-8, 0, 0).unwrap());
    let text = odt.format(&items).unwrap();
    assert_eq!(text, b"1999-12-31T23:00:01-08:00".to_vec());
    assert_eq!(OffsetDateTime::parse(&text, &items).unwrap(), odt);
}

#[test]
fn time_round_trip_without_seconds() {
    let items = [Hour, Literal(b'h'), Minute];
    let t = Time::from_hms(9, 41, 0).unwrap();
    let text = t.format(&items).unwrap();
    assert_eq!(text, b"09h41".to_vec());
    assert_eq!(Time::parse(&text, &items).unwrap(), t);
}
