use time::date::Date;
use time::error::{ComponentRange, ConversionRange, Error, Format, IndeterminateOffset, Parse};

#[test]
fn component_range_message_with_context() {
    let e = Date::from_calendar_date(2019, 2, 30).unwrap_err();
    assert_eq!(e.message(), "day must be in the range 1..=28 given month=2, year=2019 (was 30)");
}

#[test]
fn component_range_message_without_context() {
    let e = Date::from_calendar_date(-10000, 1, 1).unwrap_err();
    assert_eq!(e.message(), "year must be in the range -9999..=9999 (was -10000)");
}

#[test]
fn component_range_message_extreme_values() {
    let e = ComponentRange { component_name: "x", minimum: i64::MIN, maximum: i64::MAX, value: 0, given: vec![] };
    assert_eq!(e.message(), "x must be in the range -9223372036854775808..=9223372036854775807 (was 0)");
}

#[test]
fn error_messages_of_other_kinds() {
    assert_eq!(Error::from(ConversionRange).message(), "Source value is out of range for the target type");
    assert_eq!(Error::from(IndeterminateOffset).message(), "The system's UTC offset could not be determined");
    assert_eq!(
        Error::from(Format::InsufficientTypeInformation).message(),
        "The format provided requires more information than the type provides."
    );
    assert_eq!(Error::from(Parse::UnexpectedEndOfString).message(), "unexpected end of string");
}

#[test]
fn conversions_into_error() {
    let e = Date::from_calendar_date(2019, 13, 1).unwrap_err();
    assert_eq!(Error::from(e.clone()), Error::ComponentRange(Box::new(e.clone())));
    assert_eq!(Error::from(e.clone()).message(), e.message());
    assert_eq!(Error::from(Format::StdFmtError), Error::Format(Format::StdFmtError));
    assert_eq!(Error::from(Parse::TrailingInput), Error::Parse(Parse::TrailingInput));
}

#[test]
fn parse_error_messages() {
    assert_eq!(Error::from(Parse::InvalidNumber { component_name: "hour" }).message(), "invalid number for hour");
    let e = Date::from_ordinal_date(2021, 400).unwrap_err();
    assert_eq!(
        Error::from(Parse::ComponentOutOfRange(Box::new(e))).message(),
        "ordinal must be in the range 1..=365 given year=2021 (was 400)"
    );
    assert_eq!(ConversionRange.message(), "Source value is out of range for the target type");
    assert_eq!(IndeterminateOffset.message(), "The system's UTC offset could not be determined");
}

#[test]
fn formatter_failure_converts() {
    assert_eq!(Format::from(std::fmt::Error), Format::StdFmtError);
    assert_eq!(Error::from(Format::from(std::fmt::Error)).message(), "an error occurred when formatting an argument");
}
