use wiwo::timerange::{parse_time_range, TimeRangeError};

#[test]
fn parse_days() {
    assert_eq!(parse_time_range("30d"), Ok(30));
}

#[test]
fn parse_weeks() {
    assert_eq!(parse_time_range("2w"), Ok(14));
}

#[test]
fn parse_months() {
    assert_eq!(parse_time_range("1m"), Ok(30));
}

#[test]
fn parse_years() {
    assert_eq!(parse_time_range("1y"), Ok(365));
}

#[test]
fn parse_multi_digit() {
    assert_eq!(parse_time_range("120d"), Ok(120));
    assert_eq!(parse_time_range("6m"), Ok(180));
}

#[test]
fn too_short_is_invalid_format() {
    assert_eq!(parse_time_range("d"), Err(TimeRangeError::InvalidFormat));
    assert_eq!(parse_time_range(""), Err(TimeRangeError::InvalidFormat));
    assert_eq!(parse_time_range("5"), Err(TimeRangeError::InvalidFormat));
}

#[test]
fn bad_number_is_invalid_format() {
    assert_eq!(parse_time_range("xd"), Err(TimeRangeError::InvalidFormat));
    assert_eq!(parse_time_range("1_0d"), Err(TimeRangeError::InvalidFormat));
    assert_eq!(parse_time_range("-5d"), Err(TimeRangeError::InvalidFormat));
}

#[test]
fn unknown_unit_is_invalid_unit() {
    assert_eq!(parse_time_range("10x"), Err(TimeRangeError::InvalidUnit));
    assert_eq!(parse_time_range("3h"), Err(TimeRangeError::InvalidUnit));
}

#[test]
fn huge_number_is_invalid_format() {
    // does not fit in a signed 64-bit day count
    assert_eq!(
        parse_time_range("99999999999999999999d"),
        Err(TimeRangeError::InvalidFormat)
    );
    // fits as a number of years, but not once converted to days
    assert_eq!(
        parse_time_range("9223372036854775807y"),
        Err(TimeRangeError::InvalidFormat)
    );
}

#[test]
fn zero_is_accepted() {
    assert_eq!(parse_time_range("0d"), Ok(0));
    assert_eq!(parse_time_range("0y"), Ok(0));
}
