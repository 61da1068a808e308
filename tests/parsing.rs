use csv_columnar::{
    calculate_days_since_epoch, coerce_field, is_leap_year, parse_boolean, parse_date_string,
    parse_date_to_days, parse_datetime_to_nanos, parse_iso_datetime, DataType, DateFormat,
    FieldValue,
};

#[test]
fn iso_date_gives_epoch_days() {
    assert_eq!(parse_date_to_days("2024-03-01"), Some(19783));
    assert_eq!(parse_date_to_days("1970-01-01"), Some(0));
    assert_eq!(parse_date_to_days("  2000-02-29 "), Some(11016));
}

#[test]
fn dates_before_the_epoch_are_negative() {
    assert_eq!(parse_date_to_days("1969-12-31"), Some(-1));
    assert_eq!(parse_date_to_days("1900-01-01"), Some(-25567));
}

#[test]
fn slash_layouts_are_tried_in_order() {
    assert_eq!(parse_date_to_days("12/25/2023"), Some(19716));
    // month first wins where both readings are dates
    assert_eq!(parse_date_to_days("04/05/2023"), Some(19452));
    // a first number above 12 can only be a day
    assert_eq!(parse_date_to_days("25/12/2023"), Some(19716));
    assert_eq!(parse_date_to_days("2023/05/04"), Some(19481));
}

#[test]
fn invalid_dates_are_none() {
    assert_eq!(parse_date_to_days("2023-02-29"), None);
    assert_eq!(parse_date_to_days("2023-13-01"), None);
    assert_eq!(parse_date_to_days("2023-00-10"), None);
    assert_eq!(parse_date_to_days("not a date"), None);
    assert_eq!(parse_date_to_days(""), None);
    assert_eq!(parse_date_to_days("2024-3-1"), None);
}

#[test]
fn date_string_in_each_layout() {
    assert_eq!(parse_date_string("2024-03-01", DateFormat::YearMonthDayDash), Some(19783));
    assert_eq!(parse_date_string("03/01/2024", DateFormat::MonthDayYear), Some(19783));
    assert_eq!(parse_date_string("01/03/2024", DateFormat::DayMonthYear), Some(19783));
    assert_eq!(parse_date_string("2024/03/01", DateFormat::YearMonthDaySlash), Some(19783));
    assert_eq!(parse_date_string("2024-03-01", DateFormat::MonthDayYear), None);
    assert_eq!(parse_date_string("2024-03", DateFormat::YearMonthDayDash), None);
}

#[test]
fn leap_year_rule() {
    assert!(is_leap_year(2024));
    assert!(!is_leap_year(2023));
    assert!(!is_leap_year(1900));
    assert!(is_leap_year(2000));
    assert!(is_leap_year(-4));
}

#[test]
fn days_since_epoch_checks_the_date() {
    assert_eq!(calculate_days_since_epoch(2024, 3, 1), Some(19783));
    assert_eq!(calculate_days_since_epoch(2024, 2, 29), Some(19782));
    assert_eq!(calculate_days_since_epoch(2023, 2, 29), None);
    assert_eq!(calculate_days_since_epoch(2023, 0, 1), None);
    assert_eq!(calculate_days_since_epoch(2023, 1, 0), None);
    assert_eq!(calculate_days_since_epoch(i32::MAX, 12, 31), None);
}

#[test]
fn boolean_words() {
    assert_eq!(parse_boolean("Y"), Some(true));
    assert_eq!(parse_boolean("f"), Some(false));
    assert_eq!(parse_boolean("maybe"), None);
    assert_eq!(parse_boolean(" TRUE "), Some(true));
    assert_eq!(parse_boolean("No"), Some(false));
    assert_eq!(parse_boolean("1"), Some(true));
    assert_eq!(parse_boolean("0"), Some(false));
    assert_eq!(parse_boolean(""), None);
}

#[test]
fn unix_seconds_become_nanoseconds() {
    assert_eq!(parse_datetime_to_nanos("1700000000"), Some(1700000000000000000));
    // exactly ten billion is still seconds, and too large for nanoseconds
    assert_eq!(parse_datetime_to_nanos("10000000000"), None);
    assert_eq!(parse_datetime_to_nanos("9000000000"), Some(9000000000000000000));
}

#[test]
fn large_unix_numbers_are_milliseconds() {
    assert_eq!(parse_datetime_to_nanos("1700000000000"), Some(1700000000000000000));
    assert_eq!(parse_datetime_to_nanos("-1700000000000"), Some(-1700000000000000000));
    assert_eq!(parse_datetime_to_nanos("0"), Some(0));
}

#[test]
fn iso_datetimes() {
    assert_eq!(parse_datetime_to_nanos("2024-03-01T12:30:45.5Z"), Some(1709296245500000000));
    assert_eq!(parse_datetime_to_nanos("2024-03-01 00:00"), Some(1709251200000000000));
    assert_eq!(parse_iso_datetime("2024-03-01T12:30:45.5"), Some(1709296245500000000));
    assert_eq!(parse_iso_datetime("2024-03-01T12:30:45.1234567891"), Some(1709296245123456789));
    assert_eq!(parse_iso_datetime("1970-01-01T00:00:01"), Some(1000000000));
    assert_eq!(parse_iso_datetime("2024-03-01"), None);
    assert_eq!(parse_iso_datetime("2024-03-01T25:00"), None);
    assert_eq!(parse_iso_datetime("2024-03-01T10:61"), None);
    assert_eq!(parse_datetime_to_nanos("yesterday"), None);
}

#[test]
fn coercion_by_declared_type() {
    assert_eq!(coerce_field(" x ", DataType::String), FieldValue::Str("x".to_string()));
    assert_eq!(coerce_field("   ", DataType::String), FieldValue::Null);
    assert_eq!(coerce_field("-42", DataType::Integer), FieldValue::Int(-42));
    assert_eq!(coerce_field("+7", DataType::Integer), FieldValue::Int(7));
    assert_eq!(coerce_field("9223372036854775807", DataType::Integer), FieldValue::Int(i64::MAX));
    assert_eq!(coerce_field("-9223372036854775808", DataType::Integer), FieldValue::Int(i64::MIN));
    assert_eq!(coerce_field("9223372036854775808", DataType::Integer), FieldValue::Null);
    assert_eq!(coerce_field("12a", DataType::Integer), FieldValue::Null);
    assert_eq!(coerce_field("2024-03-01", DataType::Date), FieldValue::Date(19783));
    assert_eq!(coerce_field("1700000000", DataType::Timestamp), FieldValue::Timestamp(1700000000000000000));
    assert_eq!(coerce_field("1700000000", DataType::DateTime), FieldValue::Timestamp(1700000000000000000));
    assert_eq!(coerce_field("yes", DataType::Boolean), FieldValue::Bool(true));
}

#[test]
fn float_literals_are_checked() {
    for ok in ["3.14", "-2.5e10", "1E-3", ".5", "5.", "inf", "-Infinity", "NaN", "+7"] {
        assert_eq!(coerce_field(ok, DataType::Float), FieldValue::Float(ok.to_string()), "{}", ok);
        assert!(ok.parse::<f64>().is_ok());
    }
    for bad in [".", "1e", "e5", "1.2.3", "abc", "--1", "1e+"] {
        assert_eq!(coerce_field(bad, DataType::Float), FieldValue::Null, "{}", bad);
        assert!(bad.parse::<f64>().is_err());
    }
}

#[test]
fn type_names() {
    assert_eq!(DataType::DateTime.to_string(), "datetime");
    assert_eq!(DataType::Integer.name(), "integer");
}
