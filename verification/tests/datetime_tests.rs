use rewind::datetime::{parse_datetime, DateTime};

fn dt(year: i64, month: i64, day: i64, hour: i64, minute: i64, second: i64) -> DateTime {
    DateTime { year, month, day, hour, minute, second }
}

#[test]
fn parse_valid_timestamp() {
    let parsed = parse_datetime("2025-06-01T14:30:00").unwrap();
    assert_eq!(parsed, dt(2025, 6, 1, 14, 30, 0));
}

#[test]
fn parse_epoch_start() {
    let parsed = parse_datetime("1970-01-01T00:00:00").unwrap();
    assert_eq!(parsed, dt(1970, 1, 1, 0, 0, 0));
    assert_eq!(parsed.timestamp(), 0);
}

#[test]
fn parse_rejects_wrong_length() {
    assert!(parse_datetime("2025-06-01T14:30").is_none());
    assert!(parse_datetime("").is_none());
    assert!(parse_datetime("2025-06-01T14:30:00Z").is_none());
}

#[test]
fn parse_rejects_wrong_separators() {
    assert!(parse_datetime("2025/06/01T14:30:00").is_none());
    assert!(parse_datetime("2025-06-01 14:30:00").is_none());
    assert!(parse_datetime("2025-06-01T14.30.00").is_none());
}

#[test]
fn parse_rejects_non_digits() {
    assert!(parse_datetime("2O25-06-01T14:30:00").is_none());
    assert!(parse_datetime("2025-06-01Txx:30:00").is_none());
}

#[test]
fn parse_rejects_out_of_range_components() {
    assert!(parse_datetime("2025-13-01T14:30:00").is_none());
    assert!(parse_datetime("2025-00-01T14:30:00").is_none());
    assert!(parse_datetime("2025-06-00T14:30:00").is_none());
    assert!(parse_datetime("2025-06-31T14:30:00").is_none());
    assert!(parse_datetime("2025-06-01T24:30:00").is_none());
    assert!(parse_datetime("2025-06-01T14:60:00").is_none());
    assert!(parse_datetime("2025-06-01T14:30:60").is_none());
}

#[test]
fn parse_respects_leap_years() {
    assert!(parse_datetime("2024-02-29T12:00:00").is_some());
    assert!(parse_datetime("2025-02-29T12:00:00").is_none());
    assert!(parse_datetime("2000-02-29T12:00:00").is_some());
    assert!(parse_datetime("1900-02-29T12:00:00").is_none());
}

#[test]
fn timestamp_known_values() {
    assert_eq!(parse_datetime("1970-01-02T00:00:00").unwrap().timestamp(), 86400);
    assert_eq!(parse_datetime("2025-06-01T14:30:00").unwrap().timestamp(), 1748788200);
    assert_eq!(parse_datetime("2024-02-29T12:00:00").unwrap().timestamp(), 1709208000);
    assert_eq!(parse_datetime("2000-03-01T00:00:00").unwrap().timestamp(), 951868800);
    assert_eq!(parse_datetime("1969-12-31T23:59:59").unwrap().timestamp(), -1);
}

#[test]
fn format_fixed_pattern() {
    let d = dt(2025, 6, 1, 14, 30, 0);
    assert_eq!(d.format(), "2025-06-01T14:30:00");
    let early = dt(7, 1, 2, 3, 4, 5);
    assert_eq!(early.format(), "0007-01-02T03:04:05");
}

#[test]
fn format_then_parse_returns_same_components() {
    let d = dt(2031, 12, 31, 23, 59, 59);
    assert!(d.is_valid());
    let back = parse_datetime(&d.format()).unwrap();
    assert_eq!(back, d);
}

#[test]
fn is_valid_checks_ranges() {
    assert!(dt(2025, 6, 1, 14, 30, 0).is_valid());
    assert!(!dt(2025, 2, 30, 0, 0, 0).is_valid());
    assert!(!dt(10000, 1, 1, 0, 0, 0).is_valid());
    assert!(!dt(-1, 1, 1, 0, 0, 0).is_valid());
    assert!(dt(2024, 2, 29, 23, 59, 59).is_valid());
}
