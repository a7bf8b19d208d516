use snakepit::native::datetime::{format_duration, DateTime};

#[test]
fn test_now() {
    let dt = DateTime::now();
    assert!(dt.timestamp() > 1700000000); // After 2023
}

#[test]
fn test_from_timestamp() {
    let dt = DateTime::from_timestamp(1700000000);
    assert_eq!(dt.timestamp(), 1700000000);
}

#[test]
fn test_iso8601() {
    let dt = DateTime::from_timestamp(1700000000);
    let iso = dt.to_iso8601();
    assert!(iso.contains("T"));
    assert!(iso.ends_with("Z"));
}

#[test]
fn test_parse_iso8601() {
    let iso = "2024-12-15T10:30:45.123Z";
    let dt = DateTime::parse_iso8601(iso).unwrap();
    let parsed_iso = dt.to_iso8601();
    assert_eq!(iso, parsed_iso);
}

#[test]
fn test_components() {
    let dt = DateTime::from_components(2024, 12, 15, 10, 30, 45, 0).unwrap();
    let (y, m, d, h, min, s, _) = dt.to_components();
    assert_eq!((y, m, d, h, min, s), (2024, 12, 15, 10, 30, 45));
}

#[test]
fn test_duration() {
    let dt1 = DateTime::now();
    let dt2 = dt1.add(3600 * 1000);
    let diff = dt2.duration_since(&dt1);
    assert_eq!(diff / 1000, 3600);
}

#[test]
fn test_format_duration() {
    let formatted = format_duration(3665); // 1h 1m 5s
    assert!(formatted.contains("1h"));
    assert!(formatted.contains("1m"));
    assert!(formatted.contains("5s"));
}

#[test]
fn text_forms_of_a_known_instant() {
    let dt = DateTime::from_timestamp_millis(1700000000123);
    assert_eq!(dt.timestamp_millis(), 1700000000123);
    assert_eq!(dt.to_iso8601(), "2023-11-14T22:13:20.123Z");
    assert_eq!(dt.to_rfc3339(), "2023-11-14T22:13:20.123Z");
    assert_eq!(dt.to_string(), "2023-11-14 22:13:20");
    assert_eq!(dt.to_date_string(), "2023-11-14");
    assert_eq!(dt.to_time_string(), "22:13:20");
    assert_eq!(DateTime::from_timestamp(0).to_iso8601(), "1970-01-01T00:00:00.000Z");
    assert_eq!(DateTime::from_timestamp(951782400).to_date_string(), "2000-02-29");
}

#[test]
fn components_of_edge_dates() {
    assert_eq!(DateTime::from_components(1970, 1, 1, 0, 0, 0, 0), Some(DateTime::from_timestamp(0)));
    assert_eq!(DateTime::from_components(2000, 3, 1, 0, 0, 0, 0), Some(DateTime::from_timestamp(951868800)));
    assert_eq!(DateTime::from_components(2024, 13, 1, 0, 0, 0, 0), None);
    assert_eq!(DateTime::from_components(2024, 0, 1, 0, 0, 0, 0), None);
    assert_eq!(DateTime::from_components(2024, 1, 32, 0, 0, 0, 0), None);
    assert_eq!(DateTime::from_components(2024, 1, 0, 0, 0, 0, 0), None);
    assert_eq!(DateTime::from_components(1970, 1, 1, 25, 61, 61, 1001).unwrap().timestamp_millis(), 25 * 3600000 + 61 * 60000 + 61 * 1000 + 1001);
    assert_eq!(DateTime::from_timestamp(86399).to_components(), (1970, 1, 1, 23, 59, 59, 0));
    assert_eq!(DateTime::from_timestamp(86400).to_components(), (1970, 1, 2, 0, 0, 0, 0));
    assert_eq!(DateTime::from_timestamp(1709251199).to_components(), (2024, 2, 29, 23, 59, 59, 0));
}

#[test]
fn iso_texts_that_are_none() {
    assert_eq!(DateTime::parse_iso8601("2024-12-15"), None);
    assert_eq!(DateTime::parse_iso8601("2024-12-15T10:30"), None);
    assert_eq!(DateTime::parse_iso8601("2024-12T10:30:45"), None);
    assert_eq!(DateTime::parse_iso8601("2024-12-15T10:30:xx"), None);
    assert_eq!(DateTime::parse_iso8601("2024-12-15T10:30:45.Z"), None);
    assert_eq!(DateTime::parse_iso8601("2024-13-15T10:30:45"), None);
    assert_eq!(DateTime::parse_iso8601(""), None);
    assert_eq!(DateTime::parse_iso8601("2024-12-15T10:30:45ZZ").unwrap().to_string(), "2024-12-15 10:30:45");
    assert_eq!(DateTime::parse_iso8601("+2024-12-15T10:30:45.5").unwrap().timestamp_millis() % 1000, 5);
}

#[test]
fn arithmetic_saturates_downwards() {
    let dt = DateTime::from_timestamp_millis(500);
    assert_eq!(dt.sub(600).timestamp_millis(), 0);
    assert_eq!(dt.sub(100).timestamp_millis(), 400);
    assert_eq!(dt.add(100).timestamp_millis(), 600);
    assert_eq!(DateTime::from_timestamp_millis(100).duration_since(&dt), 0);
    assert!(DateTime::from_timestamp(0).elapsed() > 1700000000000);
    assert!(DateTime::from_timestamp_millis(1) < DateTime::from_timestamp_millis(2));
}

#[test]
fn durations_in_words() {
    assert_eq!(format_duration(0), "0s");
    assert_eq!(format_duration(45), "45s");
    assert_eq!(format_duration(3600), "1h");
    assert_eq!(format_duration(3665), "1h 1m 5s");
    assert_eq!(format_duration(2 * 86400 + 3 * 3600 + 45 * 60), "2d 3h 45m");
}

#[test]
fn clock_readings_become_points_in_time() {
    assert_eq!(DateTime::from_reading(None).timestamp_millis(), 0);
    assert_eq!(DateTime::from_reading(Some(0)).timestamp_millis(), 0);
    assert_eq!(DateTime::from_reading(Some(1_700_000_000_123)).timestamp_millis(), 1_700_000_000_123);
    assert_eq!(DateTime::from_reading(Some(u64::MAX as u128)).timestamp_millis(), u64::MAX);
    assert_eq!(DateTime::from_reading(Some(u64::MAX as u128 + 1)).timestamp_millis(), u64::MAX);
    assert_eq!(DateTime::from_reading(Some(u128::MAX)).timestamp_millis(), u64::MAX);
}
