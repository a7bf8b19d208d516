use snakepit::native::datetime::DateTime;
use snakepit::native::id::{
    generate_id, generate_random_u64, generate_short_id, generate_sortable_id, generate_uuid_v4, parse_timestamp,
    to_base32,
};

fn millis() -> u128 {
    DateTime::now().timestamp_millis() as u128
}

fn next_id(counter: u64) -> String {
    let now = millis();
    generate_id(now, counter, generate_random_u64(now as u64, counter))
}

#[test]
fn test_generate_id() {
    let id1 = next_id(0);
    let id2 = next_id(1);

    assert_ne!(id1, id2, "IDs should be unique");
    assert!(id1.contains('-'), "ID should contain separators");
}

#[test]
fn test_generate_short_id() {
    let now = millis();
    let id = generate_short_id(now, generate_random_u64(now as u64, 0));
    assert_eq!(id.len(), 8, "Short ID should be 8 characters");
}

#[test]
fn test_generate_uuid_v4() {
    let now = millis() as u64;
    let uuid = generate_uuid_v4(generate_random_u64(now, 0), generate_random_u64(now, 1));
    assert_eq!(uuid.len(), 36, "UUID should be 36 characters");
    assert!(uuid.contains('-'), "UUID should contain hyphens");
}

#[test]
fn test_parse_timestamp() {
    let id = next_id(0);
    let timestamp = parse_timestamp(&id);
    assert!(timestamp.is_some(), "Should parse timestamp from ID");
}

#[test]
fn test_uniqueness() {
    let mut ids = std::collections::HashSet::new();
    for counter in 0..10000 {
        let id = next_id(counter);
        assert!(ids.insert(id), "All IDs should be unique");
    }
}

#[test]
fn identifiers_of_given_numbers() {
    assert_eq!(generate_id(0x18c5a3f9c8b, 42, 0xa3f9c8b2), "18c5a3f9c8b-2a-a3f9c8b2");
    assert_eq!(generate_id(0, 0, 0), "0-0-0");
    assert_eq!(generate_id(u128::MAX, u64::MAX, 16), "ffffffffffffffffffffffffffffffff-ffffffffffffffff-10");
    assert_eq!(generate_short_id(0x12345, 0xabcdef0001), "23450001");
    assert_eq!(generate_short_id(0, 0), "00000000");
    assert_eq!(generate_uuid_v4(0x0123456789abcdef, 0xfedcba9876543210), "01234567-89ab-4def-fedc-ba9876543210");
    assert_eq!(snakepit::native::id::new(0, 0), "00000000-0000-4000-0000-000000000000");
    assert_eq!(generate_uuid_v4(u64::MAX, u64::MAX), "ffffffff-ffff-4fff-ffff-ffffffffffff");
    assert_eq!(to_base32(0, 3), "000");
    assert_eq!(to_base32(31, 1), "Z");
    assert_eq!(to_base32(32 * 32 + 33, 4), "0111");
    assert_eq!(to_base32(u64::MAX, 2), "ZZ");
    assert_eq!(to_base32(5, 0), "");
    assert_eq!(generate_sortable_id(1, 2), "00000000010000000000000002");
    assert_eq!(generate_sortable_id(1, 2).len(), 26);
    assert!(generate_sortable_id(1000, 5) < generate_sortable_id(1001, 0));
    assert_eq!(generate_random_u64(0, 0), 0);
    assert_eq!(generate_random_u64(1, 0), 0x5692161d100b05e5);
    assert_eq!(generate_random_u64(0, 1), 0x5692161d100b05e5);
}

#[test]
fn time_stamps_of_identifiers() {
    assert_eq!(parse_timestamp("18c5a3f9c8b-2a-a3f9c8b2"), Some(0x18c5a3f9c8b));
    assert_eq!(parse_timestamp("FF"), Some(255));
    assert_eq!(parse_timestamp("+ff-1"), Some(255));
    assert_eq!(parse_timestamp(""), None);
    assert_eq!(parse_timestamp("-1-2"), None);
    assert_eq!(parse_timestamp("+"), None);
    assert_eq!(parse_timestamp("12g-1"), None);
    assert_eq!(parse_timestamp(" 12"), None);
    assert_eq!(parse_timestamp("ffffffffffffffffffffffffffffffff"), Some(u128::MAX));
    assert_eq!(parse_timestamp("100000000000000000000000000000000"), None);
    assert_eq!(parse_timestamp("0000000000000000000000000000000000001"), Some(1));
}

#[test]
fn test_generate_sortable_id() {
    let start = millis();
    let id1 = generate_sortable_id(start, 7);
    let id2 = generate_sortable_id(start + 1, 0);
    assert!(id1 < id2, "Sortable IDs should be lexicographically ordered");
}
