use terminal_mcp::calendar::{compact_timestamp, days_to_ymd, format_timestamp, iso8601_timestamp, now_iso8601};

#[test]
fn test_format_timestamp() {
    let ts = format_timestamp();
    // Should match YYYYMMDDTHHMMSS pattern
    assert_eq!(ts.len(), 15);
    assert_eq!(&ts[8..9], "T");
}

#[test]
fn epoch_is_first_of_january_1970() {
    assert_eq!(days_to_ymd(0), (1970, 1, 1));
}

#[test]
fn known_dates() {
    assert_eq!(days_to_ymd(19723), (2024, 1, 1));
    assert_eq!(days_to_ymd(11016), (2000, 2, 29));
    assert_eq!(days_to_ymd(11017), (2000, 3, 1));
    assert_eq!(days_to_ymd(364), (1970, 12, 31));
    assert_eq!(days_to_ymd(365), (1971, 1, 1));
    // 2100 is not a leap year.
    assert_eq!(days_to_ymd(47540), (2100, 2, 28));
    assert_eq!(days_to_ymd(47541), (2100, 3, 1));
}

#[test]
fn compact_and_iso_formats() {
    assert_eq!(compact_timestamp(0), "19700101T000000");
    assert_eq!(compact_timestamp(1_700_000_000), "20231114T221320");
    assert_eq!(iso8601_timestamp(1_700_000_000), "2023-11-14T22:13:20Z");
    assert_eq!(iso8601_timestamp(86_399), "1970-01-01T23:59:59Z");
}

#[test]
fn year_beyond_9999_gets_more_digits() {
    // 253402300800 seconds is 10000-01-01T00:00:00Z.
    assert_eq!(compact_timestamp(253_402_300_800), "100000101T000000");
}

#[test]
fn now_is_iso_shaped() {
    let now = now_iso8601();
    assert_eq!(now.len(), 20);
    assert!(now.ends_with('Z'));
    assert_eq!(&now[10..11], "T");
}

#[test]
fn consecutive_days_are_consecutive_dates() {
    assert_eq!(days_to_ymd(10956), (1999, 12, 31));
    assert_eq!(days_to_ymd(10957), (2000, 1, 1));
    assert_eq!(days_to_ymd(11015), (2000, 2, 28));
    assert_eq!(days_to_ymd(11016), (2000, 2, 29));
    assert_eq!(days_to_ymd(11017), (2000, 3, 1));
}
