use vtt_builder::error::ErrorKind;
use vtt_builder::timestamp::{
    format_timestamp, format_timestamp_flexible, is_valid_timestamp, millis_to_timestamp,
    timestamp_to_millis,
};

#[test]
fn format_long_form() {
    assert_eq!(format_timestamp(0), "00:00:00.000");
    assert_eq!(format_timestamp(3_661_000), "01:01:01.000");
    assert_eq!(format_timestamp(359_999_999), "99:59:59.999");
    assert_eq!(format_timestamp(1_500), "00:00:01.500");
}

#[test]
fn format_hours_beyond_two_digits() {
    assert_eq!(format_timestamp(360_000_000), "100:00:00.000");
    assert_eq!(format_timestamp_flexible(4_000_000_000, true), "1111:06:40.000");
}

#[test]
fn format_short_form_when_hours_are_zero() {
    assert_eq!(format_timestamp_flexible(61_500, true), "01:01.500");
    assert_eq!(format_timestamp_flexible(0, true), "00:00.000");
    assert_eq!(format_timestamp_flexible(3_599_999, true), "59:59.999");
}

#[test]
fn format_hour_forces_long_form() {
    assert_eq!(format_timestamp_flexible(3_661_000, true), "01:01:01.000");
    assert_eq!(format_timestamp_flexible(3_600_000, true), "01:00:00.000");
    assert_eq!(format_timestamp_flexible(61_500, false), "00:01:01.500");
}

#[test]
fn millis_to_timestamp_checks_range() {
    assert_eq!(millis_to_timestamp(83_456, false).unwrap(), "00:01:23.456");
    assert_eq!(millis_to_timestamp(83_456, true).unwrap(), "01:23.456");
    assert_eq!(millis_to_timestamp(359_999_999, false).unwrap(), "99:59:59.999");
    let e = millis_to_timestamp(-1, false).unwrap_err();
    assert_eq!(e.kind, ErrorKind::Timestamp);
    assert_eq!(e.message, "Milliseconds cannot be negative");
    let e = millis_to_timestamp(360_000_000, false).unwrap_err();
    assert_eq!(e.kind, ErrorKind::Timestamp);
    assert_eq!(e.message, "Milliseconds exceed maximum allowed value (359999999)");
}

#[test]
fn parse_long_and_short() {
    assert_eq!(timestamp_to_millis("01:23:45.678").unwrap(), 5_025_678);
    assert_eq!(timestamp_to_millis("23:45.678").unwrap(), 1_425_678);
    assert_eq!(timestamp_to_millis("00:00:00.000").unwrap(), 0);
    assert_eq!(timestamp_to_millis("99:59:59.999").unwrap(), 359_999_999);
    assert_eq!(timestamp_to_millis("100:00:00.000").unwrap(), 360_000_000);
    assert_eq!(timestamp_to_millis("120:05.250").unwrap(), 7_205_250);
}

#[test]
fn parse_rejects_malformed() {
    for bad in [
        "",
        "00:00:00",
        "00:00:00.00",
        "00:00:00.0000",
        "0:00:00.000",
        "00:0:00.000",
        "00:00:0.000",
        "00:60:00.000",
        "00:00:60.000",
        "00:60.000",
        "0:05.000",
        "00:000:00.000",
        "00:00:00:00.000",
        "00.00.000",
        "aa:00:00.000",
        "00:00:00.0a0",
        "+1:00:00.000",
        " 00:00:00.000",
        "00:00:00.000 ",
        "00:00:00,000",
        "0\u{0660}:00:00.000",
    ] {
        let e = timestamp_to_millis(bad).unwrap_err();
        assert_eq!(e.kind, ErrorKind::Timestamp, "{:?}", bad);
        assert_eq!(e.message, format!("Invalid timestamp format: '{}'", bad));
        assert!(!is_valid_timestamp(bad), "{:?}", bad);
    }
}

#[test]
fn parse_rejects_leading_number_beyond_32_bits() {
    assert_eq!(timestamp_to_millis("4294967295:00:00.000").unwrap(), 4_294_967_295u64 * 3_600_000);
    assert_eq!(timestamp_to_millis("4294967295:59.999").unwrap(), 4_294_967_295u64 * 60_000 + 59_999);
    assert!(timestamp_to_millis("4294967296:00:00.000").is_err());
    assert!(timestamp_to_millis("4294967296:00.000").is_err());
    assert!(timestamp_to_millis("99999999999999999999999:00:00.000").is_err());
    assert!(is_valid_timestamp("4294967296:00:00.000"));
    assert!(is_valid_timestamp("99999999999999999999999:00.000"));
}

#[test]
fn valid_timestamp_grammar() {
    assert!(is_valid_timestamp("00:05.000"));
    assert!(is_valid_timestamp("00:00:05.000"));
    assert!(is_valid_timestamp("123:59:59.999"));
    assert!(is_valid_timestamp("123:59.999"));
    assert!(!is_valid_timestamp("1:59.999"));
    assert!(!is_valid_timestamp("00:5.000"));
}

#[test]
fn format_then_parse_gives_the_time_back() {
    let mut ms: u64 = 0;
    while ms <= 359_999_999 {
        for short in [false, true] {
            let text = format_timestamp_flexible(ms, short);
            assert!(is_valid_timestamp(&text));
            assert_eq!(timestamp_to_millis(&text).unwrap(), ms);
        }
        ms += 7_919_993;
    }
    for ms in [0u64, 999, 1_000, 59_999, 60_000, 3_599_999, 3_600_000, 359_999_999] {
        for short in [false, true] {
            let text = format_timestamp_flexible(ms, short);
            assert_eq!(timestamp_to_millis(&text).unwrap(), ms);
        }
    }
}
