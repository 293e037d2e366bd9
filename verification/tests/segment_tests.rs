use vtt_builder::error::ErrorKind;
use vtt_builder::segment::{find_fault, validate_segment, validate_segments, Segment, SegmentFault};

fn seg(id: u32, start_ms: i64, end_ms: i64, text: &str) -> Segment {
    Segment::new(id, start_ms, end_ms, text)
}

#[test]
fn valid_segment_passes() {
    assert!(validate_segment(&seg(1, 0, 2_000, "Hello world")).is_ok());
    assert!(validate_segment(&seg(1, 0, 0, "x")).is_ok());
    assert!(validate_segment(&seg(1, 359_999_999, 359_999_999, "x")).is_ok());
    assert_eq!(find_fault(&seg(1, 0, 2_000, "Hello -> world")), None);
}

#[test]
fn end_before_start_is_a_timestamp_error() {
    let e = validate_segment(&seg(7, 5_000, 2_000, "text")).unwrap_err();
    assert_eq!(e.kind, ErrorKind::Timestamp);
    assert_eq!(e.message, "Segment 7: end time (2000 ms) must be >= start time (5000 ms)");
}

#[test]
fn negative_times_are_timestamp_errors() {
    let e = validate_segment(&seg(3, -1, 2_000, "text")).unwrap_err();
    assert_eq!(e.kind, ErrorKind::Timestamp);
    assert_eq!(e.message, "Segment 3: start time cannot be negative (got -1 ms)");
    let e = validate_segment(&seg(4, 0, -5, "text")).unwrap_err();
    assert_eq!(e.kind, ErrorKind::Timestamp);
    assert_eq!(e.message, "Segment 4: end time cannot be negative (got -5 ms)");
}

#[test]
fn time_beyond_maximum_is_a_timestamp_error() {
    let e = validate_segment(&seg(12, 0, 360_000_000, "text")).unwrap_err();
    assert_eq!(e.kind, ErrorKind::Timestamp);
    assert_eq!(e.message, "Segment 12: timestamp exceeds maximum allowed value (99:59:59.999)");
    assert_eq!(
        find_fault(&seg(1, 360_000_000, 360_000_001, "text")),
        Some(SegmentFault::BeyondMaximum)
    );
}

#[test]
fn empty_text_is_a_cue_error() {
    for text in ["", "   ", "\n\t \r", "\u{3000}\u{00A0}"] {
        let e = validate_segment(&seg(2, 0, 1_000, text)).unwrap_err();
        assert_eq!(e.kind, ErrorKind::Cue);
        assert_eq!(e.message, "Segment 2: cue text cannot be empty");
    }
}

#[test]
fn arrow_in_text_is_a_cue_error() {
    let e = validate_segment(&seg(4294967295, 0, 1_000, "a --> b")).unwrap_err();
    assert_eq!(e.kind, ErrorKind::Cue);
    assert_eq!(e.message, "Segment 4294967295: cue text contains forbidden substring '-->'");
    assert_eq!(find_fault(&seg(1, 0, 1, "-->")), Some(SegmentFault::ForbiddenArrow));
    assert_eq!(find_fault(&seg(1, 0, 1, "--->")), Some(SegmentFault::ForbiddenArrow));
}

#[test]
fn messages_name_the_times_at_fault() {
    let e = validate_segment(&seg(1, i64::MIN, 0, "x")).unwrap_err();
    assert_eq!(e.message, "Segment 1: start time cannot be negative (got -9223372036854775808 ms)");
    let e = validate_segment(&seg(1, 0, i64::MIN, "x")).unwrap_err();
    assert_eq!(e.message, "Segment 1: end time cannot be negative (got -9223372036854775808 ms)");
    let e = validate_segment(&seg(0, i64::MAX, 0, "x")).unwrap_err();
    assert_eq!(
        e.message,
        "Segment 0: end time (0 ms) must be >= start time (9223372036854775807 ms)"
    );
}

#[test]
fn rules_are_checked_in_order() {
    assert_eq!(find_fault(&seg(1, -5, -9, "")), Some(SegmentFault::NegativeStart));
    assert_eq!(find_fault(&seg(1, 5, -9, "")), Some(SegmentFault::NegativeEnd));
    assert_eq!(find_fault(&seg(1, 400_000_000, 9, "")), Some(SegmentFault::EndBeforeStart));
    assert_eq!(find_fault(&seg(1, 5, 400_000_000, "")), Some(SegmentFault::BeyondMaximum));
    assert_eq!(find_fault(&seg(1, 5, 9, " ")), Some(SegmentFault::EmptyText));
}

#[test]
fn validation_leaves_the_segment_as_it_is() {
    let s = seg(1, 5_000, 2_000, "  a --> b ");
    let before = s.clone();
    let _ = validate_segment(&s);
    assert_eq!(s, before);
}

#[test]
fn clone_keeps_every_field() {
    let mut s = seg(9, 1, 2, "text");
    s.speaker = Some("Ann".to_string());
    s.confidence = Some(750);
    let c = s.clone();
    assert_eq!(c, s);
}

#[test]
fn list_validation_reports_the_first_fault() {
    let all = vec![seg(1, 0, 1, "a"), seg(2, 3, 2, "b"), seg(3, 0, 1, "")];
    let e = validate_segments(&all).unwrap_err();
    assert_eq!(e.kind, ErrorKind::Timestamp);
    assert_eq!(e.message, "Segment 2: end time (2 ms) must be >= start time (3 ms)");
    assert!(validate_segments(&vec![seg(1, 0, 1, "a"), seg(2, 1, 2, "b")]).is_ok());
    assert!(validate_segments(&Vec::new()).is_ok());
}
