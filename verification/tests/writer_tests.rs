use vtt_builder::builder::{
    build_transcript, build_vtt_string, transcript_part, write_note_block, write_style_block,
};
use vtt_builder::error::ErrorKind;
use vtt_builder::segment::Segment;
use vtt_builder::validator::validate_vtt;
use vtt_builder::writer::{prepare_cue_text, write_segments_to_vtt, write_vtt_header, VttConfig};

fn seg(id: u32, start_ms: i64, end_ms: i64, text: &str) -> Segment {
    Segment::new(id, start_ms, end_ms, text)
}

#[test]
fn default_config() {
    let c = VttConfig::default();
    assert!(c.escape_special_chars);
    assert!(!c.use_short_timestamps);
    assert!(c.flatten_newlines);
    assert!(c.header_text.is_none());
    assert!(c.metadata.is_empty());
}

#[test]
fn header_bare() {
    let mut out = String::new();
    write_vtt_header(&mut out, &VttConfig::default());
    assert_eq!(out, "WEBVTT\n\n");
}

#[test]
fn header_with_text_and_metadata() {
    let mut c = VttConfig::default();
    c.header_text = Some("Video Captions".to_string());
    c.metadata = vec![
        ("Kind".to_string(), "captions".to_string()),
        ("Language".to_string(), "en".to_string()),
    ];
    let mut out = String::from("x");
    write_vtt_header(&mut out, &c);
    assert_eq!(out, "xWEBVTT - Video Captions\nKind: captions\nLanguage: en\n\n");
}

#[test]
fn cue_text_is_flattened_and_escaped() {
    let c = VttConfig::default();
    assert_eq!(prepare_cue_text("  a\n\tb \r\n c  ", &c), "a b c");
    assert_eq!(prepare_cue_text("1 < 2 & 3 > 2", &c), "1 &lt; 2 &amp; 3 &gt; 2");
    assert_eq!(prepare_cue_text("   ", &c), "");
}

#[test]
fn cue_text_is_only_trimmed_without_flattening() {
    let mut c = VttConfig::default();
    c.flatten_newlines = false;
    c.escape_special_chars = false;
    assert_eq!(prepare_cue_text("  a\n\tb  <c>  ", &c), "a\n\tb  <c>");
    c.escape_special_chars = true;
    assert_eq!(prepare_cue_text(" a\nb & c ", &c), "a\nb &amp; c");
}

#[test]
fn segments_are_written_as_cue_blocks() {
    let segs = vec![seg(10, 0, 2_000, "Hello  world"), seg(20, 2_000, 4_500, "Tom & Jerry")];
    let mut out = String::new();
    let (next, offset) = write_segments_to_vtt(&segs, 0, 1, &mut out, &VttConfig::default());
    assert_eq!(
        out,
        "1\n00:00:00.000 --> 00:00:02.000\nHello world\n\n2\n00:00:02.000 --> 00:00:04.500\nTom &amp; Jerry\n\n"
    );
    assert_eq!(next, 3);
    assert_eq!(offset, 4_500);
}

#[test]
fn offset_and_index_carry_over_batches() {
    let first = vec![seg(1, 0, 1_000, "a"), seg(2, 1_000, 3_000, "b")];
    let second = vec![seg(1, 500, 1_500, "c")];
    let mut c = VttConfig::default();
    c.use_short_timestamps = true;
    let mut out = String::new();
    let (next, offset) = write_segments_to_vtt(&first, 0, 1, &mut out, &c);
    assert_eq!((next, offset), (3, 3_000));
    let (next, offset) = write_segments_to_vtt(&second, offset, next, &mut out, &c);
    assert_eq!((next, offset), (4, 4_500));
    assert_eq!(
        out,
        "1\n00:00.000 --> 00:01.000\na\n\n2\n00:01.000 --> 00:03.000\nb\n\n3\n00:03.500 --> 00:04.500\nc\n\n"
    );
}

#[test]
fn no_segments_leave_offset_and_output() {
    let mut out = String::from("kept");
    let (next, offset) = write_segments_to_vtt(&Vec::new(), 7_000, 5, &mut out, &VttConfig::default());
    assert_eq!((next, offset), (5, 7_000));
    assert_eq!(out, "kept");
}

#[test]
fn negative_times_are_written_as_zero() {
    let segs = vec![seg(1, 1_000, 2_000, "a")];
    let mut out = String::new();
    let (_, offset) = write_segments_to_vtt(&segs, -1_500, 1, &mut out, &VttConfig::default());
    assert_eq!(out, "1\n00:00:00.000 --> 00:00:00.500\na\n\n");
    assert_eq!(offset, 500);
}

#[test]
fn document_from_segments() {
    let segs = vec![seg(1, 0, 2_000, "Hello world"), seg(2, 2_000, 4_000, "This is <b>a</b> test")];
    let text = build_vtt_string(&segs, true, true).unwrap();
    assert_eq!(
        text,
        "WEBVTT\n\n1\n00:00:00.000 --> 00:00:02.000\nHello world\n\n2\n00:00:02.000 --> 00:00:04.000\nThis is &lt;b&gt;a&lt;/b&gt; test\n\n"
    );
    assert!(validate_vtt(&text).is_ok());
    let text = build_vtt_string(&segs, false, true).unwrap();
    assert!(text.ends_with("This is <b>a</b> test\n\n"));
    assert_eq!(build_vtt_string(&Vec::new(), true, true).unwrap(), "WEBVTT\n\n");
}

#[test]
fn document_validation_can_be_switched_off() {
    let segs = vec![seg(1, 0, 2_000, "a --> b")];
    let e = build_vtt_string(&segs, true, true).unwrap_err();
    assert_eq!(e.kind, ErrorKind::Cue);
    let text = build_vtt_string(&segs, true, false).unwrap();
    assert_eq!(text, "WEBVTT\n\n1\n00:00:00.000 --> 00:00:02.000\na --&gt; b\n\n");
    let segs = vec![seg(1, 0, 2_000, "fine"), seg(2, 5_000, 2_000, "b")];
    let e = build_vtt_string(&segs, true, true).unwrap_err();
    assert_eq!(e.kind, ErrorKind::Timestamp);
    assert_eq!(e.message, "Segment 2: end time (2000 ms) must be >= start time (5000 ms)");
}

#[test]
fn note_and_style_blocks() {
    let mut out = String::new();
    write_note_block("first\r\nsecond\n", &mut out);
    assert_eq!(out, "NOTE\nfirst\nsecond\n\n");
    let mut out = String::new();
    write_style_block("::cue {\n  color: red;\n}", &mut out);
    assert_eq!(out, "STYLE\n::cue {\n  color: red;\n}\n\n");
    let mut out = String::new();
    write_note_block("", &mut out);
    assert_eq!(out, "NOTE\n\n");
    let mut out = String::new();
    write_note_block("a\n\nb\r", &mut out);
    assert_eq!(out, "NOTE\na\n\nb\r\n\n");
}

#[test]
fn transcript_of_several_sources() {
    let parts = vec!["  one  ".to_string(), "two\n".to_string(), "three".to_string()];
    assert_eq!(build_transcript(&parts), "one\n\ntwo\n\nthree\n");
    assert_eq!(build_transcript(&vec!["solo ".to_string()]), "solo\n");
    assert_eq!(build_transcript(&Vec::new()), "");
}

#[test]
fn transcript_part_by_part() {
    assert_eq!(transcript_part("  one \n", false), "one\n\n");
    assert_eq!(transcript_part("  one \n", true), "one\n");
    assert_eq!(transcript_part("", false), "\n\n");
    assert_eq!(transcript_part(" \t", true), "\n");
    let parts = vec!["a ".to_string(), " b".to_string(), "c".to_string()];
    let mut written = String::new();
    for (i, p) in parts.iter().enumerate() {
        written.push_str(&transcript_part(p, i + 1 == parts.len()));
    }
    assert_eq!(written, build_transcript(&parts));
}
