use vtt_builder::error::ErrorKind;
use vtt_builder::validator::{
    check_lines, is_settled, is_valid_timing, validate_vtt, validate_vtt_lines, FileFault,
};

fn lines(text: &[&str]) -> Vec<Vec<char>> {
    text.iter().map(|l| l.chars().collect()).collect()
}

#[test]
fn header_without_separator_fails() {
    let e = validate_vtt("WEBVTTx\n\n").unwrap_err();
    assert_eq!(e.kind, ErrorKind::Header);
    assert_eq!(e.message, "Missing or incorrect WEBVTT header. Got: 'WEBVTTx'");
}

#[test]
fn header_only_file_is_valid() {
    assert!(validate_vtt("WEBVTT").is_ok());
    assert!(validate_vtt("WEBVTT\n").is_ok());
    assert!(validate_vtt("WEBVTT\nKind: captions").is_ok());
    assert!(validate_vtt("WEBVTT\n\n").is_ok());
}

#[test]
fn hyphen_after_signature_fails() {
    let e = validate_vtt("WEBVTT-WRONG\n\n").unwrap_err();
    assert_eq!(e.kind, ErrorKind::Header);
    assert_eq!(e.message, "Missing or incorrect WEBVTT header. Got: 'WEBVTT-WRONG'");
}

#[test]
fn header_with_text_or_mark_is_valid() {
    assert!(validate_vtt("WEBVTT - Some title\n\n").is_ok());
    assert!(validate_vtt("WEBVTT\tTitle\n\n").is_ok());
    assert!(validate_vtt("\u{FEFF}WEBVTT\n\n").is_ok());
    assert!(validate_vtt("WEBVTT   \n\n").is_ok());
    assert!(validate_vtt("WEBVTT\r\n\r\n").is_ok());
}

#[test]
fn second_mark_is_not_stripped() {
    let e = validate_vtt("\u{FEFF}\u{FEFF}WEBVTT\n").unwrap_err();
    assert_eq!(e.kind, ErrorKind::Header);
}

#[test]
fn empty_file_is_a_header_error() {
    let e = validate_vtt("").unwrap_err();
    assert_eq!(e.kind, ErrorKind::Header);
    assert_eq!(e.message, "Empty file");
    let e = validate_vtt("\nWEBVTT\n").unwrap_err();
    assert_eq!(e.kind, ErrorKind::Header);
    assert_eq!(e.message, "Missing or incorrect WEBVTT header. Got: ''");
}

#[test]
fn file_with_cues_is_valid() {
    let text = "WEBVTT\nKind: captions\n\n1\n00:00:00.000 --> 00:00:02.000\nHello\n\n00:02.000 --> 00:04.000 position:50%\nWorld\nsecond line\n\n";
    assert!(validate_vtt(text).is_ok());
    let text = "WEBVTT\n\n\n\nid\n00:00:00.000 --> 00:00:02.000\nHello";
    assert!(validate_vtt(text).is_ok());
}

#[test]
fn blocks_are_skipped() {
    let text = "WEBVTT\n\nNOTE this --> is not a cue\nnor this\n\nSTYLE\n::cue { color: red }\n\nREGION\nid:x\n\n1\n00:00.000 --> 00:01.000\ntext\n";
    assert!(validate_vtt(text).is_ok());
    assert!(validate_vtt("WEBVTT\n\nNOTE").is_ok());
    assert!(validate_vtt("WEBVTT\n\nNOTES are blocks too\nbody").is_ok());
}

#[test]
fn identifier_without_timing_line_fails() {
    let e = validate_vtt("WEBVTT\n\nintro").unwrap_err();
    assert_eq!(e.kind, ErrorKind::Cue);
    assert_eq!(e.message, "Expected timing line after cue identifier 'intro'");
    assert_eq!(
        check_lines(&lines(&["WEBVTT", "", "intro"])),
        Some(FileFault::MissingTimingLine { identifier: 2 })
    );
}

#[test]
fn identifier_with_bad_timing_line_fails() {
    let e = validate_vtt("WEBVTT\n\n 1 \n  not a timing line \ntext\n").unwrap_err();
    assert_eq!(e.kind, ErrorKind::Timestamp);
    assert_eq!(e.message, "Invalid timing line after cue identifier '1': 'not a timing line'");
    assert_eq!(
        check_lines(&lines(&["WEBVTT", "", "1", "", "text"])),
        Some(FileFault::InvalidTimingAfterIdentifier { identifier: 2 })
    );
}

#[test]
fn bad_timing_line_fails() {
    let e = validate_vtt("WEBVTT\n\n00:00:00 --> 00:00:02.000\ntext\n").unwrap_err();
    assert_eq!(e.kind, ErrorKind::Timestamp);
    assert_eq!(e.message, "Invalid timing line: '00:00:00 --> 00:00:02.000'");
    assert_eq!(
        check_lines(&lines(&["WEBVTT", "x", "", "", "00:00.000 --> 00:61.000", "t"])),
        Some(FileFault::InvalidTimingLine { line: 4 })
    );
}

#[test]
fn cue_without_text_fails() {
    let e = validate_vtt("WEBVTT\n\n00:00:00.000 --> 00:00:02.000\n\n").unwrap_err();
    assert_eq!(e.kind, ErrorKind::Cue);
    assert_eq!(e.message, "Cue missing text content");
    let e = validate_vtt("WEBVTT\n\n1\n00:00:00.000 --> 00:00:02.000").unwrap_err();
    assert_eq!(e.kind, ErrorKind::Cue);
    assert_eq!(
        check_lines(&lines(&["WEBVTT", "", "00:00.000 --> 00:01.000", "  "])),
        Some(FileFault::MissingText { timing: 2 })
    );
    assert_eq!(
        check_lines(&lines(&["WEBVTT", "", "id", "00:00.000 --> 00:01.000"])),
        Some(FileFault::MissingText { timing: 3 })
    );
}

#[test]
fn first_fault_stops_the_scan() {
    let text = "WEBVTT\n\n1\n00:00.000 --> 00:01.000\nok\n\n2\nbad\ntext\n\n00:00 --> x\n";
    let e = validate_vtt(text).unwrap_err();
    assert_eq!(e.message, "Invalid timing line after cue identifier '2': 'bad'");
}

#[test]
fn lines_without_files() {
    assert_eq!(check_lines(&Vec::new()), Some(FileFault::EmptyFile));
    assert_eq!(check_lines(&lines(&["WEBVT"])), Some(FileFault::BadHeader));
    assert_eq!(check_lines(&lines(&["WEBVTT"])), None);
    assert_eq!(check_lines(&lines(&["WEBVTT", "a", "b", "", "", "1", "00:00.000 --> 00:01.000", "t", "u", "", ""])), None);
}

#[test]
fn timing_line_grammar() {
    assert!(is_valid_timing("00:00:00.000 --> 00:00:05.000"));
    assert!(is_valid_timing("00:00.000 --> 00:05.000"));
    assert!(is_valid_timing("00:00.000-->00:05.000"));
    assert!(is_valid_timing("  00:00.000   -->   00:05.000   align:start line:0  "));
    assert!(is_valid_timing("00:00.000 --> 00:05.000 anything at all"));
    assert!(!is_valid_timing("00:00.000 --> 00:05.000 --> 00:06.000"));
    assert!(!is_valid_timing("00:00.000 -> 00:05.000"));
    assert!(!is_valid_timing("00:00.000 x --> 00:05.000"));
    assert!(!is_valid_timing("00:00.000 --> "));
    assert!(!is_valid_timing("--> 00:05.000"));
    assert!(!is_valid_timing("-->"));
    assert!(!is_valid_timing(""));
    assert!(!is_valid_timing("00:00.000 --> 00:05.000x"));
    assert!(!is_valid_timing("00:00.000 --> 00:05.000 -->"));
}

fn strings(text: &[&str]) -> Vec<String> {
    text.iter().map(|l| l.to_string()).collect()
}

#[test]
fn white_space_before_the_signature_fails() {
    for text in [" WEBVTT\n\n", "\tWEBVTT\n\n", "\u{00A0}WEBVTT", "\u{FEFF} WEBVTT\n", " \u{FEFF}WEBVTT\n"] {
        let e = validate_vtt(text).unwrap_err();
        assert_eq!(e.kind, ErrorKind::Header, "{:?}", text);
    }
    let e = validate_vtt("  WEBVTT \n\n").unwrap_err();
    assert_eq!(e.message, "Missing or incorrect WEBVTT header. Got: '  WEBVTT '");
    let e = validate_vtt("\u{FEFF} WEBVTT\n").unwrap_err();
    assert_eq!(e.message, "Missing or incorrect WEBVTT header. Got: ' WEBVTT'");
}

#[test]
fn other_white_space_after_the_signature_fails() {
    for text in ["WEBVTT\u{00A0}\n\n", "WEBVTT\u{00A0}title\n", "WEBVTT\u{3000}", "WEBVTT\u{000B}x", "WEBVTT\r \n"] {
        let e = validate_vtt(text).unwrap_err();
        assert_eq!(e.kind, ErrorKind::Header, "{:?}", text);
    }
    assert!(validate_vtt("WEBVTT \u{00A0}\n").is_ok());
    assert!(validate_vtt("WEBVTT\t\n").is_ok());
    assert!(validate_vtt("WEBVTT \n").is_ok());
}

#[test]
fn lines_of_a_whole_file() {
    assert!(validate_vtt_lines(&strings(&["WEBVTT", "", "1", "00:00.000 --> 00:01.000", "text"]), true).is_ok());
    let e = validate_vtt_lines(&Vec::new(), true).unwrap_err();
    assert_eq!(e.message, "Empty file");
    let e = validate_vtt_lines(&strings(&["WEBVTT", "", "1"]), true).unwrap_err();
    assert_eq!(e.message, "Expected timing line after cue identifier '1'");
    let e = validate_vtt_lines(&strings(&["WEBVTT", "", "00:00.000 --> 00:01.000"]), true).unwrap_err();
    assert_eq!(e.message, "Cue missing text content");
    let e = validate_vtt_lines(&strings(&["WEBVTT\r", ""]), true).unwrap_err();
    assert_eq!(e.kind, ErrorKind::Header);
}

#[test]
fn lines_read_so_far() {
    assert!(validate_vtt_lines(&Vec::new(), false).is_ok());
    assert!(validate_vtt_lines(&strings(&["WEBVTT", "", "1"]), false).is_ok());
    assert!(validate_vtt_lines(&strings(&["WEBVTT", "", "00:00.000 --> 00:01.000"]), false).is_ok());
    assert!(validate_vtt_lines(&strings(&["WEBVTT", "", "1", "00:00.000 --> 00:01.000"]), false).is_ok());
    assert!(validate_vtt_lines(&strings(&["WEBVTT", "", "NOTE", "x"]), false).is_ok());
    let e = validate_vtt_lines(&strings(&["WEBVTTx"]), false).unwrap_err();
    assert_eq!(e.kind, ErrorKind::Header);
    let e = validate_vtt_lines(&strings(&["WEBVTT", "", "1", "bad"]), false).unwrap_err();
    assert_eq!(e.message, "Invalid timing line after cue identifier '1': 'bad'");
    let e = validate_vtt_lines(&strings(&["WEBVTT", "", "0 --> 1"]), false).unwrap_err();
    assert_eq!(e.message, "Invalid timing line: '0 --> 1'");
    let e = validate_vtt_lines(&strings(&["WEBVTT", "", "00:00.000 --> 00:01.000", " "]), false).unwrap_err();
    assert_eq!(e.message, "Cue missing text content");
}

#[test]
fn settled_faults_stay_when_lines_follow() {
    let cases: Vec<Vec<&str>> = vec![
        vec!["WEBVTTx"],
        vec!["WEBVTT", "", "1", "bad"],
        vec!["WEBVTT", "", "0 --> 1"],
        vec!["WEBVTT", "", "00:00.000 --> 00:01.000", " "],
        vec!["WEBVTT", "", "1"],
        vec!["WEBVTT", "", "00:00.000 --> 00:01.000"],
    ];
    let more = ["00:00.000 --> 00:01.000", "text", "", "end"];
    for case in cases {
        let fault = check_lines(&lines(&case)).unwrap();
        let mut longer = case.clone();
        longer.extend_from_slice(&more);
        if is_settled(case.len(), fault) {
            assert_eq!(check_lines(&lines(&longer)), Some(fault), "{:?}", case);
        } else {
            assert_ne!(check_lines(&lines(&longer)), Some(fault), "{:?}", case);
        }
    }
    assert!(!is_settled(0, FileFault::EmptyFile));
    assert!(!is_settled(5, FileFault::MissingTimingLine { identifier: 4 }));
    assert!(is_settled(5, FileFault::MissingText { timing: 3 }));
    assert!(!is_settled(5, FileFault::MissingText { timing: 4 }));
    assert!(!is_settled(5, FileFault::MissingText { timing: usize::MAX }));
}
