use vtt_builder::error::ErrorKind;
use vtt_builder::segment::Segment;
use vtt_builder::split::{split_in_range, split_long_segments};
use vtt_builder::stats::{get_segments_stats, stats_in_range};
use vtt_builder::transform::{
    filter_indices_by_time, filter_segments_by_time, merge_segments, shift_in_range,
    shift_timestamps,
};
use vtt_builder::writer::times_fit;

fn seg(id: u32, start_ms: i64, end_ms: i64, text: &str) -> Segment {
    Segment::new(id, start_ms, end_ms, text)
}

#[test]
fn merge_within_threshold() {
    let out = merge_segments(&vec![seg(1, 0, 2_000, "a"), seg(2, 2_300, 4_000, "b")], 500);
    assert_eq!(out, vec![seg(1, 0, 4_000, "a b")]);
}

#[test]
fn merge_beyond_threshold() {
    let out = merge_segments(&vec![seg(5, 0, 2_000, "a"), seg(9, 2_300, 4_000, "b")], 100);
    assert_eq!(out, vec![seg(1, 0, 2_000, "a"), seg(2, 2_300, 4_000, "b")]);
}

#[test]
fn merge_gap_equal_to_threshold_merges() {
    let out = merge_segments(&vec![seg(1, 0, 2_000, "a"), seg(2, 2_500, 4_000, "b")], 500);
    assert_eq!(out.len(), 1);
    let out = merge_segments(&vec![seg(1, 0, 2_000, "a"), seg(2, 2_501, 4_000, "b")], 500);
    assert_eq!(out.len(), 2);
}

#[test]
fn merge_runs_and_renumbers() {
    let input = vec![
        seg(7, 0, 1_000, " one "),
        seg(8, 1_100, 2_000, "two"),
        seg(9, 2_050, 3_000, "three "),
        seg(10, 9_000, 9_500, "four"),
        seg(11, 9_500, 9_900, "five"),
        seg(12, 20_000, 21_000, "six"),
    ];
    let out = merge_segments(&input, 200);
    assert_eq!(
        out,
        vec![seg(1, 0, 3_000, "one two three"), seg(2, 9_000, 9_900, "four five"), seg(3, 20_000, 21_000, "six")]
    );
}

#[test]
fn merge_joins_texts_with_single_spaces() {
    let out = merge_segments(&vec![seg(1, 0, 1, " a "), seg(2, 1, 2, "  "), seg(3, 2, 3, "b\n")], 0);
    assert_eq!(out, vec![seg(1, 0, 3, "a  b")]);
    let out = merge_segments(&vec![seg(1, 0, 1, "a"), seg(2, 1, 2, "")], 0);
    assert_eq!(out, vec![seg(1, 0, 2, "a ")]);
    let out = merge_segments(&vec![seg(1, 0, 1, ""), seg(2, 1, 2, "b"), seg(3, 2, 3, "c d")], 0);
    assert_eq!(out, vec![seg(1, 0, 3, " b c d")]);
}

#[test]
fn merge_empty_and_single() {
    assert_eq!(merge_segments(&Vec::new(), 500), Vec::new());
    assert_eq!(merge_segments(&vec![seg(4, 1, 2, " x ")], 500), vec![seg(1, 1, 2, "x")]);
}

#[test]
fn merge_keeps_the_first_speaker() {
    let mut a = seg(1, 0, 1_000, "a");
    a.speaker = Some("Ann".to_string());
    a.confidence = Some(900);
    let mut b = seg(2, 1_000, 2_000, "b");
    b.speaker = Some("Bob".to_string());
    let out = merge_segments(&vec![a, b], 0);
    assert_eq!(out.len(), 1);
    assert_eq!(out[0].speaker.as_deref(), Some("Ann"));
    assert_eq!(out[0].confidence, Some(900));
    assert_eq!(out[0].text, "a b");
}

#[test]
fn merge_overlapping_and_extreme_times() {
    let out = merge_segments(&vec![seg(1, 0, 5_000, "a"), seg(2, 1_000, 2_000, "b")], 0);
    assert_eq!(out, vec![seg(1, 0, 2_000, "a b")]);
    let out = merge_segments(&vec![seg(1, 0, i64::MIN, "a"), seg(2, i64::MAX, 0, "b")], i64::MAX);
    assert_eq!(out.len(), 2);
}

#[test]
fn shift_moves_both_times() {
    let out = shift_timestamps(&vec![seg(3, 1_000, 2_000, " a "), seg(4, 2_000, 3_000, "b")], 500).unwrap();
    assert_eq!(out, vec![seg(3, 1_500, 2_500, "a"), seg(4, 2_500, 3_500, "b")]);
    let out = shift_timestamps(&vec![seg(3, 1_000, 2_000, "a")], -1_000).unwrap();
    assert_eq!(out, vec![seg(3, 0, 1_000, "a")]);
    assert_eq!(shift_timestamps(&Vec::new(), -5).unwrap(), Vec::new());
}

#[test]
fn shift_below_zero_fails() {
    let e = shift_timestamps(&vec![seg(1, 5_000, 6_000, "a"), seg(2, 1_000, 2_000, "b"), seg(3, 0, 1, "c")], -1_001)
        .unwrap_err();
    assert_eq!(e.kind, ErrorKind::Timestamp);
    assert_eq!(e.message, "Segment 2: shifting by -1001 ms would result in negative timestamp");
    let e = shift_timestamps(&vec![seg(8, 0, -7, "a")], 5).unwrap_err();
    assert_eq!(e.message, "Segment 8: shifting by 5 ms would result in negative timestamp");
    let e = shift_timestamps(&vec![seg(8, 0, 0, "a")], i64::MIN).unwrap_err();
    assert_eq!(e.message, "Segment 8: shifting by -9223372036854775808 ms would result in negative timestamp");
}

#[test]
fn filter_keeps_overlapping_segments() {
    let input = vec![
        seg(1, 0, 1_000, "a"),
        seg(2, 1_000, 2_000, " b "),
        seg(3, 2_500, 3_000, "c"),
        seg(4, 4_000, 5_000, "d"),
        seg(5, 5_001, 6_000, "e"),
    ];
    let out = filter_segments_by_time(&input, 2_000, 4_000);
    assert_eq!(out, vec![seg(2, 1_000, 2_000, "b"), seg(3, 2_500, 3_000, "c"), seg(4, 4_000, 5_000, "d")]);
    assert_eq!(filter_segments_by_time(&input, 10_000, 20_000), Vec::new());
    assert_eq!(filter_segments_by_time(&input, 3_000, 2_000), Vec::new());
    assert_eq!(filter_segments_by_time(&input, 500, 500), vec![seg(1, 0, 1_000, "a")]);
}

#[test]
fn split_short_segments_pass() {
    let out = split_long_segments(&vec![seg(9, 0, 1_000, "  short  "), seg(3, 1_000, 2_000, "0123456789")], 10);
    assert_eq!(out, vec![seg(1, 0, 1_000, "short"), seg(2, 1_000, 2_000, "0123456789")]);
    assert_eq!(split_long_segments(&Vec::new(), 10), Vec::new());
}

#[test]
fn split_twenty_words() {
    let text = "word ".repeat(20);
    let out = split_long_segments(&vec![seg(1, 0, 10_000, &text)], 10);
    assert_eq!(out.len(), 10);
    let mut at = 0;
    let mut sum = 0;
    for (i, c) in out.iter().enumerate() {
        assert_eq!(c.id as usize, i + 1);
        assert_eq!(c.text, "word word");
        assert_eq!(c.start_ms, at);
        assert!(c.end_ms >= c.start_ms);
        sum += c.end_ms - c.start_ms;
        at = c.end_ms;
    }
    assert_eq!(sum, 10_000);
    assert_eq!(out[9].end_ms, 10_000);
    assert_eq!(out[0].end_ms, 909);
    assert_eq!(out[8].end_ms, 8_181);
}

#[test]
fn split_exact_times() {
    let out = split_long_segments(&vec![seg(1, 1_000, 5_000, "aaaa bbbb cccc dddd")], 9);
    assert_eq!(
        out,
        vec![seg(1, 1_000, 2_894, "aaaa bbbb"), seg(2, 2_894, 5_000, "cccc dddd")]
    );
    let out = split_long_segments(&vec![seg(1, 0, 1_900, "aaaa  bbbb\ncccc   dddd")], 4);
    assert_eq!(
        out,
        vec![seg(1, 0, 345, "aaaa"), seg(2, 345, 690, "bbbb"), seg(3, 690, 1_035, "cccc"), seg(4, 1_035, 1_900, "dddd")]
    );
}

#[test]
fn split_keeps_a_long_word_whole() {
    let out = split_long_segments(&vec![seg(1, 0, 3_000, "a incomprehensibilities b")], 5);
    assert_eq!(
        out.iter().map(|s| s.text.as_str()).collect::<Vec<_>>(),
        vec!["a", "incomprehensibilities", "b"]
    );
    assert_eq!(out[2].end_ms, 3_000);
    let out = split_long_segments(&vec![seg(1, 0, 3_000, "abcdef")], 0);
    assert_eq!(out, vec![seg(1, 0, 3_000, "abcdef")]);
}

#[test]
fn split_numbers_across_segments_and_keeps_speaker() {
    let mut long = seg(7, 0, 2_000, "one two three four");
    long.speaker = Some("Ann".to_string());
    long.confidence = Some(500);
    let out = split_long_segments(&vec![seg(5, 0, 1, "x"), long, seg(6, 3, 4, "y")], 9);
    assert_eq!(out.iter().map(|s| s.id).collect::<Vec<_>>(), vec![1, 2, 3, 4, 5]);
    assert_eq!(out[1].text, "one two");
    assert_eq!(out[2].text, "three");
    assert_eq!(out[3].text, "four");
    assert_eq!(out[4].text, "y");
    assert_eq!(out[1].speaker.as_deref(), Some("Ann"));
    assert_eq!(out[2].confidence, Some(500));
    assert_eq!(out[3].end_ms, 2_000);
    assert_eq!(out[4].speaker, None);
}

#[test]
fn split_backward_segment() {
    let out = split_long_segments(&vec![seg(1, 1_000, 0, "aaaa bbbb")], 4);
    assert_eq!(out, vec![seg(1, 1_000, 556, "aaaa"), seg(2, 556, 0, "bbbb")]);
}

#[test]
fn stats_of_segments() {
    let s = get_segments_stats(&vec![
        seg(1, 0, 2_000, "hello world"),
        seg(2, 2_000, 5_000, "  one two  three "),
        seg(3, 5_000, 6_000, "x"),
    ]);
    assert_eq!(s.num_segments, 3);
    assert_eq!(s.total_duration_ms, 6_000);
    assert_eq!(s.avg_duration_ms, 2_000);
    assert_eq!(s.total_words, 6);
    assert_eq!(s.total_chars, 11 + 14 + 1);
    assert_eq!(s.avg_words_per_segment_milli, 2_000);
    assert_eq!(s.avg_chars_per_segment_milli, 8_666);
    assert_eq!(s.words_per_second_milli, 1_000);
}

#[test]
fn stats_of_nothing_are_zero() {
    let s = get_segments_stats(&Vec::new());
    assert_eq!(s.num_segments, 0);
    assert_eq!(s.total_duration_ms, 0);
    assert_eq!(s.avg_duration_ms, 0);
    assert_eq!(s.total_words, 0);
    assert_eq!(s.total_chars, 0);
    assert_eq!(s.avg_words_per_segment_milli, 0);
    assert_eq!(s.avg_chars_per_segment_milli, 0);
    assert_eq!(s.words_per_second_milli, 0);
}

#[test]
fn stats_without_duration_have_no_rate() {
    let s = get_segments_stats(&vec![seg(1, 1_000, 1_000, "a b"), seg(2, 3_000, 2_000, "c")]);
    assert_eq!(s.total_duration_ms, -1_000);
    assert_eq!(s.avg_duration_ms, -500);
    assert_eq!(s.words_per_second_milli, 0);
    assert_eq!(s.avg_words_per_segment_milli, 1_500);
    let s = get_segments_stats(&vec![seg(1, 0, 0, "a b"), seg(2, 0, 0, ""), seg(3, 1, 0, "")]);
    assert_eq!(s.avg_duration_ms, 0);
    assert_eq!(s.avg_words_per_segment_milli, 666);
    let s = get_segments_stats(&vec![seg(1, 0, 1_500, "a b c")]);
    assert_eq!(s.words_per_second_milli, 2_000);
}

#[test]
fn range_of_shifted_times() {
    let segs = vec![seg(1, 0, 10, "a"), seg(2, i64::MAX - 5, i64::MAX - 5, "b")];
    assert!(shift_in_range(&segs, 5));
    assert!(!shift_in_range(&segs, 6));
    assert!(shift_in_range(&segs, i64::MIN));
    assert!(times_fit(&segs, 5));
    assert!(!times_fit(&segs, 6));
    assert!(times_fit(&segs, -1));
    assert!(times_fit(&vec![seg(1, 0, i64::MAX, "a")], 0));
    assert!(times_fit(&vec![seg(1, i64::MIN, -1, "a")], 0));
    assert!(!times_fit(&vec![seg(1, i64::MIN, -1, "a")], -1));
    assert!(times_fit(&Vec::new(), i64::MAX));
    assert!(shift_in_range(&Vec::new(), i64::MAX));
}

#[test]
fn range_of_statistics() {
    assert!(stats_in_range(&Vec::new()));
    assert!(stats_in_range(&vec![seg(1, 0, i64::MAX, "a b c")]));
    assert!(!stats_in_range(&vec![seg(1, 0, i64::MAX, "a"), seg(2, 0, 1, "b")]));
    assert!(stats_in_range(&vec![seg(1, 0, i64::MAX, "a"), seg(2, 1, 0, "b")]));
    assert!(stats_in_range(&vec![seg(1, 0, i64::MIN, "a")]));
    assert!(!stats_in_range(&vec![seg(1, 1, i64::MIN, "a")]));
    assert!(stats_in_range(&vec![seg(1, i64::MAX, i64::MIN, "a"), seg(2, i64::MIN, i64::MAX, "b")]));
    let s = get_segments_stats(&vec![seg(1, i64::MAX, i64::MIN, "a"), seg(2, i64::MIN, i64::MAX, "b")]);
    assert_eq!(s.total_duration_ms, 0);
    let s = get_segments_stats(&vec![seg(1, 0, i64::MIN, "a")]);
    assert_eq!(s.total_duration_ms, i64::MIN);
    assert_eq!(s.avg_duration_ms, i64::MIN);
}

#[test]
fn range_of_splitting() {
    assert!(split_in_range(&Vec::new()));
    assert!(split_in_range(&vec![seg(1, 0, 1, "some text"), seg(2, 0, 1, "")]));
}

#[test]
fn filter_gives_the_indices_of_what_it_keeps() {
    let input = vec![
        seg(9, 0, 1_000, "a"),
        seg(9, 1_000, 2_000, " b "),
        seg(9, 2_500, 3_000, "c"),
        seg(9, 4_000, 5_000, "d"),
        seg(9, 5_001, 6_000, "e"),
    ];
    assert_eq!(filter_indices_by_time(&input, 2_000, 4_000), vec![1, 2, 3]);
    assert_eq!(filter_indices_by_time(&input, 10_000, 20_000), Vec::<usize>::new());
    assert_eq!(filter_indices_by_time(&input, i64::MIN, i64::MAX), vec![0, 1, 2, 3, 4]);
    assert_eq!(filter_indices_by_time(&Vec::new(), 0, 1), Vec::<usize>::new());
    for (a, b) in [(0, 0), (500, 2_400), (3_001, 3_999), (6_000, 6_000), (5_000, 5_000)] {
        let kept = filter_segments_by_time(&input, a, b);
        let indices = filter_indices_by_time(&input, a, b);
        assert_eq!(kept.len(), indices.len());
        for (k, i) in kept.iter().zip(indices.iter()) {
            assert_eq!(k.start_ms, input[*i].start_ms);
            assert_eq!(k.end_ms, input[*i].end_ms);
            assert_eq!(k.text, input[*i].text.trim());
        }
    }
}
