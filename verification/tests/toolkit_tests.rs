use vtt_builder::aggregate::{words_to_segments, Word};
use vtt_builder::chapters::{detect_chapters, Chapter};
use vtt_builder::confidence::{filter_by_confidence, ConfidenceMode};
use vtt_builder::fillers::{default_fillers, remove_filler_words};
use vtt_builder::repeats::remove_repeated_phrases;
use vtt_builder::segment::Segment;
use vtt_builder::speakers::group_by_speaker;

fn seg(id: u32, start_ms: i64, end_ms: i64, text: &str) -> Segment {
    Segment::new(id, start_ms, end_ms, text)
}

fn said(id: u32, start_ms: i64, end_ms: i64, text: &str, speaker: &str) -> Segment {
    let mut s = Segment::new(id, start_ms, end_ms, text);
    s.speaker = Some(speaker.to_string());
    s
}

fn sure(id: u32, text: &str, confidence: Option<u16>) -> Segment {
    let mut s = Segment::new(id, 0, 1_000, text);
    s.confidence = confidence;
    s
}

fn word(text: &str, start_ms: i64, end_ms: i64) -> Word {
    Word { text: text.to_string(), start_ms, end_ms }
}

fn texts(v: &[Segment]) -> Vec<&str> {
    v.iter().map(|s| s.text.as_str()).collect()
}

#[test]
fn default_filler_list() {
    assert_eq!(
        default_fillers(),
        vec![
            "um", "uh", "er", "ah", "like", "you know", "i mean", "sort of", "kind of", "basically",
            "actually", "literally"
        ]
    );
}

#[test]
fn fillers_are_removed_as_whole_words() {
    let input = vec![seg(1, 0, 1_000, "Um, I think, uh, this is like really good you know")];
    let out = remove_filler_words(&input, &None, true);
    assert_eq!(out, vec![seg(1, 0, 1_000, ", I think, , this is really good")]);
    let input = vec![seg(1, 0, 1_000, "umbrella likes summer UM Like dislike")];
    let out = remove_filler_words(&input, &None, true);
    assert_eq!(texts(&out), vec!["umbrella likes summer dislike"]);
}

#[test]
fn fillers_of_the_caller_replace_the_default_ones() {
    let list = Some(vec!["well".to_string(), "you see".to_string(), "".to_string()]);
    let input = vec![seg(4, 0, 1, "Well  you SEE um it is well-known, you see_them")];
    let out = remove_filler_words(&input, &list, true);
    assert_eq!(texts(&out), vec!["um it is -known, you see_them"]);
    let out = remove_filler_words(&input, &Some(Vec::new()), true);
    assert_eq!(texts(&out), vec!["Well you SEE um it is well-known, you see_them"]);
}

#[test]
fn fillers_go_one_after_the_other() {
    let list = Some(vec!["b".to_string(), "a c".to_string()]);
    let out = remove_filler_words(&vec![seg(1, 0, 1, "a b c")], &list, true);
    assert_eq!(texts(&out), vec!["a c"]);
    let list = Some(vec!["a c".to_string(), "b".to_string()]);
    let out = remove_filler_words(&vec![seg(1, 0, 1, "a b c a c")], &list, true);
    assert_eq!(texts(&out), vec!["a c"]);
}

#[test]
fn empty_segments_are_dropped_without_preserved_timing() {
    let input = vec![seg(5, 0, 1_000, "um uh"), seg(6, 1_000, 2_000, "hello um"), seg(7, 2_000, 3_000, "Like"), seg(8, 3_000, 4_000, "bye")];
    let out = remove_filler_words(&input, &None, false);
    assert_eq!(out, vec![seg(1, 1_000, 2_000, "hello"), seg(2, 3_000, 4_000, "bye")]);
    let out = remove_filler_words(&input, &None, true);
    assert_eq!(
        out,
        vec![seg(5, 0, 1_000, ""), seg(6, 1_000, 2_000, "hello"), seg(7, 2_000, 3_000, ""), seg(8, 3_000, 4_000, "bye")]
    );
    assert_eq!(remove_filler_words(&Vec::new(), &None, false), Vec::new());
}

#[test]
fn speakers_are_grouped() {
    let input = vec![
        said(1, 0, 1_000, " Hello ", "Ann"),
        said(2, 1_200, 2_000, "there", "Ann"),
        said(3, 2_100, 3_000, "Hi", "Bob"),
        said(4, 9_000, 9_500, "again", "Bob"),
        seg(5, 9_600, 9_900, "who"),
        seg(6, 9_900, 10_000, "knows"),
    ];
    let out = group_by_speaker(&input, 500, false);
    assert_eq!(
        out,
        vec![
            said(1, 0, 2_000, "Hello there", "Ann"),
            said(2, 2_100, 3_000, "Hi", "Bob"),
            said(3, 9_000, 9_500, "again", "Bob"),
            said(4, 9_600, 10_000, "who knows", "Unknown"),
        ]
    );
}

#[test]
fn speakers_are_tagged() {
    let input = vec![said(1, 0, 1_000, "Hello", "Ann"), said(2, 1_000, 2_000, "there", "Ann"), seg(3, 2_000, 3_000, "x")];
    let out = group_by_speaker(&input, 0, true);
    assert_eq!(
        out,
        vec![said(1, 0, 2_000, "<v Ann>Hello there", "Ann"), said(2, 2_000, 3_000, "<v Unknown>x", "Unknown")]
    );
    assert_eq!(group_by_speaker(&Vec::new(), 0, true), Vec::new());
}

#[test]
fn speaker_change_is_never_merged() {
    let mut input = Vec::new();
    for i in 0..10u32 {
        let who = if i % 2 == 0 { "Ann" } else { "Bob" };
        input.push(said(i + 50, (i as i64) * 1_000, (i as i64 + 1) * 1_000, "word", who));
    }
    let out = group_by_speaker(&input, 5_000, false);
    assert_eq!(out.len(), 10);
    for (i, g) in out.iter().enumerate() {
        assert_eq!(g.id as usize, i + 1);
        assert_eq!(g.start_ms, input[i].start_ms);
        assert_eq!(g.end_ms, input[i].end_ms);
        assert_eq!(g.speaker, input[i].speaker);
        assert_eq!(g.text, "word");
    }
    let out = group_by_speaker(&input, i64::MAX, true);
    assert_eq!(out.len(), 10);
    assert_eq!(out[1].text, "<v Bob>word");
}

#[test]
fn unknown_speaker_is_a_speaker_like_others() {
    let input = vec![seg(1, 0, 1, "a"), said(2, 1, 2, "b", "Unknown"), said(3, 2, 3, "c", "unknown")];
    let out = group_by_speaker(&input, 0, false);
    assert_eq!(out, vec![said(1, 0, 2, "a b", "Unknown"), said(2, 2, 3, "c", "unknown")]);
}

#[test]
fn low_confidence_is_removed() {
    let input = vec![sure(7, "a", Some(900)), sure(8, "b", Some(499)), sure(9, "c", None), sure(10, "d", Some(500))];
    let out = filter_by_confidence(&input, 500, ConfidenceMode::Remove);
    assert_eq!(out.len(), 3);
    assert_eq!(out[0].segment, sure(1, "a", Some(900)));
    assert_eq!(out[1].segment, sure(2, "c", None));
    assert_eq!(out[2].segment, sure(3, "d", Some(500)));
    assert!(out.iter().all(|m| !m.low_confidence));
}

#[test]
fn low_confidence_is_marked() {
    let input = vec![sure(7, "a", Some(900)), sure(8, "b", Some(499)), sure(9, "c", None), sure(10, "d", Some(0))];
    let out = filter_by_confidence(&input, 500, ConfidenceMode::Mark);
    assert_eq!(out.len(), 4);
    for (m, s) in out.iter().zip(input.iter()) {
        assert_eq!(&m.segment, s);
    }
    assert_eq!(out.iter().map(|m| m.low_confidence).collect::<Vec<_>>(), vec![false, true, false, true]);
    let out = filter_by_confidence(&input, 1_001, ConfidenceMode::Mark);
    assert!(out.iter().all(|m| m.low_confidence));
    let out = filter_by_confidence(&input, 1_001, ConfidenceMode::Remove);
    assert!(out.is_empty());
    let out = filter_by_confidence(&input, 0, ConfidenceMode::Remove);
    assert_eq!(out.len(), 4);
}

#[test]
fn words_become_segments() {
    let words = vec![
        word("Hello", 0, 400),
        word("big", 500, 800),
        word("world.", 900, 1_300),
        word("How", 1_400, 1_600),
        word("are", 1_700, 1_900),
        word("you?", 2_000, 2_400),
    ];
    let out = words_to_segments(&words, 10_000, 1_000);
    assert_eq!(
        out,
        vec![seg(1, 0, 800, "Hello big"), seg(2, 900, 1_300, "world."), seg(3, 1_400, 1_900, "How are"), seg(4, 2_000, 2_400, "you?")]
    );
}

#[test]
fn words_break_at_pauses_and_long_runs() {
    let words = vec![
        word("a", 0, 100),
        word("b", 200, 300),
        word("c", 1_300, 1_400),
        word("d", 1_500, 1_600),
        word("e", 1_700, 6_300),
        word("f", 6_301, 6_400),
    ];
    let out = words_to_segments(&words, 5_000, 1_000);
    assert_eq!(out, vec![seg(1, 0, 300, "a b"), seg(2, 1_300, 6_300, "c d e"), seg(3, 6_301, 6_400, "f")]);
    let out = words_to_segments(&words, 4_999, 1_001);
    assert_eq!(out, vec![seg(1, 0, 1_600, "a b c d"), seg(2, 1_700, 6_400, "e f")]);
}

#[test]
fn words_edge_cases() {
    assert_eq!(words_to_segments(&Vec::new(), 5_000, 1_000), Vec::new());
    assert_eq!(words_to_segments(&vec![word("only", 5, 9)], 0, 0), vec![seg(1, 5, 9, "only")]);
    let words = vec![word("Stop!", 0, 1), word("", 1, 2), word("go", 2, 3)];
    let out = words_to_segments(&words, 5_000, 1_000);
    assert_eq!(out, vec![seg(1, 0, 1, "Stop!"), seg(2, 1, 3, " go")]);
}

#[test]
fn repeated_words_are_cut() {
    let out = remove_repeated_phrases(&vec![seg(3, 5, 9, "I I I think that that is is fine")], 2, 5);
    assert_eq!(out, vec![seg(3, 5, 9, "I think that is fine")]);
    let out = remove_repeated_phrases(&vec![seg(3, 5, 9, "no No NO way")], 3, 5);
    assert_eq!(texts(&out), vec!["no way"]);
    let out = remove_repeated_phrases(&vec![seg(3, 5, 9, "no No way")], 3, 5);
    assert_eq!(texts(&out), vec!["no No way"]);
}

#[test]
fn repeated_phrases_are_cut_longest_first() {
    let out = remove_repeated_phrases(&vec![seg(1, 0, 1, "you know you know you know what I mean")], 2, 5);
    assert_eq!(texts(&out), vec!["you know what I mean"]);
    let out = remove_repeated_phrases(&vec![seg(1, 0, 1, "a a b a a b c")], 2, 3);
    assert_eq!(texts(&out), vec!["a a b c"]);
    let out = remove_repeated_phrases(&vec![seg(1, 0, 1, "a a b a a b c")], 2, 2);
    assert_eq!(texts(&out), vec!["a b a b c"]);
    let out = remove_repeated_phrases(&vec![seg(1, 0, 1, "a b a b a")], 2, 1);
    assert_eq!(texts(&out), vec!["a b a b a"]);
}

#[test]
fn repeated_phrases_edge_cases() {
    let out = remove_repeated_phrases(&vec![seg(1, 0, 1, "  x   x  "), seg(2, 1, 2, ""), seg(3, 2, 3, "one")], 2, 4);
    assert_eq!(out, vec![seg(1, 0, 1, "x"), seg(2, 1, 2, ""), seg(3, 2, 3, "one")]);
    let out = remove_repeated_phrases(&vec![seg(1, 0, 1, "a a b b")], 2, 0);
    assert_eq!(texts(&out), vec!["a a b b"]);
    let out = remove_repeated_phrases(&vec![seg(1, 0, 1, "a a b c c")], 0, 2);
    assert_eq!(texts(&out), vec!["a a b c c"]);
    let out = remove_repeated_phrases(&vec![seg(1, 0, 1, "a a b c c")], 0, 1);
    assert_eq!(texts(&out), vec!["a b c"]);
    let out = remove_repeated_phrases(&vec![seg(1, 0, 1, "a a b c c")], 1, usize::MAX);
    assert_eq!(texts(&out), vec!["a a b c c"]);
    assert_eq!(remove_repeated_phrases(&Vec::new(), 2, 2), Vec::new());
}

#[test]
fn chapters_at_long_silences() {
    let input = vec![
        seg(1, 0, 10_000, "a"),
        seg(2, 10_500, 60_000, "b"),
        seg(3, 65_000, 70_000, "c"),
        seg(4, 75_000, 80_000, "d"),
        seg(5, 3_700_000, 3_800_000, "e"),
    ];
    let out = detect_chapters(&input, 60_000, 3_000);
    assert_eq!(
        out,
        vec![
            Chapter { number: 1, start_ms: 0, timestamp: "00:00.000".to_string() },
            Chapter { number: 2, start_ms: 65_000, timestamp: "01:05.000".to_string() },
            Chapter { number: 3, start_ms: 3_700_000, timestamp: "01:01:40.000".to_string() },
        ]
    );
}

#[test]
fn chapters_need_both_silence_and_duration() {
    let input = vec![seg(1, 1_000, 2_000, "a"), seg(2, 5_000, 6_000, "b"), seg(3, 9_000, 10_000, "c")];
    assert_eq!(detect_chapters(&input, 0, 3_000).len(), 3);
    assert_eq!(detect_chapters(&input, 0, 3_001).len(), 1);
    assert_eq!(detect_chapters(&input, 4_000, 3_000).len(), 3);
    assert_eq!(detect_chapters(&input, 4_001, 3_000).len(), 2);
    assert_eq!(detect_chapters(&input, 8_001, 3_000).len(), 1);
    assert_eq!(detect_chapters(&Vec::new(), 0, 0), Vec::new());
}

#[test]
fn one_chapter_without_silence() {
    let mut input = Vec::new();
    for i in 0..500i64 {
        input.push(seg(i as u32 + 1, i * 700_000, i * 700_000 + 698_001, "t"));
    }
    let out = detect_chapters(&input, 1, 2_000);
    assert_eq!(out, vec![Chapter { number: 1, start_ms: 0, timestamp: "00:00.000".to_string() }]);
    let out = detect_chapters(&input, 1, 1_999);
    assert_eq!(out.len(), 500);
}
