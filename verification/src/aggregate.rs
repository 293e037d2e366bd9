//! Aggregation of timed words into segments.

use vstd::prelude::*;
use crate::segment::{segment_views, Segment, SegmentView};
use crate::text::{append, chars_of, string_of};
use crate::transform::with_id;

verus! {

/// One recognized word with its times.
#[derive(Debug, PartialEq, Eq)]
pub struct Word {
    pub text: String,
    pub start_ms: i64,
    pub end_ms: i64,
}

/// What a word holds, as mathematical values.
pub struct WordView {
    pub text: Seq<char>,
    pub start_ms: int,
    pub end_ms: int,
}

impl View for Word {
    type V = WordView;

    open spec fn view(&self) -> WordView {
        WordView { text: self.text@, start_ms: self.start_ms as int, end_ms: self.end_ms as int }
    }
}

/// The views of a sequence of words.
pub open spec fn word_views(v: Seq<Word>) -> Seq<WordView> {
    v.map_values(|w: Word| w@)
}

/// The text ends in `.`, `?` or `!`.
pub open spec fn ends_sentence(text: Seq<char>) -> bool {
    text.len() > 0 && (text.last() == '.' || text.last() == '?' || text.last() == '!')
}

/// The running segment, which started at `segment_start`, ends before the
/// word at `i`: the pause since the word before is `pause` or more; or
/// with this word the segment would last longer than `max_duration`; or
/// this word ends a sentence; or the word before it did.
pub open spec fn breaks_before(
    words: Seq<WordView>,
    i: int,
    segment_start: int,
    max_duration: int,
    pause: int,
) -> bool {
    ||| words[i].start_ms - words[i - 1].end_ms >= pause
    ||| words[i].end_ms - segment_start > max_duration
    ||| ends_sentence(words[i].text)
    ||| ends_sentence(words[i - 1].text)
}

/// A segment of one word.
pub open spec fn word_segment(w: WordView) -> SegmentView {
    SegmentView {
        id: 0,
        start_ms: w.start_ms,
        end_ms: w.end_ms,
        text: w.text,
        speaker: None,
        confidence: None,
    }
}

/// The segment with one more word: it ends where the word ends, and its
/// text is followed by a space and the word.
pub open spec fn add_word(cur: SegmentView, w: WordView) -> SegmentView {
    SegmentView { end_ms: w.end_ms, text: cur.text + seq![' '] + w.text, ..cur }
}

/// The segments of the words from index `i` on, after the running segment
/// `cur`.
pub open spec fn aggregate_fold(
    words: Seq<WordView>,
    i: int,
    cur: SegmentView,
    max_duration: int,
    pause: int,
    next_id: nat,
) -> Seq<SegmentView>
    decreases words.len() - i,
{
    if i < 1 || i >= words.len() {
        seq![with_id(cur, next_id)]
    } else if breaks_before(words, i, cur.start_ms, max_duration, pause) {
        seq![with_id(cur, next_id)] + aggregate_fold(
            words,
            i + 1,
            word_segment(words[i]),
            max_duration,
            pause,
            next_id + 1,
        )
    } else {
        aggregate_fold(words, i + 1, add_word(cur, words[i]), max_duration, pause, next_id)
    }
}

/// The segments of the words, numbered from 1. The first word starts the
/// first segment; the last segment ends with the last word.
pub open spec fn aggregate_spec(words: Seq<WordView>, max_duration: int, pause: int) -> Seq<
    SegmentView,
> {
    if words.len() == 0 {
        Seq::empty()
    } else {
        aggregate_fold(words, 1, word_segment(words[0]), max_duration, pause, 1)
    }
}

/// Whether the text ends in `.`, `?` or `!`.
fn is_sentence_end(text: &Vec<char>) -> (b: bool)
    ensures
        b == ends_sentence(text@),
{
    let n: usize = text.len();
    if n == 0 {
        return false;
    }
    let c = text[n - 1];
    c == '.' || c == '?' || c == '!'
}

/// Gathers words into segments. A segment runs from the start of its
/// first word to the end of its last, and holds its words with single
/// spaces between them. A word starts a new segment where the pause since
/// the word before it is `pause_threshold_ms` or more, where with it the
/// running segment would last longer than `max_segment_duration_ms`, where
/// it ends in `.`, `?` or `!`, or where the word before it does. The
/// segments are numbered from 1 and name no speaker.
pub fn words_to_segments(
    words: &Vec<Word>,
    max_segment_duration_ms: i64,
    pause_threshold_ms: i64,
) -> (r: Vec<Segment>)
    requires
        words.len() <= u32::MAX,
    ensures
        segment_views(r@) == aggregate_spec(
            word_views(words@),
            max_segment_duration_ms as int,
            pause_threshold_ms as int,
        ),
{
    let ghost ws = word_views(words@);
    let ghost max_duration = max_segment_duration_ms as int;
    let ghost pause = pause_threshold_ms as int;
    let n: usize = words.len();
    let mut out: Vec<Segment> = Vec::new();
    if n == 0 {
        assert(segment_views(out@) =~= Seq::empty());
        return out;
    }
    assert(ws[0] == words@[0]@);
    let mut start: i64 = words[0].start_ms;
    let mut end: i64 = words[0].end_ms;
    let mut text: Vec<char> = chars_of(words[0].text.as_str());
    let mut previous_ends: bool = is_sentence_end(&text);
    let ghost mut cur: SegmentView = word_segment(ws[0]);
    let mut i: usize = 1;
    assert(segment_views(out@) =~= Seq::empty());
    assert(Seq::<SegmentView>::empty() + aggregate_spec(ws, max_duration, pause) =~= aggregate_spec(
        ws,
        max_duration,
        pause,
    ));
    while i < n
        invariant
            1 <= i <= n,
            n == words.len(),
            n <= u32::MAX,
            out.len() < i,
            ws == word_views(words@),
            max_duration == max_segment_duration_ms as int,
            pause == pause_threshold_ms as int,
            cur == (SegmentView {
                id: 0,
                start_ms: start as int,
                end_ms: end as int,
                text: text@,
                speaker: None,
                confidence: None,
            }),
            previous_ends == ends_sentence(ws[i - 1].text),
            segment_views(out@) + aggregate_fold(
                ws,
                i as int,
                cur,
                max_duration,
                pause,
                (out.len() + 1) as nat,
            ) == aggregate_spec(ws, max_duration, pause),
        decreases n - i,
    {
        assert(ws[i as int] == words@[i as int]@);
        assert(ws[i - 1] == words@[i - 1]@);
        let w = &words[i];
        let word_text = chars_of(w.text.as_str());
        let this_ends = is_sentence_end(&word_text);
        let gap: i128 = w.start_ms as i128 - words[i - 1].end_ms as i128;
        let run: i128 = w.end_ms as i128 - start as i128;
        let ghost done = segment_views(out@);
        if gap >= pause_threshold_ms as i128 || run > max_segment_duration_ms as i128 || this_ends
            || previous_ends {
            let flushed = Segment {
                id: (out.len() + 1) as u32,
                start_ms: start,
                end_ms: end,
                text: string_of(&text),
                speaker: None,
                confidence: None,
            };
            proof {
                let rest = aggregate_fold(
                    ws,
                    i as int + 1,
                    word_segment(ws[i as int]),
                    max_duration,
                    pause,
                    (out.len() + 2) as nat,
                );
                assert(flushed@ == with_id(cur, (out.len() + 1) as nat));
                assert(segment_views(out@.push(flushed)) =~= done + seq![flushed@]);
                assert(done + (seq![flushed@] + rest) =~= done + seq![flushed@] + rest);
                cur = word_segment(ws[i as int]);
            }
            out.push(flushed);
            start = w.start_ms;
            end = w.end_ms;
            text = word_text;
        } else {
            let ghost before = text@;
            text.push(' ');
            append(&mut text, &word_text);
            end = w.end_ms;
            proof {
                assert(text@ =~= before + seq![' '] + ws[i as int].text);
                cur = add_word(cur, ws[i as int]);
            }
        }
        previous_ends = this_ends;
        i += 1;
    }
    let ghost done = segment_views(out@);
    let last = Segment {
        id: (out.len() + 1) as u32,
        start_ms: start,
        end_ms: end,
        text: string_of(&text),
        speaker: None,
        confidence: None,
    };
    assert(last@ == with_id(cur, (out.len() + 1) as nat));
    assert(segment_views(out@.push(last)) =~= done + seq![last@]);
    out.push(last);
    out
}

} // verus!
