//! Chapter markers, found at long silences between segments.

use vstd::prelude::*;
use crate::segment::{segment_views, Segment, SegmentView};
use crate::text::string_of;
use crate::timestamp::{format_spec, push_timestamp};
use crate::writer::clamp_spec;

verus! {

/// A place to which a reader may jump.
#[derive(Debug, PartialEq, Eq)]
pub struct Chapter {
    /// The chapter's number, counted from 1.
    pub number: u32,
    pub start_ms: i64,
    /// The start for display, without the hours where they are zero.
    pub timestamp: String,
}

/// What a chapter holds, as mathematical values.
pub struct ChapterView {
    pub number: nat,
    pub start_ms: int,
    pub timestamp: Seq<char>,
}

impl View for Chapter {
    type V = ChapterView;

    open spec fn view(&self) -> ChapterView {
        ChapterView {
            number: self.number as nat,
            start_ms: self.start_ms as int,
            timestamp: self.timestamp@,
        }
    }
}

/// The views of a sequence of chapters.
pub open spec fn chapter_views(v: Seq<Chapter>) -> Seq<ChapterView> {
    v.map_values(|c: Chapter| c@)
}

/// The chapter with this number that starts at `start_ms`. A negative
/// start is displayed as zero.
pub open spec fn chapter_at(number: nat, start_ms: int) -> ChapterView {
    ChapterView { number, start_ms, timestamp: format_spec(clamp_spec(start_ms), true) }
}

/// The segment at `i` starts a chapter: the silence before it, from the
/// end of the segment before, is no shorter than `silence`, and the
/// chapter that runs has lasted `min_duration` at least.
pub open spec fn starts_chapter(
    segs: Seq<SegmentView>,
    i: int,
    chapter_start: int,
    min_duration: int,
    silence: int,
) -> bool {
    segs[i].start_ms - segs[i - 1].end_ms >= silence && segs[i].start_ms - chapter_start
        >= min_duration
}

/// The chapters that start at the segments from index `i` on, where the
/// chapter that runs started at `chapter_start`.
pub open spec fn chapters_fold(
    segs: Seq<SegmentView>,
    i: int,
    chapter_start: int,
    min_duration: int,
    silence: int,
    next_number: nat,
) -> Seq<ChapterView>
    decreases segs.len() - i,
{
    if i < 1 || i >= segs.len() {
        Seq::empty()
    } else if starts_chapter(segs, i, chapter_start, min_duration, silence) {
        seq![chapter_at(next_number, segs[i].start_ms)] + chapters_fold(
            segs,
            i + 1,
            segs[i].start_ms,
            min_duration,
            silence,
            next_number + 1,
        )
    } else {
        chapters_fold(segs, i + 1, chapter_start, min_duration, silence, next_number)
    }
}

/// The chapters of the segments: the first at the start of the first
/// segment, the others where `starts_chapter` holds.
pub open spec fn chapters_spec(segs: Seq<SegmentView>, min_duration: int, silence: int) -> Seq<
    ChapterView,
> {
    if segs.len() == 0 {
        Seq::empty()
    } else {
        seq![chapter_at(1, segs[0].start_ms)] + chapters_fold(
            segs,
            1,
            segs[0].start_ms,
            min_duration,
            silence,
            2,
        )
    }
}

/// Every silence between two neighbours is shorter than `silence`.
pub open spec fn no_long_silence(segs: Seq<SegmentView>, silence: int) -> bool {
    forall|i: int|
        1 <= i < segs.len() ==> (#[trigger] segs[i]).start_ms - segs[i - 1].end_ms < silence
}

/// Without a long silence no later segment starts a chapter.
proof fn lemma_no_silence_no_chapter(
    segs: Seq<SegmentView>,
    i: int,
    chapter_start: int,
    min_duration: int,
    silence: int,
    next_number: nat,
)
    requires
        no_long_silence(segs, silence),
    ensures
        chapters_fold(segs, i, chapter_start, min_duration, silence, next_number).len() == 0,
    decreases segs.len() - i,
{
    if 1 <= i < segs.len() {
        assert(segs[i].start_ms - segs[i - 1].end_ms < silence);
        lemma_no_silence_no_chapter(segs, i + 1, chapter_start, min_duration, silence, next_number);
    }
}

/// Segments without a silence of `silence` or more between neighbours make
/// one chapter, however long they last together.
pub proof fn lemma_one_chapter_without_silence(
    segs: Seq<SegmentView>,
    min_duration: int,
    silence: int,
)
    requires
        segs.len() > 0,
        no_long_silence(segs, silence),
    ensures
        chapters_spec(segs, min_duration, silence) == seq![chapter_at(1, segs[0].start_ms)],
{
    lemma_no_silence_no_chapter(segs, 1, segs[0].start_ms, min_duration, silence, 2);
    assert(chapters_spec(segs, min_duration, silence) =~= seq![chapter_at(1, segs[0].start_ms)]);
}

/// The chapter with this number that starts at `start_ms`.
fn make_chapter(number: u32, start_ms: i64) -> (c: Chapter)
    ensures
        c@ == chapter_at(number as nat, start_ms as int),
{
    let mut text: Vec<char> = Vec::new();
    let shown: u64 = if start_ms < 0 {
        0
    } else {
        start_ms as u64
    };
    push_timestamp(&mut text, shown, true);
    assert(text@ =~= format_spec(clamp_spec(start_ms as int), true));
    Chapter { number, start_ms, timestamp: string_of(&text) }
}

/// Finds the chapters of the segments. The first segment starts chapter 1.
/// A later segment starts a chapter where the silence since the end of
/// the segment before it is `silence_threshold_ms` or more and the start
/// of the running chapter lies `min_chapter_duration_ms` or more back.
/// Each chapter has its number, its start, and its start as a timestamp
/// without the hours where they are zero. Segments without a silence of
/// `silence_threshold_ms` or more between neighbours make one chapter.
pub fn detect_chapters(
    segments: &Vec<Segment>,
    min_chapter_duration_ms: i64,
    silence_threshold_ms: i64,
) -> (r: Vec<Chapter>)
    requires
        segments.len() <= u32::MAX,
    ensures
        chapter_views(r@) == chapters_spec(
            segment_views(segments@),
            min_chapter_duration_ms as int,
            silence_threshold_ms as int,
        ),
        segments@.len() > 0 && no_long_silence(
            segment_views(segments@),
            silence_threshold_ms as int,
        ) ==> r@.len() == 1 && r@[0]@ == chapter_at(1, segments@[0]@.start_ms),
{
    let ghost segs = segment_views(segments@);
    let ghost min_duration = min_chapter_duration_ms as int;
    let ghost silence = silence_threshold_ms as int;
    let n: usize = segments.len();
    let mut out: Vec<Chapter> = Vec::new();
    if n == 0 {
        assert(chapter_views(out@) =~= Seq::empty());
        return out;
    }
    assert(segs[0] == segments@[0]@);
    let mut chapter_start: i64 = segments[0].start_ms;
    let first = make_chapter(1, chapter_start);
    assert(chapter_views(out@.push(first)) =~= seq![first@]);
    out.push(first);
    let mut i: usize = 1;
    while i < n
        invariant
            1 <= i <= n,
            n == segments.len(),
            n <= u32::MAX,
            1 <= out.len() <= i,
            segs == segment_views(segments@),
            min_duration == min_chapter_duration_ms as int,
            silence == silence_threshold_ms as int,
            chapter_views(out@) + chapters_fold(
                segs,
                i as int,
                chapter_start as int,
                min_duration,
                silence,
                (out.len() + 1) as nat,
            ) == chapters_spec(segs, min_duration, silence),
        decreases n - i,
    {
        assert(segs[i as int] == segments@[i as int]@);
        assert(segs[i - 1] == segments@[i - 1]@);
        let s = &segments[i];
        let gap: i128 = s.start_ms as i128 - segments[i - 1].end_ms as i128;
        let run: i128 = s.start_ms as i128 - chapter_start as i128;
        if gap >= silence_threshold_ms as i128 && run >= min_chapter_duration_ms as i128 {
            let ghost done = chapter_views(out@);
            let c = make_chapter((out.len() + 1) as u32, s.start_ms);
            proof {
                let rest = chapters_fold(
                    segs,
                    i as int + 1,
                    s.start_ms as int,
                    min_duration,
                    silence,
                    (out.len() + 2) as nat,
                );
                assert(chapter_views(out@.push(c)) =~= done + seq![c@]);
                assert(done + (seq![c@] + rest) =~= done + seq![c@] + rest);
            }
            out.push(c);
            chapter_start = s.start_ms;
        }
        i += 1;
    }
    assert(chapter_views(out@) + Seq::<ChapterView>::empty() =~= chapter_views(out@));
    proof {
        assert(chapter_views(out@).len() == out@.len());
        assert(chapter_views(out@)[0] == out@[0]@);
        if no_long_silence(segs, silence) {
            lemma_one_chapter_without_silence(segs, min_duration, silence);
        }
    }
    out
}

} // verus!
