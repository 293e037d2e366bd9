//! Grouping of consecutive segments of one speaker.

use vstd::prelude::*;
use vstd::string::StringExecFns;
use crate::segment::{segment_views, Segment, SegmentView};
use crate::text::{append, append_str, chars_of, string_of, trim, trim_spec};

verus! {

/// The label of a segment that names no speaker.
pub open spec fn unknown_speaker() -> Seq<char> {
    "Unknown"@
}

/// The speaker of a segment, or the label for none.
pub open spec fn label(s: SegmentView) -> Seq<char> {
    match s.speaker {
        Some(x) => x,
        None => unknown_speaker(),
    }
}

/// A group of one segment: its text trimmed, its speaker named.
pub open spec fn group_start(s: SegmentView) -> SegmentView {
    SegmentView { text: trim_spec(s.text), speaker: Some(label(s)), ..s }
}

/// The group with one more segment: it ends where that segment ends, and
/// its text is followed by a space and that segment's trimmed text.
pub open spec fn group_absorb(cur: SegmentView, next: SegmentView) -> SegmentView {
    SegmentView { end_ms: next.end_ms, text: cur.text + seq![' '] + trim_spec(next.text), ..cur }
}

/// The text of a group behind a voice tag that names its speaker.
pub open spec fn voice_tagged(speaker: Seq<char>, text: Seq<char>) -> Seq<char> {
    seq!['<', 'v', ' '] + speaker + seq!['>'] + text
}

/// The group as it is given out: with its id, and with the voice tag
/// before its text where tags are asked for.
pub open spec fn group_finish(cur: SegmentView, id: nat, format_speaker: bool) -> SegmentView {
    SegmentView {
        id,
        text: if format_speaker {
            voice_tagged(label(cur), cur.text)
        } else {
            cur.text
        },
        ..cur
    }
}

/// The segment joins the running group: it has the group's speaker and
/// starts no more than `max_gap` after the group ends.
pub open spec fn joins(cur: SegmentView, next: SegmentView, max_gap: int) -> bool {
    label(next) == label(cur) && next.start_ms - cur.end_ms <= max_gap
}

/// The groups of the segments from index `i` on, after the running group
/// `cur`.
pub open spec fn group_fold(
    segs: Seq<SegmentView>,
    i: int,
    cur: SegmentView,
    max_gap: int,
    format_speaker: bool,
    next_id: nat,
) -> Seq<SegmentView>
    decreases segs.len() - i,
{
    if i < 0 || i >= segs.len() {
        seq![group_finish(cur, next_id, format_speaker)]
    } else if joins(cur, segs[i], max_gap) {
        group_fold(segs, i + 1, group_absorb(cur, segs[i]), max_gap, format_speaker, next_id)
    } else {
        seq![group_finish(cur, next_id, format_speaker)] + group_fold(
            segs,
            i + 1,
            group_start(segs[i]),
            max_gap,
            format_speaker,
            next_id + 1,
        )
    }
}

/// The groups of the segments, numbered from 1.
pub open spec fn group_spec(segs: Seq<SegmentView>, max_gap: int, format_speaker: bool) -> Seq<
    SegmentView,
> {
    if segs.len() == 0 {
        Seq::empty()
    } else {
        group_fold(segs, 1, group_start(segs[0]), max_gap, format_speaker, 1)
    }
}

/// Each segment has another speaker than the one before it.
pub open spec fn speakers_alternate(segs: Seq<SegmentView>) -> bool {
    forall|i: int| 1 <= i < segs.len() ==> label(#[trigger] segs[i]) != label(segs[i - 1])
}

/// Where the speakers alternate, each segment from `i - 1` on makes a
/// group of its own.
proof fn lemma_alternating_fold(
    segs: Seq<SegmentView>,
    i: int,
    max_gap: int,
    format_speaker: bool,
    next_id: nat,
)
    requires
        1 <= i <= segs.len(),
        speakers_alternate(segs),
    ensures
        group_fold(segs, i, group_start(segs[i - 1]), max_gap, format_speaker, next_id).len()
            == segs.len() - i + 1,
        forall|k: int|
            0 <= k <= segs.len() - i ==> #[trigger] group_fold(
                segs,
                i,
                group_start(segs[i - 1]),
                max_gap,
                format_speaker,
                next_id,
            )[k] == group_finish(group_start(segs[i - 1 + k]), next_id + k as nat, format_speaker),
    decreases segs.len() - i,
{
    if i < segs.len() {
        assert(label(segs[i]) != label(segs[i - 1]));
        assert(!joins(group_start(segs[i - 1]), segs[i], max_gap));
        lemma_alternating_fold(segs, i + 1, max_gap, format_speaker, next_id + 1);
        let rest = group_fold(
            segs,
            i + 1,
            group_start(segs[i]),
            max_gap,
            format_speaker,
            next_id + 1,
        );
        let all = group_fold(segs, i, group_start(segs[i - 1]), max_gap, format_speaker, next_id);
        assert forall|k: int| 0 <= k <= segs.len() - i implies #[trigger] all[k] == group_finish(
            group_start(segs[i - 1 + k]),
            next_id + k as nat,
            format_speaker,
        ) by {
            if k > 0 {
                assert(all[k] == rest[k - 1]);
            }
        }
    }
}

/// Where each segment has another speaker than the one before it, nothing
/// is merged, however short the gaps are: every segment makes a group of
/// its own.
pub proof fn lemma_speaker_change_is_never_merged(
    segs: Seq<SegmentView>,
    max_gap: int,
    format_speaker: bool,
)
    requires
        speakers_alternate(segs),
    ensures
        group_spec(segs, max_gap, format_speaker).len() == segs.len(),
        forall|k: int|
            0 <= k < segs.len() ==> #[trigger] group_spec(segs, max_gap, format_speaker)[k]
                == group_finish(group_start(segs[k]), (k + 1) as nat, format_speaker),
{
    if segs.len() > 0 {
        lemma_alternating_fold(segs, 1, max_gap, format_speaker, 1);
    }
}

/// The speaker of a segment, or the label for none.
fn label_of(s: &Segment) -> (r: String)
    ensures
        r@ == label(s@),
{
    match &s.speaker {
        Some(x) => x.clone(),
        None => String::from_str("Unknown"),
    }
}

/// The group as it is given out.
fn finish(cur: Segment, id: u32, format_speaker: bool) -> (r: Segment)
    requires
        cur.speaker is Some,
    ensures
        r@ == group_finish(cur@, id as nat, format_speaker),
{
    let text = if format_speaker {
        let who = label_of(&cur);
        let mut t: Vec<char> = vec!['<', 'v', ' '];
        append_str(&mut t, who.as_str());
        t.push('>');
        append_str(&mut t, cur.text.as_str());
        assert(t@ =~= voice_tagged(label(cur@), cur@.text));
        string_of(&t)
    } else {
        cur.text
    };
    Segment {
        id,
        start_ms: cur.start_ms,
        end_ms: cur.end_ms,
        text,
        speaker: cur.speaker,
        confidence: cur.confidence,
    }
}

/// A group of one segment.
fn start_group(s: &Segment) -> (r: Segment)
    ensures
        r@ == group_start(s@),
        r.speaker is Some,
{
    let t = trim(&chars_of(s.text.as_str()));
    Segment {
        id: s.id,
        start_ms: s.start_ms,
        end_ms: s.end_ms,
        text: string_of(&t),
        speaker: Some(label_of(s)),
        confidence: s.confidence,
    }
}

/// Groups consecutive segments of one speaker. A segment joins the running
/// group where it has the group's speaker and starts no more than
/// `max_gap_ms` after the end of the segment before it; a segment without
/// a speaker counts as spoken by `Unknown`. A group runs from the start of
/// its first segment to the end of its last, holds their trimmed texts in
/// order with single spaces between them, and names its speaker. With
/// `format_speaker` its text stands behind a voice tag, `<v Speaker>`. The
/// groups are numbered from 1. Where each segment has another speaker than
/// the one before it, nothing is merged, however short the gaps are.
pub fn group_by_speaker(segments: &Vec<Segment>, max_gap_ms: i64, format_speaker: bool) -> (r: Vec<
    Segment,
>)
    requires
        segments.len() <= u32::MAX,
    ensures
        segment_views(r@) == group_spec(
            segment_views(segments@),
            max_gap_ms as int,
            format_speaker,
        ),
        speakers_alternate(segment_views(segments@)) ==> r@.len() == segments@.len() && forall|
            k: int,
        |
            0 <= k < segments@.len() ==> (#[trigger] r@[k])@ == group_finish(
                group_start(segments@[k]@),
                (k + 1) as nat,
                format_speaker,
            ),
{
    let ghost segs = segment_views(segments@);
    let ghost max_gap = max_gap_ms as int;
    let n: usize = segments.len();
    let mut out: Vec<Segment> = Vec::new();
    proof {
        if speakers_alternate(segs) {
            lemma_speaker_change_is_never_merged(segs, max_gap, format_speaker);
            assert forall|k: int| 0 <= k < segs.len() implies #[trigger] group_spec(
                segs,
                max_gap,
                format_speaker,
            )[k] == group_finish(
                group_start(segments@[k]@),
                (k + 1) as nat,
                format_speaker,
            ) by {
                assert(segs[k] == segments@[k]@);
            }
        }
    }
    if n == 0 {
        assert(segment_views(out@) =~= Seq::empty());
        return out;
    }
    assert(segs[0] == segments@[0]@);
    let mut cur: Segment = start_group(&segments[0]);
    let mut i: usize = 1;
    assert(segment_views(out@) =~= Seq::empty());
    assert(Seq::<SegmentView>::empty() + group_spec(segs, max_gap, format_speaker) =~= group_spec(
        segs,
        max_gap,
        format_speaker,
    ));
    while i < n
        invariant
            1 <= i <= n,
            n == segments.len(),
            n <= u32::MAX,
            out.len() < i,
            cur.speaker is Some,
            segs == segment_views(segments@),
            max_gap == max_gap_ms as int,
            segment_views(out@) + group_fold(
                segs,
                i as int,
                cur@,
                max_gap,
                format_speaker,
                (out.len() + 1) as nat,
            ) == group_spec(segs, max_gap, format_speaker),
        decreases n - i,
    {
        assert(segs[i as int] == segments@[i as int]@);
        let next = &segments[i];
        let ghost done = segment_views(out@);
        let ghost running = cur@;
        let same = label_of(next) == label_of(&cur);
        if same && next.start_ms as i128 - cur.end_ms as i128 <= max_gap_ms as i128 {
            let mut text = chars_of(cur.text.as_str());
            text.push(' ');
            let more = trim(&chars_of(next.text.as_str()));
            append(&mut text, &more);
            assert(text@ =~= running.text + seq![' '] + trim_spec(next@.text));
            cur = Segment {
                id: cur.id,
                start_ms: cur.start_ms,
                end_ms: next.end_ms,
                text: string_of(&text),
                speaker: cur.speaker,
                confidence: cur.confidence,
            };
            assert(cur@ == group_absorb(running, segs[i as int]));
        } else {
            let id: u32 = (out.len() + 1) as u32;
            let flushed = finish(cur, id, format_speaker);
            proof {
                let rest = group_fold(
                    segs,
                    i as int + 1,
                    group_start(segs[i as int]),
                    max_gap,
                    format_speaker,
                    (out.len() + 2) as nat,
                );
                assert(group_fold(
                    segs,
                    i as int,
                    running,
                    max_gap,
                    format_speaker,
                    (out.len() + 1) as nat,
                ) == seq![flushed@] + rest);
                assert(segment_views(out@.push(flushed)) =~= done + seq![flushed@]);
                assert(done + (seq![flushed@] + rest) =~= done + seq![flushed@] + rest);
            }
            out.push(flushed);
            cur = start_group(next);
        }
        i += 1;
    }
    let id: u32 = (out.len() + 1) as u32;
    let ghost done = segment_views(out@);
    let last = finish(cur, id, format_speaker);
    assert(segment_views(out@.push(last)) =~= done + seq![last@]);
    out.push(last);
    proof {
        assert(segment_views(out@).len() == out@.len());
        assert forall|k: int| 0 <= k < out@.len() implies (#[trigger] out@[k])@ == segment_views(
            out@,
        )[k] by {}
    }
    out
}

} // verus!
