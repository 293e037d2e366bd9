//! Transformations of segment lists: merging, shifting and filtering by
//! time. Each gives a new list and leaves its input as it is.

use vstd::prelude::*;
use crate::decimal::{decimal_spec, push_decimal, push_signed, signed_decimal_spec};
use crate::error::{ErrorKind, VttError};
use crate::segment::{clone_opt, segment_views, Segment, SegmentView};
use crate::text::{append, append_str, chars_of, join_spec, string_of, trim, trim_spec};

verus! {

/// The segment with its text trimmed.
pub open spec fn trimmed(s: SegmentView) -> SegmentView {
    SegmentView { text: trim_spec(s.text), ..s }
}

/// The segment with another id.
pub open spec fn with_id(s: SegmentView, id: nat) -> SegmentView {
    SegmentView { id, ..s }
}

/// The running segment extended by the next one: it ends where the next
/// one ends, and its text is followed by one space and the next one's
/// trimmed text.
pub open spec fn absorb(cur: SegmentView, next: SegmentView) -> SegmentView {
    SegmentView { end_ms: next.end_ms, text: cur.text + seq![' '] + trim_spec(next.text), ..cur }
}

/// The segments from index `i` on folded into the running segment `cur`:
/// a segment that starts no more than `gap` after the running one ends is
/// absorbed; any other ends the running one, which gets the id `next_id`,
/// and becomes the running segment itself.
pub open spec fn merge_fold(
    segs: Seq<SegmentView>,
    i: int,
    cur: SegmentView,
    gap: int,
    next_id: nat,
) -> Seq<SegmentView>
    decreases segs.len() - i,
{
    if i < 0 || i >= segs.len() {
        seq![with_id(cur, next_id)]
    } else if segs[i].start_ms - cur.end_ms <= gap {
        merge_fold(segs, i + 1, absorb(cur, segs[i]), gap, next_id)
    } else {
        seq![with_id(cur, next_id)] + merge_fold(segs, i + 1, trimmed(segs[i]), gap, next_id + 1)
    }
}

/// The segments merged from left to right, with ids counted from 1.
pub open spec fn merge_spec(segs: Seq<SegmentView>, gap: int) -> Seq<SegmentView> {
    if segs.len() == 0 {
        Seq::empty()
    } else {
        merge_fold(segs, 1, trimmed(segs[0]), gap, 1)
    }
}

/// Merging gives no more segments than it takes, one at least from a list
/// that is not empty, and numbers them from `next_id` on.
pub proof fn lemma_merge_fold(
    segs: Seq<SegmentView>,
    i: int,
    cur: SegmentView,
    gap: int,
    next_id: nat,
)
    requires
        0 <= i <= segs.len(),
    ensures
        1 <= merge_fold(segs, i, cur, gap, next_id).len() <= segs.len() - i + 1,
        forall|k: int|
            0 <= k < merge_fold(segs, i, cur, gap, next_id).len() ==> (#[trigger] merge_fold(
                segs,
                i,
                cur,
                gap,
                next_id,
            )[k]).id == next_id + k,
    decreases segs.len() - i,
{
    if i < segs.len() {
        if segs[i].start_ms - cur.end_ms <= gap {
            lemma_merge_fold(segs, i + 1, absorb(cur, segs[i]), gap, next_id);
        } else {
            lemma_merge_fold(segs, i + 1, trimmed(segs[i]), gap, next_id + 1);
        }
    }
}

/// Merged segments are numbered 1, 2, 3 and so on, and are no more than
/// the segments they were merged from.
pub proof fn lemma_merge_ids(segs: Seq<SegmentView>, gap: int)
    ensures
        merge_spec(segs, gap).len() <= segs.len(),
        segs.len() > 0 ==> merge_spec(segs, gap).len() >= 1,
        forall|k: int|
            0 <= k < merge_spec(segs, gap).len() ==> (#[trigger] merge_spec(segs, gap)[k]).id == k
                + 1,
{
    if segs.len() > 0 {
        lemma_merge_fold(segs, 1, trimmed(segs[0]), gap, 1);
    }
}

/// The trimmed texts of the segments.
pub open spec fn trimmed_texts(segs: Seq<SegmentView>) -> Seq<Seq<char>> {
    segs.map_values(|s: SegmentView| trim_spec(s.text))
}

/// No gap between two neighbours is greater than `gap`.
pub open spec fn all_gaps_within(segs: Seq<SegmentView>, gap: int) -> bool {
    forall|k: int| 1 <= k < segs.len() ==> (#[trigger] segs[k]).start_ms - segs[k - 1].end_ms <= gap
}

/// Where no gap is greater than the threshold, the running segment takes
/// all segments that are left.
proof fn lemma_merge_fold_all(
    segs: Seq<SegmentView>,
    i: int,
    cur: SegmentView,
    gap: int,
    next_id: nat,
)
    requires
        1 <= i <= segs.len(),
        all_gaps_within(segs, gap),
        cur.end_ms == segs[i - 1].end_ms,
        cur.text == join_spec(trimmed_texts(segs).take(i), seq![' ']),
    ensures
        merge_fold(segs, i, cur, gap, next_id) == seq![
            (SegmentView {
                id: next_id,
                end_ms: segs.last().end_ms,
                text: join_spec(trimmed_texts(segs), seq![' ']),
                ..cur
            }),
        ],
    decreases segs.len() - i,
{
    let texts = trimmed_texts(segs);
    if i < segs.len() {
        assert(segs[i].start_ms - segs[i - 1].end_ms <= gap);
        let next = absorb(cur, segs[i]);
        let upto = texts.take(i + 1);
        assert(upto.drop_last() =~= texts.take(i));
        assert(upto.last() == trim_spec(segs[i].text));
        assert(next.text == join_spec(upto, seq![' ']));
        lemma_merge_fold_all(segs, i + 1, next, gap, next_id);
    } else {
        assert(texts.take(i) =~= texts);
    }
}

/// Segments with no gap greater than the threshold merge into one, which
/// runs from the start of the first to the end of the last and holds
/// their trimmed texts joined by single spaces.
pub proof fn lemma_merge_all(segs: Seq<SegmentView>, gap: int)
    requires
        segs.len() > 0,
        all_gaps_within(segs, gap),
    ensures
        merge_spec(segs, gap) == seq![
            (SegmentView {
                id: 1,
                end_ms: segs.last().end_ms,
                text: join_spec(trimmed_texts(segs), seq![' ']),
                ..segs[0]
            }),
        ],
{
    let texts = trimmed_texts(segs);
    assert(texts.take(1) =~= seq![trim_spec(segs[0].text)]);
    lemma_merge_fold_all(segs, 1, trimmed(segs[0]), gap, 1);
}

/// Every gap between two neighbours is greater than `gap`.
pub open spec fn all_gaps_beyond(segs: Seq<SegmentView>, gap: int) -> bool {
    forall|k: int| 1 <= k < segs.len() ==> (#[trigger] segs[k]).start_ms - segs[k - 1].end_ms > gap
}

/// Where every gap is greater than the threshold, each segment that is
/// left stays by itself.
proof fn lemma_merge_fold_none(segs: Seq<SegmentView>, gap: int, i: int, next_id: nat)
    requires
        1 <= i <= segs.len(),
        all_gaps_beyond(segs, gap),
    ensures
        merge_fold(segs, i, trimmed(segs[i - 1]), gap, next_id).len() == segs.len() - i + 1,
        forall|k: int|
            0 <= k <= segs.len() - i ==> #[trigger] merge_fold(
                segs,
                i,
                trimmed(segs[i - 1]),
                gap,
                next_id,
            )[k] == with_id(trimmed(segs[i - 1 + k]), next_id + k as nat),
    decreases segs.len() - i,
{
    if i < segs.len() {
        assert(segs[i].start_ms - segs[i - 1].end_ms > gap);
        lemma_merge_fold_none(segs, gap, i + 1, next_id + 1);
        let rest = merge_fold(segs, i + 1, trimmed(segs[i]), gap, next_id + 1);
        let all = merge_fold(segs, i, trimmed(segs[i - 1]), gap, next_id);
        assert forall|k: int| 0 <= k <= segs.len() - i implies #[trigger] all[k] == with_id(
            trimmed(segs[i - 1 + k]),
            next_id + k as nat,
        ) by {
            if k > 0 {
                assert(all[k] == rest[k - 1]);
            }
        }
    }
}

/// Where every gap is greater than the threshold, nothing is merged: the
/// result is the segments themselves, trimmed and numbered from 1.
pub proof fn lemma_merge_none(segs: Seq<SegmentView>, gap: int)
    requires
        all_gaps_beyond(segs, gap),
    ensures
        merge_spec(segs, gap).len() == segs.len(),
        forall|k: int|
            0 <= k < segs.len() ==> #[trigger] merge_spec(segs, gap)[k] == with_id(
                trimmed(segs[k]),
                (k + 1) as nat,
            ),
{
    if segs.len() > 0 {
        lemma_merge_fold_none(segs, gap, 1, 1);
    }
}

/// A copy of the segment with its text trimmed.
pub fn trimmed_copy(s: &Segment) -> (r: Segment)
    ensures
        r@ == trimmed(s@),
{
    let text = chars_of(s.text.as_str());
    let t = trim(&text);
    Segment {
        id: s.id,
        start_ms: s.start_ms,
        end_ms: s.end_ms,
        text: string_of(&t),
        speaker: clone_opt(&s.speaker),
        confidence: s.confidence,
    }
}

/// Merges each segment into the one before it where the gap between them,
/// from the end of the running segment to the start of the next, is no
/// more than `gap_threshold_ms`. A merged segment keeps the start of its
/// first part, ends with its last part, and holds the trimmed texts of its
/// parts in order, joined by single spaces. The result is numbered from 1.
pub fn merge_segments(segments: &Vec<Segment>, gap_threshold_ms: i64) -> (r: Vec<Segment>)
    requires
        segments.len() <= u32::MAX,
    ensures
        segment_views(r@) == merge_spec(segment_views(segments@), gap_threshold_ms as int),
{
    let ghost segs = segment_views(segments@);
    let ghost gap = gap_threshold_ms as int;
    let n: usize = segments.len();
    let mut out: Vec<Segment> = Vec::new();
    if n == 0 {
        assert(segment_views(out@) =~= Seq::empty());
        return out;
    }
    assert(segs[0] == segments@[0]@);
    let mut cur: Segment = trimmed_copy(&segments[0]);
    let mut i: usize = 1;
    assert(segment_views(out@) =~= Seq::empty());
    assert(Seq::<SegmentView>::empty() + merge_spec(segs, gap) =~= merge_spec(segs, gap));
    while i < n
        invariant
            1 <= i <= n,
            n == segments.len(),
            n <= u32::MAX,
            out.len() < i,
            segs == segment_views(segments@),
            gap == gap_threshold_ms as int,
            segment_views(out@) + merge_fold(segs, i as int, cur@, gap, (out.len() + 1) as nat)
                == merge_spec(segs, gap),
        decreases n - i,
    {
        assert(segs[i as int] == segments@[i as int]@);
        let next = &segments[i];
        let ghost done = segment_views(out@);
        let ghost running = cur@;
        if next.start_ms as i128 - cur.end_ms as i128 <= gap_threshold_ms as i128 {
            let mut text = chars_of(cur.text.as_str());
            text.push(' ');
            let more = trim(&chars_of(next.text.as_str()));
            append(&mut text, &more);
            assert(text@ =~= running.text + seq![' '] + trim_spec(next@.text));
            cur = Segment {
                id: cur.id,
                start_ms: cur.start_ms,
                end_ms: next.end_ms,
                text: string_of(&text),
                speaker: cur.speaker,
                confidence: cur.confidence,
            };
            assert(cur@ == absorb(running, segs[i as int]));
        } else {
            let id: u32 = (out.len() + 1) as u32;
            let flushed = Segment {
                id,
                start_ms: cur.start_ms,
                end_ms: cur.end_ms,
                text: cur.text,
                speaker: cur.speaker,
                confidence: cur.confidence,
            };
            proof {
                let rest = merge_fold(
                    segs,
                    i as int + 1,
                    trimmed(segs[i as int]),
                    gap,
                    (out.len() + 2) as nat,
                );
                assert(flushed@ == with_id(running, (out.len() + 1) as nat));
                assert(merge_fold(segs, i as int, running, gap, (out.len() + 1) as nat) == seq![
                    flushed@,
                ] + rest);
                assert(segment_views(out@.push(flushed)) =~= done + seq![flushed@]);
                assert(done + (seq![flushed@] + rest) =~= done + seq![flushed@] + rest);
            }
            out.push(flushed);
            cur = trimmed_copy(next);
        }
        i += 1;
    }
    let id: u32 = (out.len() + 1) as u32;
    let ghost done = segment_views(out@);
    let ghost running = cur@;
    let last = Segment {
        id,
        start_ms: cur.start_ms,
        end_ms: cur.end_ms,
        text: cur.text,
        speaker: cur.speaker,
        confidence: cur.confidence,
    };
    assert(last@ == with_id(running, (out.len() + 1) as nat));
    assert(segment_views(out@.push(last)) =~= done + seq![last@]);
    out.push(last);
    out
}

/// The segment moved by `offset`, with its text trimmed.
pub open spec fn shifted(s: SegmentView, offset: int) -> SegmentView {
    SegmentView {
        start_ms: s.start_ms + offset,
        end_ms: s.end_ms + offset,
        text: trim_spec(s.text),
        ..s
    }
}

/// Moving the segment by `offset` gives a negative time.
pub open spec fn shifts_below_zero(s: SegmentView, offset: int) -> bool {
    s.start_ms + offset < 0 || s.end_ms + offset < 0
}

/// The segments, each moved by `offset`.
pub open spec fn shift_spec(segs: Seq<SegmentView>, offset: int) -> Seq<SegmentView> {
    segs.map_values(|s: SegmentView| shifted(s, offset))
}

/// No segment before index `n` gets a negative time.
pub open spec fn none_below_zero_before(segs: Seq<SegmentView>, offset: int, n: int) -> bool {
    forall|j: int| 0 <= j < n ==> !shifts_below_zero(#[trigger] segs[j], offset)
}

/// The message of the error for a segment that cannot be moved.
pub open spec fn shift_error_message(id: nat, offset: int) -> Seq<char> {
    "Segment "@ + decimal_spec(id) + ": shifting by "@ + signed_decimal_spec(offset)
        + " ms would result in negative timestamp"@
}

/// Every start and end, moved by `offset`, fits in 64 bits.
pub open spec fn shift_fits(segs: Seq<SegmentView>, offset: int) -> bool {
    forall|i: int|
        0 <= i < segs.len() ==> (#[trigger] segs[i]).start_ms + offset <= i64::MAX
            && segs[i].end_ms + offset <= i64::MAX
}

/// Whether every start and end, moved by `offset_ms`, fits in 64 bits:
/// what `shift_timestamps` asks of its caller.
pub fn shift_in_range(segments: &Vec<Segment>, offset_ms: i64) -> (b: bool)
    ensures
        b == shift_fits(segment_views(segments@), offset_ms as int),
{
    let ghost segs = segment_views(segments@);
    let mut i: usize = 0;
    while i < segments.len()
        invariant
            i <= segments.len(),
            segs == segment_views(segments@),
            shift_fits(segs.take(i as int), offset_ms as int),
        decreases segments.len() - i,
    {
        let s = &segments[i];
        assert(segs[i as int] == s@);
        let start: i128 = s.start_ms as i128 + offset_ms as i128;
        let end: i128 = s.end_ms as i128 + offset_ms as i128;
        if start > 0x7FFF_FFFF_FFFF_FFFFi128 || end > 0x7FFF_FFFF_FFFF_FFFFi128 {
            return false;
        }
        assert forall|k: int| 0 <= k < i + 1 implies (#[trigger] segs.take(
            i as int + 1,
        )[k]).start_ms + offset_ms <= i64::MAX && segs.take(i as int + 1)[k].end_ms + offset_ms
            <= i64::MAX by {
            if k < i {
                assert(segs.take(i as int)[k] == segs[k]);
            }
        }
        i += 1;
    }
    assert(segs.take(segments.len() as int) =~= segs);
    true
}

/// The error for the segment `id`, which cannot be moved by `offset`.
fn shift_error(id: u32, offset: i64) -> (e: VttError)
    ensures
        e.kind == ErrorKind::Timestamp,
        e.message@ == shift_error_message(id as nat, offset as int),
{
    let mut msg: Vec<char> = Vec::new();
    append_str(&mut msg, "Segment ");
    push_decimal(&mut msg, id as u64);
    append_str(&mut msg, ": shifting by ");
    push_signed(&mut msg, offset);
    append_str(&mut msg, " ms would result in negative timestamp");
    assert(msg@ =~= shift_error_message(id as nat, offset as int));
    VttError { kind: ErrorKind::Timestamp, message: string_of(&msg) }
}

/// Moves every start and end by `offset_ms`, and trims the texts. Where a
/// time would become negative, nothing is returned but a timestamp error
/// that names the first such segment.
pub fn shift_timestamps(segments: &Vec<Segment>, offset_ms: i64) -> (r: Result<
    Vec<Segment>,
    VttError,
>)
    requires
        shift_fits(segment_views(segments@), offset_ms as int),
    ensures
        match r {
            Ok(v) => none_below_zero_before(
                segment_views(segments@),
                offset_ms as int,
                segments.len() as int,
            ) && segment_views(v@) == shift_spec(segment_views(segments@), offset_ms as int),
            Err(e) => exists|i: int|
                0 <= i < segments.len() && none_below_zero_before(
                    segment_views(segments@),
                    offset_ms as int,
                    i,
                ) && shifts_below_zero(#[trigger] segment_views(segments@)[i], offset_ms as int)
                    && e.kind == ErrorKind::Timestamp && e.message@ == shift_error_message(
                    segments@[i]@.id,
                    offset_ms as int,
                ),
        },
{
    let ghost segs = segment_views(segments@);
    let ghost offset = offset_ms as int;
    let mut out: Vec<Segment> = Vec::new();
    let mut i: usize = 0;
    assert(segment_views(out@) =~= shift_spec(segs, offset).take(0));
    while i < segments.len()
        invariant
            i <= segments.len(),
            segs == segment_views(segments@),
            offset == offset_ms as int,
            shift_fits(segs, offset),
            none_below_zero_before(segs, offset, i as int),
            segment_views(out@) == shift_spec(segs, offset).take(i as int),
        decreases segments.len() - i,
    {
        let s = &segments[i];
        assert(segs[i as int] == s@);
        let new_start: i128 = s.start_ms as i128 + offset_ms as i128;
        let new_end: i128 = s.end_ms as i128 + offset_ms as i128;
        if new_start < 0 || new_end < 0 {
            return Err(shift_error(s.id, offset_ms));
        }
        let t = trimmed_copy(s);
        let moved = Segment {
            id: t.id,
            start_ms: new_start as i64,
            end_ms: new_end as i64,
            text: t.text,
            speaker: t.speaker,
            confidence: t.confidence,
        };
        assert(moved@ == shifted(s@, offset));
        assert(shift_spec(segs, offset)[i as int] == shifted(segs[i as int], offset));
        assert(segment_views(out@.push(moved)) =~= segment_views(out@).push(moved@));
        assert(shift_spec(segs, offset).take(i as int + 1) =~= shift_spec(segs, offset).take(
            i as int,
        ).push(shifted(segs[i as int], offset)));
        out.push(moved);
        i += 1;
    }
    assert(shift_spec(segs, offset).take(segments.len() as int) =~= shift_spec(segs, offset));
    Ok(out)
}

/// The segment meets the range: it ends at or after the range's start and
/// starts at or before the range's end.
pub open spec fn overlaps(s: SegmentView, range_start: int, range_end: int) -> bool {
    s.end_ms >= range_start && s.start_ms <= range_end
}

/// The segments that meet the range, in order, with their texts trimmed.
pub open spec fn filter_time_spec(
    segs: Seq<SegmentView>,
    range_start: int,
    range_end: int,
) -> Seq<SegmentView>
    decreases segs.len(),
{
    if segs.len() == 0 {
        Seq::empty()
    } else {
        let before = filter_time_spec(segs.drop_last(), range_start, range_end);
        if overlaps(segs.last(), range_start, range_end) {
            before.push(trimmed(segs.last()))
        } else {
            before
        }
    }
}

/// The indices of the segments that meet the range, in order.
pub open spec fn kept_indices(segs: Seq<SegmentView>, range_start: int, range_end: int) -> Seq<int>
    decreases segs.len(),
{
    if segs.len() == 0 {
        Seq::empty()
    } else {
        let before = kept_indices(segs.drop_last(), range_start, range_end);
        if overlaps(segs.last(), range_start, range_end) {
            before.push(segs.len() - 1)
        } else {
            before
        }
    }
}

/// The segments that are kept are those at the kept indices, trimmed.
pub proof fn lemma_filter_by_indices(segs: Seq<SegmentView>, range_start: int, range_end: int)
    ensures
        filter_time_spec(segs, range_start, range_end).len() == kept_indices(
            segs,
            range_start,
            range_end,
        ).len(),
        forall|k: int|
            0 <= k < kept_indices(segs, range_start, range_end).len() ==> {
                let i = #[trigger] kept_indices(segs, range_start, range_end)[k];
                &&& 0 <= i < segs.len()
                &&& overlaps(segs[i], range_start, range_end)
                &&& filter_time_spec(segs, range_start, range_end)[k] == trimmed(segs[i])
            },
    decreases segs.len(),
{
    if segs.len() > 0 {
        let before = segs.drop_last();
        lemma_filter_by_indices(before, range_start, range_end);
        let kb = kept_indices(before, range_start, range_end);
        let ka = kept_indices(segs, range_start, range_end);
        let fb = filter_time_spec(before, range_start, range_end);
        let fa = filter_time_spec(segs, range_start, range_end);
        assert forall|k: int| 0 <= k < ka.len() implies {
            let i = #[trigger] ka[k];
            &&& 0 <= i < segs.len()
            &&& overlaps(segs[i], range_start, range_end)
            &&& fa[k] == trimmed(segs[i])
        } by {
            if k < kb.len() {
                assert(ka[k] == kb[k]);
                assert(fa[k] == fb[k]);
                assert(before[kb[k]] == segs[kb[k]]);
            }
        }
    }
}

/// The views of a sequence of indices.
pub open spec fn index_views(v: Seq<usize>) -> Seq<int> {
    v.map_values(|i: usize| i as int)
}

/// The indices of the segments that meet the range from `range_start_ms`
/// to `range_end_ms`, both ends included, in order: for a caller that
/// keeps records of its own beside the segments.
pub fn filter_indices_by_time(
    segments: &Vec<Segment>,
    range_start_ms: i64,
    range_end_ms: i64,
) -> (r: Vec<usize>)
    ensures
        index_views(r@) == kept_indices(
            segment_views(segments@),
            range_start_ms as int,
            range_end_ms as int,
        ),
{
    let ghost segs = segment_views(segments@);
    let ghost a = range_start_ms as int;
    let ghost b = range_end_ms as int;
    let mut out: Vec<usize> = Vec::new();
    let mut i: usize = 0;
    assert(index_views(out@) =~= kept_indices(segs.take(0), a, b));
    while i < segments.len()
        invariant
            i <= segments.len(),
            segs == segment_views(segments@),
            a == range_start_ms as int,
            b == range_end_ms as int,
            index_views(out@) == kept_indices(segs.take(i as int), a, b),
        decreases segments.len() - i,
    {
        let s = &segments[i];
        proof {
            let upto = segs.take(i as int + 1);
            assert(upto.drop_last() =~= segs.take(i as int));
            assert(upto.last() == s@);
        }
        if s.end_ms >= range_start_ms && s.start_ms <= range_end_ms {
            assert(index_views(out@.push(i)) =~= index_views(out@).push(i as int));
            out.push(i);
        }
        i += 1;
    }
    assert(segs.take(segments.len() as int) =~= segs);
    out
}

/// Keeps the segments that meet the range from `range_start_ms` to
/// `range_end_ms`, both ends included: those that end at or after its
/// start and start at or before its end. Ids and times stay as they are.
pub fn filter_segments_by_time(
    segments: &Vec<Segment>,
    range_start_ms: i64,
    range_end_ms: i64,
) -> (r: Vec<Segment>)
    ensures
        segment_views(r@) == filter_time_spec(
            segment_views(segments@),
            range_start_ms as int,
            range_end_ms as int,
        ),
{
    let ghost segs = segment_views(segments@);
    let ghost a = range_start_ms as int;
    let ghost b = range_end_ms as int;
    let mut out: Vec<Segment> = Vec::new();
    let mut i: usize = 0;
    assert(segment_views(out@) =~= filter_time_spec(segs.take(0), a, b));
    while i < segments.len()
        invariant
            i <= segments.len(),
            segs == segment_views(segments@),
            a == range_start_ms as int,
            b == range_end_ms as int,
            segment_views(out@) == filter_time_spec(segs.take(i as int), a, b),
        decreases segments.len() - i,
    {
        let s = &segments[i];
        proof {
            let upto = segs.take(i as int + 1);
            assert(upto.drop_last() =~= segs.take(i as int));
            assert(upto.last() == s@);
        }
        if s.end_ms >= range_start_ms && s.start_ms <= range_end_ms {
            let t = trimmed_copy(s);
            assert(segment_views(out@.push(t)) =~= segment_views(out@).push(t@));
            out.push(t);
        }
        i += 1;
    }
    assert(segs.take(segments.len() as int) =~= segs);
    out
}

} // verus!
