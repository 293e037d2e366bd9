//! Splitting long segments into chunks of whole words, each with its share
//! of the segment's time.

use vstd::prelude::*;
use vstd::string::StrSliceExecFns;
use crate::segment::{clone_opt, duration_total, segment_views, Segment, SegmentView};
use crate::text::{
    all_words, append, chars_of, is_whitespace_spec, join_spec, lemma_word_len_bound,
    lemma_words_are_words, split_words, string_of, trim, trim_end_spec, trim_spec,
    trim_start_spec, views, word_len, words_spec,
};

verus! {

/// The share of `duration` that falls to `chars` of `total` characters,
/// rounded toward zero.
pub open spec fn share(chars: nat, total: nat, duration: int) -> int {
    if duration >= 0 {
        (chars * duration) / (total as int)
    } else {
        -((chars * (-duration)) / (total as int))
    }
}

/// A piece of the segment `seg`: it has the segment's speaker and
/// confidence, and an id, times and text of its own.
pub open spec fn chunk(
    seg: SegmentView,
    id: nat,
    start: int,
    end: int,
    text: Seq<char>,
) -> SegmentView {
    SegmentView { id, start_ms: start, end_ms: end, text, ..seg }
}

/// The running chunk with one more word.
pub open spec fn extend(cur: Seq<char>, word: Seq<char>) -> Seq<char> {
    if cur.len() > 0 {
        cur + seq![' '] + word
    } else {
        word
    }
}

/// The words from index `k` on packed into chunks, after the running chunk
/// `cur` that starts at `cur_start`. A word that would take the running
/// chunk, with a space before the word, beyond `max` characters ends that
/// chunk and starts the next. A chunk that is ended lasts its share of the
/// segment's time, by its characters among the `total`; the last chunk
/// ends where the segment ends.
pub open spec fn split_fold(
    words: Seq<Seq<char>>,
    k: int,
    cur: Seq<char>,
    cur_start: int,
    seg: SegmentView,
    total: nat,
    max: nat,
    next_id: nat,
) -> Seq<SegmentView>
    decreases words.len() - k,
{
    if k < 0 || k >= words.len() {
        if cur.len() > 0 {
            seq![chunk(seg, next_id, cur_start, seg.end_ms, cur)]
        } else {
            Seq::empty()
        }
    } else if cur.len() > 0 && cur.len() + words[k].len() + 1 > max {
        let end = cur_start + share(cur.len(), total, seg.end_ms - seg.start_ms);
        seq![chunk(seg, next_id, cur_start, end, cur)] + split_fold(
            words,
            k + 1,
            words[k],
            end,
            seg,
            total,
            max,
            next_id + 1,
        )
    } else {
        split_fold(words, k + 1, extend(cur, words[k]), cur_start, seg, total, max, next_id)
    }
}

/// What becomes of one segment: itself, trimmed, where its trimmed text
/// has no more than `max` characters; else its chunks.
pub open spec fn split_one(seg: SegmentView, max: nat, next_id: nat) -> Seq<SegmentView> {
    let t = trim_spec(seg.text);
    if t.len() <= max {
        seq![chunk(seg, next_id, seg.start_ms, seg.end_ms, t)]
    } else {
        split_fold(words_spec(t), 0, Seq::empty(), seg.start_ms, seg, t.len(), max, next_id)
    }
}

/// The segments split in order, the result numbered from 1.
pub open spec fn split_spec(segs: Seq<SegmentView>, max: nat) -> Seq<SegmentView>
    decreases segs.len(),
{
    if segs.len() == 0 {
        Seq::empty()
    } else {
        let before = split_spec(segs.drop_last(), max);
        before + split_one(segs.last(), max, before.len() + 1)
    }
}

/// Splitting a part of the list from its start gives no more segments than
/// splitting the whole list.
pub proof fn lemma_split_prefix_len(segs: Seq<SegmentView>, max: nat, i: int)
    requires
        0 <= i <= segs.len(),
    ensures
        split_spec(segs.take(i), max).len() <= split_spec(segs, max).len(),
    decreases segs.len(),
{
    if i == segs.len() {
        assert(segs.take(i) =~= segs);
    } else {
        lemma_split_prefix_len(segs.drop_last(), max, i);
        assert(segs.drop_last().take(i) =~= segs.take(i));
    }
}

/// The length of parts joined by a separator, counted from the first part.
pub proof fn lemma_join_len_front(w: Seq<char>, rest: Seq<Seq<char>>, sep: Seq<char>)
    ensures
        join_spec(seq![w] + rest, sep).len() == w.len() + if rest.len() > 0 {
            sep.len() + join_spec(rest, sep).len()
        } else {
            0
        },
    decreases rest.len(),
{
    let all = seq![w] + rest;
    if rest.len() == 0 {
        assert(all =~= seq![w]);
    } else {
        lemma_join_len_front(w, rest.drop_last(), sep);
        assert(all.drop_last() =~= seq![w] + rest.drop_last());
        assert(all.last() == rest.last());
    }
}

/// Joining some of the parts from the start gives no more characters than
/// joining all of them.
pub proof fn lemma_join_len_prefix(parts: Seq<Seq<char>>, sep: Seq<char>, k: int)
    requires
        0 <= k <= parts.len(),
    ensures
        join_spec(parts.take(k), sep).len() <= join_spec(parts, sep).len(),
    decreases parts.len(),
{
    if k == parts.len() {
        assert(parts.take(k) =~= parts);
    } else {
        lemma_join_len_prefix(parts.drop_last(), sep, k);
        assert(parts.drop_last().take(k) =~= parts.take(k));
    }
}

/// After a word comes white space or the end of the text.
pub proof fn lemma_word_ends(s: Seq<char>)
    ensures
        word_len(s) < s.len() ==> is_whitespace_spec(s[word_len(s) as int]),
    decreases s.len(),
{
    if s.len() > 0 && !is_whitespace_spec(s[0]) {
        lemma_word_ends(s.skip(1));
        lemma_word_len_bound(s.skip(1));
    }
}

/// The words of a text, joined by single spaces, are no longer than the
/// text.
pub proof fn lemma_collapse_len(s: Seq<char>)
    ensures
        join_spec(words_spec(s), seq![' ']).len() <= s.len(),
    decreases s.len(),
{
    let sep = seq![' '];
    if s.len() == 0 {
    } else if is_whitespace_spec(s[0]) {
        lemma_collapse_len(s.skip(1));
    } else {
        let n = word_len(s) as int;
        lemma_word_len_bound(s);
        lemma_word_ends(s);
        let rest = words_spec(s.skip(n));
        lemma_join_len_front(s.take(n), rest, sep);
        if rest.len() > 0 {
            let t = s.skip(n);
            assert(t.len() > 0);
            assert(is_whitespace_spec(t[0]));
            assert(t.skip(1) =~= s.skip(n + 1));
            lemma_collapse_len(s.skip(n + 1));
        }
    }
}

/// Each piece starts where the piece before it ends.
pub open spec fn contiguous(r: Seq<SegmentView>) -> bool {
    forall|j: int| 0 <= j < r.len() - 1 ==> (#[trigger] r[j]).end_ms == r[j + 1].start_ms
}

/// Pieces that follow one another last, together, from the start of the
/// first to the end of the last.
pub proof fn lemma_contiguous_duration(r: Seq<SegmentView>)
    requires
        r.len() > 0,
        contiguous(r),
    ensures
        duration_total(r) == r.last().end_ms - r[0].start_ms,
    decreases r.len(),
{
    if r.len() > 1 {
        let before = r.drop_last();
        assert(contiguous(before)) by {
            assert forall|j: int| 0 <= j < before.len() - 1 implies (#[trigger] before[j]).end_ms
                == before[j + 1].start_ms by {
                assert(before[j] == r[j]);
                assert(r[j].end_ms == r[j + 1].start_ms);
            }
        }
        lemma_contiguous_duration(before);
        assert(before.last() == r[r.len() - 2]);
        assert(r[r.len() - 2].end_ms == r[r.len() - 1].start_ms);
        assert(before[0] == r[0]);
    } else {
        assert(duration_total(r.drop_last()) == 0);
    }
}

/// The chunks of a segment follow one another from the start of the
/// running chunk to the end of the segment.
pub proof fn lemma_split_fold_times(
    words: Seq<Seq<char>>,
    k: int,
    cur: Seq<char>,
    cur_start: int,
    seg: SegmentView,
    total: nat,
    max: nat,
    next_id: nat,
)
    requires
        all_words(words),
    ensures
        ({
            let r = split_fold(words, k, cur, cur_start, seg, total, max, next_id);
            &&& contiguous(r)
            &&& (cur.len() > 0 ==> r.len() > 0)
            &&& (r.len() > 0 ==> r[0].start_ms == cur_start && r.last().end_ms == seg.end_ms)
        }),
    decreases words.len() - k,
{
    let r = split_fold(words, k, cur, cur_start, seg, total, max, next_id);
    if k < 0 || k >= words.len() {
    } else if cur.len() > 0 && cur.len() + words[k].len() + 1 > max {
        let end = cur_start + share(cur.len(), total, seg.end_ms - seg.start_ms);
        let rest = split_fold(words, k + 1, words[k], end, seg, total, max, next_id + 1);
        lemma_split_fold_times(words, k + 1, words[k], end, seg, total, max, next_id + 1);
        assert(words[k].len() > 0);
        let first = chunk(seg, next_id, cur_start, end, cur);
        assert(r == seq![first] + rest);
        assert(r[0] == first);
        assert forall|j: int| 0 <= j < r.len() - 1 implies (#[trigger] r[j]).end_ms == r[j
            + 1].start_ms by {
            if j > 0 {
                assert(r[j] == rest[j - 1]);
                assert(r[j + 1] == rest[j]);
                assert(rest[j - 1].end_ms == rest[j].start_ms);
            } else {
                assert(r[1] == rest[0]);
            }
        }
        if rest.len() > 0 {
            assert(r.last() == rest.last());
        }
    } else {
        assert(words[k].len() > 0);
        assert(extend(cur, words[k]).len() > 0);
        lemma_split_fold_times(
            words,
            k + 1,
            extend(cur, words[k]),
            cur_start,
            seg,
            total,
            max,
            next_id,
        );
    }
}

/// A trimmed text that is not empty begins with a character that is not
/// white space.
pub proof fn lemma_trim_first(s: Seq<char>)
    ensures
        trim_spec(s).len() > 0 ==> !is_whitespace_spec(trim_spec(s)[0]),
{
    lemma_trim_start_first(s);
    lemma_trim_end_first(trim_start_spec(s));
}

/// Text trimmed at its start does not begin with white space.
proof fn lemma_trim_start_first(s: Seq<char>)
    ensures
        trim_start_spec(s).len() > 0 ==> !is_whitespace_spec(
            trim_start_spec(s)[0],
        ),
    decreases s.len(),
{
    if s.len() > 0 && is_whitespace_spec(s[0]) {
        lemma_trim_start_first(s.skip(1));
    }
}

/// Trimming the end of a text keeps its first character.
proof fn lemma_trim_end_first(s: Seq<char>)
    ensures
        trim_end_spec(s).len() > 0 ==> trim_end_spec(s)[0] == s[0],
        trim_end_spec(s).len() <= s.len(),
    decreases s.len(),
{
    if s.len() > 0 && is_whitespace_spec(s.last()) {
        lemma_trim_end_first(s.drop_last());
    }
}

/// What a segment is split into lasts as long as the segment, piece after
/// piece: there is a piece at least, the first starts where the segment
/// starts, each starts where the one before it ends, and the last ends
/// exactly where the segment ends.
pub proof fn lemma_split_covers_segment(seg: SegmentView, max: nat, next_id: nat)
    ensures
        split_one(seg, max, next_id).len() >= 1,
        split_one(seg, max, next_id)[0].start_ms == seg.start_ms,
        split_one(seg, max, next_id).last().end_ms == seg.end_ms,
        contiguous(split_one(seg, max, next_id)),
        duration_total(split_one(seg, max, next_id)) == seg.end_ms - seg.start_ms,
{
    let t = trim_spec(seg.text);
    let r = split_one(seg, max, next_id);
    if t.len() <= max {
        assert(r.len() == 1);
    } else {
        let words = words_spec(t);
        lemma_trim_first(seg.text);
        lemma_word_len_bound(t);
        lemma_words_are_words(t);
        assert(words.len() > 0);
        assert(words[0] == t.take(word_len(t) as int));
        assert(words[0].len() > 0);
        let empty = Seq::<char>::empty();
        assert(extend(empty, words[0]) == words[0]);
        assert(r == split_fold(words, 1, words[0], seg.start_ms, seg, t.len(), max, next_id));
        lemma_split_fold_times(words, 1, words[0], seg.start_ms, seg, t.len(), max, next_id);
    }
    lemma_contiguous_duration(r);
}

/// One more chunk keeps the time used within the time that its characters
/// have earned.
proof fn lemma_share_bound(moved: nat, used: nat, c: nat, total: nat, d: nat, q: nat)
    requires
        total > 0,
        moved * total <= used * d,
        used + c <= total,
        q == (c * d) / total,
    ensures
        (moved + q) * total <= (used + c) * d,
        moved + q <= d,
        q <= d,
{
    assert(q * total <= c * d) by (nonlinear_arith)
        requires
            total > 0,
            q == (c * d) / total,
    ;
    assert((moved + q) * total <= (used + c) * d) by (nonlinear_arith)
        requires
            moved * total <= used * d,
            q * total <= c * d,
    ;
    assert(moved + q <= d) by (nonlinear_arith)
        requires
            (moved + q) * total <= (used + c) * d,
            used + c <= total,
            total > 0,
    ;
}

/// A bound on the number of segments that splitting gives, whatever the
/// limit: one for each segment and one for each of its characters.
pub open spec fn chunk_budget(segs: Seq<SegmentView>) -> nat
    decreases segs.len(),
{
    if segs.len() == 0 {
        0
    } else {
        chunk_budget(segs.drop_last()) + 1 + segs.last().text.len()
    }
}

/// A part of the list from its start has no greater budget than the list.
pub proof fn lemma_chunk_budget_prefix(segs: Seq<SegmentView>, i: int)
    requires
        0 <= i <= segs.len(),
    ensures
        chunk_budget(segs.take(i)) <= chunk_budget(segs),
    decreases segs.len(),
{
    if i == segs.len() {
        assert(segs.take(i) =~= segs);
    } else {
        lemma_chunk_budget_prefix(segs.drop_last(), i);
        assert(segs.drop_last().take(i) =~= segs.take(i));
    }
}

/// A text has no more words than characters.
pub proof fn lemma_words_len(s: Seq<char>)
    ensures
        words_spec(s).len() <= s.len(),
    decreases s.len(),
{
    if s.len() == 0 {
    } else if is_whitespace_spec(s[0]) {
        lemma_words_len(s.skip(1));
    } else {
        lemma_word_len_bound(s);
        lemma_words_len(s.skip(word_len(s) as int));
    }
}

/// Trimming makes a text no longer.
pub proof fn lemma_trim_len(s: Seq<char>)
    ensures
        trim_spec(s).len() <= s.len(),
{
    lemma_trim_start_len(s);
    lemma_trim_end_first(trim_start_spec(s));
}

/// Trimming the start of a text makes it no longer.
proof fn lemma_trim_start_len(s: Seq<char>)
    ensures
        trim_start_spec(s).len() <= s.len(),
    decreases s.len(),
{
    if s.len() > 0 && is_whitespace_spec(s[0]) {
        lemma_trim_start_len(s.skip(1));
    }
}

/// Packing gives a chunk for each word that is left at most, and one for
/// the running chunk.
proof fn lemma_split_fold_len(
    words: Seq<Seq<char>>,
    k: int,
    cur: Seq<char>,
    cur_start: int,
    seg: SegmentView,
    total: nat,
    max: nat,
    next_id: nat,
)
    requires
        0 <= k <= words.len(),
    ensures
        split_fold(words, k, cur, cur_start, seg, total, max, next_id).len() <= words.len() - k
            + 1,
    decreases words.len() - k,
{
    if k >= words.len() {
    } else if cur.len() > 0 && cur.len() + words[k].len() + 1 > max {
        let end = cur_start + share(cur.len(), total, seg.end_ms - seg.start_ms);
        lemma_split_fold_len(words, k + 1, words[k], end, seg, total, max, next_id + 1);
    } else {
        lemma_split_fold_len(
            words,
            k + 1,
            extend(cur, words[k]),
            cur_start,
            seg,
            total,
            max,
            next_id,
        );
    }
}

/// Splitting gives no more segments than the budget of the list.
pub proof fn lemma_split_len_bound(segs: Seq<SegmentView>, max: nat)
    ensures
        split_spec(segs, max).len() <= chunk_budget(segs),
    decreases segs.len(),
{
    if segs.len() > 0 {
        lemma_split_len_bound(segs.drop_last(), max);
        let seg = segs.last();
        let t = trim_spec(seg.text);
        let next_id = split_spec(segs.drop_last(), max).len() + 1;
        lemma_trim_len(seg.text);
        lemma_words_len(t);
        lemma_split_fold_len(
            words_spec(t),
            0,
            Seq::empty(),
            seg.start_ms,
            seg,
            t.len(),
            max,
            next_id,
        );
    }
}

/// Whether the budget of the list fits in 32 bits. Where it does, the
/// list can be split with any limit.
pub fn split_in_range(segments: &Vec<Segment>) -> (b: bool)
    ensures
        b == (chunk_budget(segment_views(segments@)) <= u32::MAX),
        b ==> forall|max: nat|
            (#[trigger] split_spec(segment_views(segments@), max)).len() <= u32::MAX,
{
    let ghost segs = segment_views(segments@);
    let mut budget: u64 = 0;
    let mut i: usize = 0;
    assert(segs.take(0) =~= Seq::<SegmentView>::empty());
    while i < segments.len()
        invariant
            i <= segments.len(),
            segs == segment_views(segments@),
            budget == chunk_budget(segs.take(i as int)),
            budget <= u32::MAX,
        decreases segments.len() - i,
    {
        let s = &segments[i];
        let n: usize = s.text.as_str().unicode_len();
        proof {
            let upto = segs.take(i as int + 1);
            assert(upto.drop_last() =~= segs.take(i as int));
            assert(upto.last() == s@);
            lemma_chunk_budget_prefix(segs, i as int + 1);
        }
        let next: u128 = budget as u128 + 1 + n as u128;
        if next > 0xFFFF_FFFF {
            return false;
        }
        budget = next as u64;
        i += 1;
    }
    proof {
        assert(segs.take(segments.len() as int) =~= segs);
        assert forall|max: nat| (#[trigger] split_spec(segs, max)).len() <= u32::MAX by {
            lemma_split_len_bound(segs, max);
        }
    }
    true
}

/// A copy of the segment with another id, other times and another text.
fn make_chunk(seg: &Segment, id: u32, start_ms: i64, end_ms: i64, text: &Vec<char>) -> (r: Segment)
    ensures
        r@ == chunk(seg@, id as nat, start_ms as int, end_ms as int, text@),
{
    Segment {
        id,
        start_ms,
        end_ms,
        text: string_of(text),
        speaker: clone_opt(&seg.speaker),
        confidence: seg.confidence,
    }
}

/// Appends the chunks of one segment whose trimmed text `text` is longer
/// than `max_chars`.
fn split_segment(out: &mut Vec<Segment>, seg: &Segment, text: &Vec<char>, max_chars: usize)
    requires
        text@ == trim_spec(seg@.text),
        text.len() > max_chars,
        old(out).len() + split_fold(
            words_spec(text@),
            0,
            Seq::empty(),
            seg@.start_ms,
            seg@,
            text@.len(),
            max_chars as nat,
            (old(out).len() + 1) as nat,
        ).len() <= u32::MAX,
    ensures
        segment_views(final(out)@) == segment_views(old(out)@) + split_fold(
            words_spec(text@),
            0,
            Seq::empty(),
            seg@.start_ms,
            seg@,
            text@.len(),
            max_chars as nat,
            (old(out).len() + 1) as nat,
        ),
{
    let words = split_words(text);
    let ghost ws = views(words@);
    let ghost sv = seg@;
    let ghost total = text@.len();
    let ghost max = max_chars as nat;
    let ghost target = segment_views(old(out)@) + split_fold(
        ws,
        0,
        Seq::empty(),
        sv.start_ms,
        sv,
        total,
        max,
        (old(out).len() + 1) as nat,
    );
    let ghost sep = seq![' '];
    let forward: bool = seg.end_ms >= seg.start_ms;
    let span: i128 = seg.end_ms as i128 - seg.start_ms as i128;
    let d: u64 = if forward {
        span as u64
    } else {
        (-span) as u64
    };
    let t: usize = text.len();
    let mut cur: Vec<char> = Vec::new();
    let mut moved: u64 = 0;
    let mut cur_start: i64 = seg.start_ms;
    let ghost mut used: nat = 0;
    let mut k: usize = 0;
    proof {
        lemma_collapse_len(text@);
        assert(ws.take(0) =~= Seq::<Seq<char>>::empty());
    }
    while k < words.len()
        invariant
            k <= words.len(),
            ws == views(words@),
            ws == words_spec(text@),
            sv == seg@,
            total == text@.len(),
            t == text.len(),
            t > 0,
            max == max_chars as nat,
            sep == seq![' '],
            join_spec(ws, sep).len() <= total,
            forward == (seg.end_ms >= seg.start_ms),
            forward ==> d == seg.end_ms - seg.start_ms,
            !forward ==> d == seg.start_ms - seg.end_ms,
            moved <= d,
            moved * total <= used * d,
            used + cur@.len() <= join_spec(ws.take(k as int), sep).len(),
            forward ==> cur_start == seg.start_ms + moved,
            !forward ==> cur_start == seg.start_ms - moved,
            target.len() <= u32::MAX,
            segment_views(out@) + split_fold(
                ws,
                k as int,
                cur@,
                cur_start as int,
                sv,
                total,
                max,
                (out.len() + 1) as nat,
            ) == target,
        decreases words.len() - k,
    {
        let word = &words[k];
        assert(ws[k as int] == word@);
        let ghost done = segment_views(out@);
        let ghost upto = ws.take(k as int + 1);
        proof {
            assert(upto.drop_last() =~= ws.take(k as int));
            assert(upto.last() == word@);
            lemma_join_len_prefix(ws, sep, k as int + 1);
            lemma_join_len_prefix(ws, sep, k as int);
        }
        if cur.len() > 0 && cur.len() as u128 + word.len() as u128 + 1 > max_chars as u128 {
            let c: usize = cur.len();
            assert(c as u128 * d as u128 <= u64::MAX as u128 * u64::MAX as u128)
                by (nonlinear_arith)
                requires
                    c <= u64::MAX,
                    d <= u64::MAX,
            ;
            let q128: u128 = (c as u128 * d as u128) / (t as u128);
            proof {
                lemma_share_bound(moved as nat, used, c as nat, total, d as nat, q128 as nat);
            }
            let q: u64 = q128 as u64;
            let new_moved: u64 = moved + q;
            let end: i64 = if forward {
                (seg.start_ms as i128 + new_moved as i128) as i64
            } else {
                (seg.start_ms as i128 - new_moved as i128) as i64
            };
            proof {
                assert(end == cur_start + share(c as nat, total, sv.end_ms - sv.start_ms));
                let rest = split_fold(
                    ws,
                    k as int + 1,
                    word@,
                    end as int,
                    sv,
                    total,
                    max,
                    (out.len() + 2) as nat,
                );
                let piece = chunk(sv, (out.len() + 1) as nat, cur_start as int, end as int, cur@);
                assert(split_fold(
                    ws,
                    k as int,
                    cur@,
                    cur_start as int,
                    sv,
                    total,
                    max,
                    (out.len() + 1) as nat,
                ) == seq![piece] + rest);
                assert(done + (seq![piece] + rest) =~= done + seq![piece] + rest);
                assert(target.len() == done.len() + 1 + rest.len());
            }
            let id: u32 = (out.len() + 1) as u32;
            let piece = make_chunk(seg, id, cur_start, end, &cur);
            assert(segment_views(out@.push(piece)) =~= done + seq![piece@]);
            out.push(piece);
            proof {
                used = used + c as nat;
            }
            moved = new_moved;
            cur_start = end;
            cur = Vec::new();
            append(&mut cur, word);
            assert(cur@ =~= word@);
        } else {
            let ghost before = cur@;
            if cur.len() > 0 {
                cur.push(' ');
            }
            append(&mut cur, word);
            assert(cur@ =~= extend(before, word@));
        }
        k += 1;
    }
    assert(ws.take(words.len() as int) =~= ws);
    if cur.len() > 0 {
        let ghost done = segment_views(out@);
        proof {
            let piece = chunk(sv, (out.len() + 1) as nat, cur_start as int, sv.end_ms, cur@);
            assert(target == done + seq![piece]);
            assert(target.len() == done.len() + 1);
        }
        let id: u32 = (out.len() + 1) as u32;
        let piece = make_chunk(seg, id, cur_start, seg.end_ms, &cur);
        assert(segment_views(out@.push(piece)) =~= done + seq![piece@]);
        out.push(piece);
    } else {
        assert(segment_views(out@) + Seq::<SegmentView>::empty() =~= segment_views(out@));
    }
}

/// Splits each segment whose trimmed text is longer than `max_chars`
/// characters into chunks of whole words, none longer than `max_chars`
/// unless a single word is. The chunks follow one another from the
/// segment's start; each but the last lasts its share of the segment's
/// time, by its characters among those of the trimmed text, and the last
/// ends exactly where the segment ends. Other segments pass with their
/// text trimmed. The result is numbered from 1.
pub fn split_long_segments(segments: &Vec<Segment>, max_chars: usize) -> (r: Vec<Segment>)
    requires
        split_spec(segment_views(segments@), max_chars as nat).len() <= u32::MAX,
    ensures
        segment_views(r@) == split_spec(segment_views(segments@), max_chars as nat),
{
    let ghost segs = segment_views(segments@);
    let ghost max = max_chars as nat;
    let mut out: Vec<Segment> = Vec::new();
    let mut i: usize = 0;
    assert(segment_views(out@) =~= split_spec(segs.take(0), max));
    while i < segments.len()
        invariant
            i <= segments.len(),
            segs == segment_views(segments@),
            max == max_chars as nat,
            split_spec(segs, max).len() <= u32::MAX,
            segment_views(out@) == split_spec(segs.take(i as int), max),
        decreases segments.len() - i,
    {
        let seg = &segments[i];
        let ghost done = segment_views(out@);
        proof {
            let upto = segs.take(i as int + 1);
            assert(upto.drop_last() =~= segs.take(i as int));
            assert(upto.last() == seg@);
            lemma_split_prefix_len(segs, max, i as int + 1);
            assert(split_spec(upto, max) == done + split_one(seg@, max, done.len() + 1));
        }
        let text = trim(&chars_of(seg.text.as_str()));
        if text.len() <= max_chars {
            let id: u32 = (out.len() + 1) as u32;
            let piece = make_chunk(seg, id, seg.start_ms, seg.end_ms, &text);
            assert(segment_views(out@.push(piece)) =~= done + seq![piece@]);
            out.push(piece);
        } else {
            split_segment(&mut out, seg, &text, max_chars);
        }
        i += 1;
    }
    assert(segs.take(segments.len() as int) =~= segs);
    out
}

} // verus!
