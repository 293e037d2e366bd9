//! Removal of phrases that a speaker repeats at once.

use vstd::prelude::*;
use crate::letters::{same_letters, same_letters_exec};
use crate::segment::{clone_opt, segment_views, Segment, SegmentView};
use crate::text::{chars_of, join, join_spec, split_words, string_of, views, words_spec};

verus! {

/// The `len` words at `at` repeat the `len` words at `p`, but for the case
/// of ASCII letters.
pub open spec fn block_repeats(words: Seq<Seq<char>>, p: int, len: int, at: int) -> bool {
    &&& len >= 1
    &&& 0 <= p <= at
    &&& at + len <= words.len()
    &&& forall|t: int| 0 <= t < len ==> same_letters(#[trigger] words[at + t], words[p + t])
}

/// How many times in a row, from `at` on, the phrase of `len` words at `p`
/// stands.
pub open spec fn repeat_count(words: Seq<Seq<char>>, p: int, len: int, at: int) -> nat
    decreases words.len() - at,
{
    if block_repeats(words, p, len, at) {
        1 + repeat_count(words, p, len, at + len)
    } else {
        0
    }
}

/// The index after the last of the repeats that stand in a row from `at`
/// on.
pub open spec fn repeats_end(words: Seq<Seq<char>>, p: int, len: int, at: int) -> int
    decreases words.len() - at,
{
    if block_repeats(words, p, len, at) {
        repeats_end(words, p, len, at + len)
    } else {
        at
    }
}

/// The phrase of `len` words at `p` stands often enough in a row to be
/// cut down to one: `min_repetitions` times, and once at least.
pub open spec fn qualifies(words: Seq<Seq<char>>, p: int, len: int, min_repetitions: nat) -> bool {
    repeat_count(words, p, len, p) >= min_repetitions && repeat_count(words, p, len, p) >= 1
}

/// The longest phrase length from `len` down that qualifies at `p`, or
/// zero where none does.
pub open spec fn chosen_len(words: Seq<Seq<char>>, p: int, len: nat, min_repetitions: nat) -> nat
    decreases len,
{
    if len == 0 {
        0
    } else if qualifies(words, p, len as int, min_repetitions) {
        len
    } else {
        chosen_len(words, p, (len - 1) as nat, min_repetitions)
    }
}

/// The words from `p` on with repeated phrases cut down to one instance.
/// At each place the longest phrase that qualifies is kept once and its
/// repeats are passed over; where none qualifies the word is kept.
pub open spec fn dedupe_from(
    words: Seq<Seq<char>>,
    p: int,
    max_phrase_words: nat,
    min_repetitions: nat,
) -> Seq<Seq<char>>
    decreases words.len() - p,
    via dedupe_from_decreases
{
    if p < 0 || p >= words.len() {
        Seq::empty()
    } else {
        let len = chosen_len(words, p, max_phrase_words, min_repetitions);
        if len > 0 {
            words.subrange(p, p + len) + dedupe_from(
                words,
                repeats_end(words, p, len as int, p),
                max_phrase_words,
                min_repetitions,
            )
        } else {
            seq![words[p]] + dedupe_from(words, p + 1, max_phrase_words, min_repetitions)
        }
    }
}

#[via_fn]
proof fn dedupe_from_decreases(
    words: Seq<Seq<char>>,
    p: int,
    max_phrase_words: nat,
    min_repetitions: nat,
) {
    if 0 <= p < words.len() {
        let len = chosen_len(words, p, max_phrase_words, min_repetitions);
        if len > 0 {
            lemma_chosen_len(words, p, max_phrase_words, min_repetitions);
            lemma_repeats_end(words, p, len as int, p);
        }
    }
}

/// A chosen length qualifies, and is no more than the length from which
/// the search went down.
pub proof fn lemma_chosen_len(words: Seq<Seq<char>>, p: int, len: nat, min_repetitions: nat)
    ensures
        chosen_len(words, p, len, min_repetitions) <= len,
        chosen_len(words, p, len, min_repetitions) > 0 ==> qualifies(
            words,
            p,
            chosen_len(words, p, len, min_repetitions) as int,
            min_repetitions,
        ),
    decreases len,
{
    if len > 0 && !qualifies(words, p, len as int, min_repetitions) {
        lemma_chosen_len(words, p, (len - 1) as nat, min_repetitions);
    }
}

/// The repeats end within the words, and after `at` where there is one.
pub proof fn lemma_repeats_end(words: Seq<Seq<char>>, p: int, len: int, at: int)
    requires
        at <= words.len(),
    ensures
        at <= repeats_end(words, p, len, at) <= words.len(),
        repeat_count(words, p, len, at) >= 1 ==> repeats_end(words, p, len, at) >= at + len
            && len >= 1,
    decreases words.len() - at,
{
    if block_repeats(words, p, len, at) {
        lemma_repeats_end(words, p, len, at + len);
    }
}

/// A phrase longer than the words that are left does not qualify.
pub proof fn lemma_chosen_len_cap(words: Seq<Seq<char>>, p: int, len: nat, min_repetitions: nat)
    requires
        0 <= p <= words.len(),
        len >= words.len() - p,
    ensures
        chosen_len(words, p, len, min_repetitions) == chosen_len(
            words,
            p,
            (words.len() - p) as nat,
            min_repetitions,
        ),
    decreases len,
{
    if len > words.len() - p {
        assert(!block_repeats(words, p, len as int, p));
        lemma_chosen_len_cap(words, p, (len - 1) as nat, min_repetitions);
    }
}

/// Whether the `len` words at `at` repeat the `len` words at `p`.
fn block_repeats_at(words: &Vec<Vec<char>>, p: usize, len: usize, at: usize) -> (b: bool)
    requires
        len >= 1,
        p <= at <= words.len(),
        p + len <= words.len(),
    ensures
        b == block_repeats(views(words@), p as int, len as int, at as int),
{
    let ghost ws = views(words@);
    if len > words.len() - at {
        return false;
    }
    let mut t: usize = 0;
    while t < len
        invariant
            t <= len,
            ws == views(words@),
            p <= at,
            at + len <= words.len(),
            forall|k: int| 0 <= k < t ==> same_letters(#[trigger] ws[at + k], ws[p + k]),
        decreases len - t,
    {
        assert(ws[at + t] == words@[at + t]@);
        assert(ws[p + t] == words@[p + t]@);
        if !same_letters_exec(&words[at + t], &words[p + t]) {
            return false;
        }
        t += 1;
    }
    true
}

/// How often the phrase of `len` words at `p` stands in a row, and where
/// its repeats end.
fn count_repeats(words: &Vec<Vec<char>>, p: usize, len: usize) -> (r: (usize, usize))
    requires
        len >= 1,
        p + len <= words.len(),
    ensures
        r.0 == repeat_count(views(words@), p as int, len as int, p as int),
        r.1 == repeats_end(views(words@), p as int, len as int, p as int),
        p <= r.1 <= words.len(),
{
    let ghost ws = views(words@);
    let mut count: usize = 0;
    let mut at: usize = p;
    while block_repeats_at(words, p, len, at)
        invariant
            len >= 1,
            p <= at <= words.len(),
            p + len <= words.len(),
            ws == views(words@),
            count <= at - p,
            repeat_count(ws, p as int, len as int, p as int) == count + repeat_count(
                ws,
                p as int,
                len as int,
                at as int,
            ),
            repeats_end(ws, p as int, len as int, p as int) == repeats_end(
                ws,
                p as int,
                len as int,
                at as int,
            ),
        decreases words.len() - at,
    {
        count += 1;
        at += len;
    }
    (count, at)
}

/// The words with repeated phrases cut down to one instance.
pub fn dedupe_words(words: &Vec<Vec<char>>, min_repetitions: usize, max_phrase_words: usize) -> (r:
    Vec<Vec<char>>)
    ensures
        views(r@) == dedupe_from(views(words@), 0, max_phrase_words as nat, min_repetitions as nat),
{
    let ghost ws = views(words@);
    let ghost max = max_phrase_words as nat;
    let ghost min = min_repetitions as nat;
    let n: usize = words.len();
    let mut out: Vec<Vec<char>> = Vec::new();
    let mut p: usize = 0;
    assert(views(out@) =~= Seq::empty());
    assert(Seq::<Seq<char>>::empty() + dedupe_from(ws, 0, max, min) =~= dedupe_from(
        ws,
        0,
        max,
        min,
    ));
    while p < n
        invariant
            p <= n,
            n == words.len(),
            ws == views(words@),
            max == max_phrase_words as nat,
            min == min_repetitions as nat,
            views(out@) + dedupe_from(ws, p as int, max, min) == dedupe_from(ws, 0, max, min),
        decreases n - p,
    {
        let start: usize = if max_phrase_words < n - p {
            max_phrase_words
        } else {
            n - p
        };
        proof {
            if max_phrase_words >= n - p {
                lemma_chosen_len_cap(ws, p as int, max, min);
            }
        }
        let mut len: usize = start;
        let mut end: usize = p;
        let mut found: bool = false;
        while len > 0 && !found
            invariant
                p < n,
                n == words.len(),
                ws == views(words@),
                len <= n - p,
                min == min_repetitions as nat,
                !found ==> chosen_len(ws, p as int, max, min) == chosen_len(
                    ws,
                    p as int,
                    len as nat,
                    min,
                ),
                found ==> len > 0 && chosen_len(ws, p as int, max, min) == len && end
                    == repeats_end(ws, p as int, len as int, p as int) && p < end <= n,
            decreases len + if found { 0int } else { 1int },
        {
            let (count, stop) = count_repeats(words, p, len);
            if count >= min_repetitions && count >= 1 {
                proof {
                    lemma_repeats_end(ws, p as int, len as int, p as int);
                }
                found = true;
                end = stop;
            } else {
                len -= 1;
            }
        }
        let ghost done = views(out@);
        if found {
            let ghost rest = dedupe_from(ws, end as int, max, min);
            let mut t: usize = 0;
            while t < len
                invariant
                    t <= len,
                    p + len <= n,
                    n == words.len(),
                    ws == views(words@),
                    views(out@) == done + ws.subrange(p as int, p + t),
                decreases len - t,
            {
                let w = words[p + t].clone();
                assert(w@ == ws[p + t]);
                assert(views(out@.push(w)) =~= views(out@).push(w@));
                assert(ws.subrange(p as int, p + t + 1) =~= ws.subrange(p as int, p + t).push(
                    ws[p + t],
                ));
                out.push(w);
                t += 1;
            }
            assert(done + (ws.subrange(p as int, p + len) + rest) =~= done + ws.subrange(
                p as int,
                p + len,
            ) + rest);
            p = end;
        } else {
            let ghost rest = dedupe_from(ws, p as int + 1, max, min);
            let w = words[p].clone();
            assert(w@ == ws[p as int]);
            assert(views(out@.push(w)) =~= done + seq![w@]);
            assert(done + (seq![w@] + rest) =~= done + seq![w@] + rest);
            out.push(w);
            p += 1;
        }
    }
    assert(views(out@) + Seq::<Seq<char>>::empty() =~= views(out@));
    out
}

/// The text with repeated phrases cut down to one instance, its words
/// joined by single spaces.
pub open spec fn dedupe_text(text: Seq<char>, max_phrase_words: nat, min_repetitions: nat) -> Seq<
    char,
> {
    join_spec(dedupe_from(words_spec(text), 0, max_phrase_words, min_repetitions), seq![' '])
}

/// The segments, each with its text cleaned of repeats.
pub open spec fn dedupe_spec(
    segs: Seq<SegmentView>,
    max_phrase_words: nat,
    min_repetitions: nat,
) -> Seq<SegmentView> {
    segs.map_values(
        |s: SegmentView|
            SegmentView { text: dedupe_text(s.text, max_phrase_words, min_repetitions), ..s },
    )
}

/// Cuts phrases that stand several times in a row down to one instance.
/// Each text is read word by word. At each word the phrase lengths from
/// `max_phrase_words` down to 1 are tried: where the phrase of that length
/// stands `min_repetitions` times or more in a row, the case of ASCII
/// letters set aside, it is kept once and its repeats are passed over;
/// where no length serves, the word is kept. Ids and times stay as they
/// are; the words that are left are joined by single spaces.
pub fn remove_repeated_phrases(
    segments: &Vec<Segment>,
    min_repetitions: usize,
    max_phrase_words: usize,
) -> (r: Vec<Segment>)
    ensures
        segment_views(r@) == dedupe_spec(
            segment_views(segments@),
            max_phrase_words as nat,
            min_repetitions as nat,
        ),
{
    let ghost segs = segment_views(segments@);
    let ghost target = dedupe_spec(segs, max_phrase_words as nat, min_repetitions as nat);
    let mut out: Vec<Segment> = Vec::new();
    let mut i: usize = 0;
    assert(segment_views(out@) =~= target.take(0));
    while i < segments.len()
        invariant
            i <= segments.len(),
            segs == segment_views(segments@),
            target == dedupe_spec(segs, max_phrase_words as nat, min_repetitions as nat),
            segment_views(out@) == target.take(i as int),
        decreases segments.len() - i,
    {
        let s = &segments[i];
        assert(segs[i as int] == s@);
        let words = split_words(&chars_of(s.text.as_str()));
        let kept = dedupe_words(&words, min_repetitions, max_phrase_words);
        let sep: Vec<char> = vec![' '];
        assert(sep@ =~= seq![' ']);
        let text = join(&kept, &sep);
        let cleaned = Segment {
            id: s.id,
            start_ms: s.start_ms,
            end_ms: s.end_ms,
            text: string_of(&text),
            speaker: clone_opt(&s.speaker),
            confidence: s.confidence,
        };
        assert(cleaned@ == target[i as int]);
        assert(segment_views(out@.push(cleaned)) =~= segment_views(out@).push(cleaned@));
        assert(target.take(i as int + 1) =~= target.take(i as int).push(target[i as int]));
        out.push(cleaned);
        i += 1;
    }
    assert(target.take(segments.len() as int) =~= target);
    out
}

} // verus!
