//! Removal of filler words and phrases.

use vstd::prelude::*;
use vstd::string::StringExecFns;
use crate::letters::{is_word_char, same_letters, same_letters_at, word_char};
use crate::segment::{clone_opt, segment_views, Segment, SegmentView};
use crate::text::{
    chars_of, chars_of_all, collapse, collapse_spec, string_of, string_views, views,
};
use crate::transform::with_id;

verus! {

/// The fillers that are removed where the caller names none.
pub open spec fn default_fillers_spec() -> Seq<Seq<char>> {
    seq![
        "um"@,
        "uh"@,
        "er"@,
        "ah"@,
        "like"@,
        "you know"@,
        "i mean"@,
        "sort of"@,
        "kind of"@,
        "basically"@,
        "actually"@,
        "literally"@,
    ]
}

/// The fillers that are removed where the caller names none.
pub fn default_fillers() -> (r: Vec<String>)
    ensures
        string_views(r@) == default_fillers_spec(),
{
    let mut r: Vec<String> = Vec::new();
    r.push(String::from_str("um"));
    r.push(String::from_str("uh"));
    r.push(String::from_str("er"));
    r.push(String::from_str("ah"));
    r.push(String::from_str("like"));
    r.push(String::from_str("you know"));
    r.push(String::from_str("i mean"));
    r.push(String::from_str("sort of"));
    r.push(String::from_str("kind of"));
    r.push(String::from_str("basically"));
    r.push(String::from_str("actually"));
    r.push(String::from_str("literally"));
    assert(string_views(r@) =~= default_fillers_spec());
    r
}

/// The filler stands at `i` as a whole word: its characters stand there,
/// the case of ASCII letters set aside, and neither the character before
/// it nor the one after it is a letter, a digit or an underscore.
pub open spec fn filler_at(s: Seq<char>, i: int, filler: Seq<char>) -> bool {
    &&& filler.len() > 0
    &&& 0 <= i
    &&& i + filler.len() <= s.len()
    &&& same_letters(s.subrange(i, i + filler.len()), filler)
    &&& (i == 0 || !is_word_char(s[i - 1]))
    &&& (i + filler.len() == s.len() || !is_word_char(s[i + filler.len()]))
}

/// The text from `i` on without the filler, its occurrences taken from the
/// left.
pub open spec fn strip_from(s: Seq<char>, i: int, filler: Seq<char>) -> Seq<char>
    decreases s.len() - i,
{
    if i < 0 || i >= s.len() {
        Seq::empty()
    } else if filler_at(s, i, filler) {
        strip_from(s, i + filler.len(), filler)
    } else {
        seq![s[i]] + strip_from(s, i + 1, filler)
    }
}

/// The text without the fillers, one filler after the other in their
/// order.
pub open spec fn strip_all(s: Seq<char>, fillers: Seq<Seq<char>>) -> Seq<char>
    decreases fillers.len(),
{
    if fillers.len() == 0 {
        s
    } else {
        strip_from(strip_all(s, fillers.drop_last()), 0, fillers.last())
    }
}

/// The text without the fillers, with single spaces between its words.
pub open spec fn cleaned_text(s: Seq<char>, fillers: Seq<Seq<char>>) -> Seq<char> {
    collapse_spec(strip_all(s, fillers))
}

/// The segment with its text cleaned.
pub open spec fn cleaned(s: SegmentView, fillers: Seq<Seq<char>>) -> SegmentView {
    SegmentView { text: cleaned_text(s.text, fillers), ..s }
}

/// Every segment with its text cleaned, its id and times as they were.
pub open spec fn cleaned_all(segs: Seq<SegmentView>, fillers: Seq<Seq<char>>) -> Seq<SegmentView> {
    segs.map_values(|s: SegmentView| cleaned(s, fillers))
}

/// The segments whose cleaned text is not empty, numbered from 1.
pub open spec fn cleaned_kept(segs: Seq<SegmentView>, fillers: Seq<Seq<char>>) -> Seq<SegmentView>
    decreases segs.len(),
{
    if segs.len() == 0 {
        Seq::empty()
    } else {
        let before = cleaned_kept(segs.drop_last(), fillers);
        if cleaned_text(segs.last().text, fillers).len() == 0 {
            before
        } else {
            before.push(with_id(cleaned(segs.last(), fillers), before.len() + 1))
        }
    }
}

/// The fillers that a call removes: those it names, or the default ones.
pub open spec fn fillers_of(fillers: Option<Vec<String>>) -> Seq<Seq<char>> {
    match fillers {
        Some(f) => string_views(f@),
        None => default_fillers_spec(),
    }
}

/// Whether the filler stands at `i` as a whole word.
fn is_filler_at(text: &Vec<char>, i: usize, filler: &Vec<char>) -> (b: bool)
    requires
        i < text.len(),
    ensures
        b == filler_at(text@, i as int, filler@),
{
    let m: usize = filler.len();
    if m == 0 || m > text.len() - i {
        return false;
    }
    if !same_letters_at(text, i, filler) {
        return false;
    }
    if i > 0 && word_char(text[i - 1]) {
        return false;
    }
    if i + m < text.len() && word_char(text[i + m]) {
        return false;
    }
    true
}

/// The text without the filler.
pub fn strip_filler(text: &Vec<char>, filler: &Vec<char>) -> (r: Vec<char>)
    ensures
        r@ == strip_from(text@, 0, filler@),
{
    let n: usize = text.len();
    let mut out: Vec<char> = Vec::new();
    let mut i: usize = 0;
    assert(Seq::<char>::empty() + strip_from(text@, 0, filler@) =~= strip_from(text@, 0, filler@));
    while i < n
        invariant
            i <= n,
            n == text.len(),
            out@ + strip_from(text@, i as int, filler@) == strip_from(text@, 0, filler@),
        decreases n - i,
    {
        let ghost done = out@;
        if is_filler_at(text, i, filler) {
            i += filler.len();
        } else {
            let ghost rest = strip_from(text@, i as int + 1, filler@);
            assert(done + (seq![text@[i as int]] + rest) =~= done.push(text@[i as int]) + rest);
            out.push(text[i]);
            i += 1;
        }
    }
    assert(out@ + Seq::<char>::empty() =~= out@);
    out
}

/// The text without the fillers, with single spaces between its words.
pub fn clean_text(text: &Vec<char>, fillers: &Vec<Vec<char>>) -> (r: Vec<char>)
    ensures
        r@ == cleaned_text(text@, views(fillers@)),
{
    let ghost all = views(fillers@);
    let mut cur: Vec<char> = text.clone();
    let mut k: usize = 0;
    assert(cur@ == text@);
    assert(all.take(0) =~= Seq::<Seq<char>>::empty());
    while k < fillers.len()
        invariant
            k <= fillers.len(),
            all == views(fillers@),
            cur@ == strip_all(text@, all.take(k as int)),
        decreases fillers.len() - k,
    {
        proof {
            let upto = all.take(k as int + 1);
            assert(upto.drop_last() =~= all.take(k as int));
            assert(upto.last() == fillers@[k as int]@);
        }
        cur = strip_filler(&cur, &fillers[k]);
        k += 1;
    }
    assert(all.take(fillers.len() as int) =~= all);
    collapse(&cur)
}

/// Removes filler words and phrases from the texts: those of `fillers`,
/// or the default ones where it is `None`. A filler is removed wherever it
/// stands as a whole word, the case of ASCII letters set aside; the
/// fillers are taken one after the other, and at the end runs of white
/// space become single spaces. With `preserve_timing` every segment is
/// kept, with its id and times, even where its text is now empty. Without
/// it the segments whose text is now empty are dropped and the others
/// numbered from 1.
pub fn remove_filler_words(
    segments: &Vec<Segment>,
    fillers: &Option<Vec<String>>,
    preserve_timing: bool,
) -> (r: Vec<Segment>)
    requires
        !preserve_timing ==> segments.len() <= u32::MAX,
    ensures
        segment_views(r@) == if preserve_timing {
            cleaned_all(segment_views(segments@), fillers_of(*fillers))
        } else {
            cleaned_kept(segment_views(segments@), fillers_of(*fillers))
        },
{
    let ghost segs = segment_views(segments@);
    let ghost list = fillers_of(*fillers);
    let patterns: Vec<Vec<char>> = match fillers {
        Some(f) => chars_of_all(f),
        None => {
            let d = default_fillers();
            chars_of_all(&d)
        },
    };
    assert(views(patterns@) == list);
    let mut out: Vec<Segment> = Vec::new();
    let mut i: usize = 0;
    assert(segment_views(out@) =~= cleaned_all(segs, list).take(0));
    assert(segment_views(out@) =~= cleaned_kept(segs.take(0), list));
    while i < segments.len()
        invariant
            i <= segments.len(),
            !preserve_timing ==> segments.len() <= u32::MAX,
            out.len() <= i,
            segs == segment_views(segments@),
            list == views(patterns@),
            segment_views(out@) == if preserve_timing {
                cleaned_all(segs, list).take(i as int)
            } else {
                cleaned_kept(segs.take(i as int), list)
            },
        decreases segments.len() - i,
    {
        let s = &segments[i];
        let ghost done = segment_views(out@);
        proof {
            let upto = segs.take(i as int + 1);
            assert(upto.drop_last() =~= segs.take(i as int));
            assert(upto.last() == s@);
            assert(cleaned_all(segs, list).take(i as int + 1) =~= cleaned_all(segs, list).take(
                i as int,
            ).push(cleaned(s@, list)));
        }
        let text = clean_text(&chars_of(s.text.as_str()), &patterns);
        if preserve_timing || text.len() > 0 {
            let id: u32 = if preserve_timing {
                s.id
            } else {
                (out.len() + 1) as u32
            };
            let kept = Segment {
                id,
                start_ms: s.start_ms,
                end_ms: s.end_ms,
                text: string_of(&text),
                speaker: clone_opt(&s.speaker),
                confidence: s.confidence,
            };
            assert(segment_views(out@.push(kept)) =~= done.push(kept@));
            out.push(kept);
        }
        i += 1;
    }
    assert(segs.take(segments.len() as int) =~= segs);
    assert(cleaned_all(segs, list).take(segments.len() as int) =~= cleaned_all(segs, list));
    out
}

} // verus!
