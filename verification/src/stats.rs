//! Statistics over a list of segments, in whole numbers: times in
//! milliseconds, averages and rates in thousandths.

use vstd::prelude::*;
use crate::segment::{duration_total, segment_views, Segment, SegmentView};
use crate::text::{chars_of, split_words, trim_bounds, trim_spec, words_spec};

verus! {

/// The figures of a list of segments.
#[derive(Clone, Copy, Debug, PartialEq, Eq, Structural)]
pub struct SegmentStats {
    /// The sum of the segments' durations.
    pub total_duration_ms: i64,
    pub num_segments: usize,
    /// The mean duration, rounded toward zero.
    pub avg_duration_ms: i64,
    /// The number of words, counted in each text as its runs of characters
    /// other than white space.
    pub total_words: u64,
    /// The number of characters of the trimmed texts.
    pub total_chars: u64,
    /// A thousand times the mean number of words of a segment, rounded down.
    pub avg_words_per_segment_milli: u64,
    /// A thousand times the mean number of characters of a segment, rounded
    /// down.
    pub avg_chars_per_segment_milli: u64,
    /// A thousand times the words per second, rounded down; zero where the
    /// total duration is not positive.
    pub words_per_second_milli: u64,
}

/// The sum of the positive durations.
pub open spec fn gain_total(segs: Seq<SegmentView>) -> nat
    decreases segs.len(),
{
    if segs.len() == 0 {
        0
    } else {
        let d = segs.last().end_ms - segs.last().start_ms;
        gain_total(segs.drop_last()) + if d > 0 {
            d as nat
        } else {
            0
        }
    }
}

/// The sum of the negative durations, as a positive number.
pub open spec fn loss_total(segs: Seq<SegmentView>) -> nat
    decreases segs.len(),
{
    if segs.len() == 0 {
        0
    } else {
        let d = segs.last().end_ms - segs.last().start_ms;
        loss_total(segs.drop_last()) + if d < 0 {
            (-d) as nat
        } else {
            0
        }
    }
}

/// The number of words of all texts.
pub open spec fn word_total(segs: Seq<SegmentView>) -> nat
    decreases segs.len(),
{
    if segs.len() == 0 {
        0
    } else {
        word_total(segs.drop_last()) + words_spec(segs.last().text).len()
    }
}

/// The number of characters of all texts, each trimmed.
pub open spec fn char_total(segs: Seq<SegmentView>) -> nat
    decreases segs.len(),
{
    if segs.len() == 0 {
        0
    } else {
        char_total(segs.drop_last()) + trim_spec(segs.last().text).len()
    }
}

/// The quotient rounded toward zero.
pub open spec fn quotient_toward_zero(a: int, b: int) -> int
    recommends
        b > 0,
{
    if a >= 0 {
        a / b
    } else {
        -((-a) / b)
    }
}

/// The mean duration, rounded toward zero; zero for no segment.
pub open spec fn mean_duration(total: int, n: nat) -> int {
    if n == 0 {
        0
    } else {
        quotient_toward_zero(total, n as int)
    }
}

/// A thousand times the mean of `total` over `n` segments, rounded down;
/// zero for no segment.
pub open spec fn mean_milli(total: nat, n: nat) -> int {
    if n == 0 {
        0
    } else {
        (total * 1_000) as int / (n as int)
    }
}

/// A thousand times the words per second, rounded down; zero where the
/// duration is not positive.
pub open spec fn rate_milli(words: nat, duration_ms: int) -> int {
    if duration_ms > 0 {
        (words * 1_000_000) as int / duration_ms
    } else {
        0
    }
}

/// The totals, and the products from which the averages are taken, fit in
/// 64 bits.
pub open spec fn stats_fit(segs: Seq<SegmentView>) -> bool {
    &&& i64::MIN <= duration_total(segs) <= i64::MAX
    &&& word_total(segs) * 1_000_000 <= u64::MAX
    &&& char_total(segs) * 1_000 <= u64::MAX
}

/// The total duration is what was gained less what was lost.
pub proof fn lemma_duration_parts(segs: Seq<SegmentView>)
    ensures
        duration_total(segs) == gain_total(segs) - loss_total(segs),
    decreases segs.len(),
{
    if segs.len() > 0 {
        lemma_duration_parts(segs.drop_last());
    }
}

/// A running total stays in 128 bits over any list that a machine holds.
proof fn lemma_running_total(acc: nat, term: nat, i: nat, n: nat)
    requires
        acc <= i * 0xFFFF_FFFF_FFFF_FFFF,
        term <= 0xFFFF_FFFF_FFFF_FFFF,
        i < n <= 0xFFFF_FFFF_FFFF_FFFF,
    ensures
        acc + term <= (i + 1) * 0xFFFF_FFFF_FFFF_FFFF,
        acc + term <= u128::MAX,
{
    assert(acc + term <= (i + 1) * 0xFFFF_FFFF_FFFF_FFFF) by (nonlinear_arith)
        requires
            acc <= i * 0xFFFF_FFFF_FFFF_FFFF,
            term <= 0xFFFF_FFFF_FFFF_FFFF,
    ;
    assert((i + 1) * 0xFFFF_FFFF_FFFF_FFFF <= 0xFFFF_FFFF_FFFF_FFFF * 0xFFFF_FFFF_FFFF_FFFF)
        by (nonlinear_arith)
        requires
            i + 1 <= 0xFFFF_FFFF_FFFF_FFFF,
    ;
}

/// What was gained, what was lost, the words and the characters, in total.
fn totals(segments: &Vec<Segment>) -> (r: (u128, u128, u128, u128))
    ensures
        r.0 == gain_total(segment_views(segments@)),
        r.1 == loss_total(segment_views(segments@)),
        r.2 == word_total(segment_views(segments@)),
        r.3 == char_total(segment_views(segments@)),
{
    let ghost segs = segment_views(segments@);
    let n: usize = segments.len();
    let mut gain: u128 = 0;
    let mut loss: u128 = 0;
    let mut words: u128 = 0;
    let mut chars: u128 = 0;
    let mut i: usize = 0;
    assert(segs.take(0) =~= Seq::<SegmentView>::empty());
    while i < n
        invariant
            i <= n,
            n == segments.len(),
            segs == segment_views(segments@),
            gain == gain_total(segs.take(i as int)),
            loss == loss_total(segs.take(i as int)),
            words == word_total(segs.take(i as int)),
            chars == char_total(segs.take(i as int)),
            gain <= i * 0xFFFF_FFFF_FFFF_FFFF,
            loss <= i * 0xFFFF_FFFF_FFFF_FFFF,
            words <= i * 0xFFFF_FFFF_FFFF_FFFF,
            chars <= i * 0xFFFF_FFFF_FFFF_FFFF,
        decreases n - i,
    {
        let s = &segments[i];
        proof {
            let upto = segs.take(i as int + 1);
            assert(upto.drop_last() =~= segs.take(i as int));
            assert(upto.last() == s@);
        }
        let d: i128 = s.end_ms as i128 - s.start_ms as i128;
        let up: u128 = if d > 0 {
            d as u128
        } else {
            0
        };
        let down: u128 = if d < 0 {
            (-d) as u128
        } else {
            0
        };
        let text = chars_of(s.text.as_str());
        let w: usize = split_words(&text).len();
        let (a, b) = trim_bounds(&text);
        let c: usize = b - a;
        proof {
            lemma_running_total(gain as nat, up as nat, i as nat, n as nat);
            lemma_running_total(loss as nat, down as nat, i as nat, n as nat);
            lemma_running_total(words as nat, w as nat, i as nat, n as nat);
            lemma_running_total(chars as nat, c as nat, i as nat, n as nat);
        }
        gain = gain + up;
        loss = loss + down;
        words = words + w as u128;
        chars = chars + c as u128;
        i += 1;
    }
    assert(segs.take(n as int) =~= segs);
    (gain, loss, words, chars)
}

/// Whether the totals of the segments, and the products from which the
/// averages are taken, fit in 64 bits: what `get_segments_stats` asks of
/// its caller.
pub fn stats_in_range(segments: &Vec<Segment>) -> (b: bool)
    ensures
        b == stats_fit(segment_views(segments@)),
{
    let (gain, loss, words, chars) = totals(segments);
    proof {
        lemma_duration_parts(segment_views(segments@));
    }
    let duration_fits = if gain >= loss {
        gain - loss <= 0x7FFF_FFFF_FFFF_FFFF
    } else {
        loss - gain <= 0x8000_0000_0000_0000
    };
    duration_fits && words <= 0xFFFF_FFFF_FFFF_FFFF / 1_000_000 && chars <= 0xFFFF_FFFF_FFFF_FFFF
        / 1_000
}

/// The figures of the segments: the total and the mean duration, the
/// number of segments, the words and the characters in total and in the
/// mean, and the words per second. A list without segments has zero for
/// each.
pub fn get_segments_stats(segments: &Vec<Segment>) -> (r: SegmentStats)
    requires
        stats_fit(segment_views(segments@)),
    ensures
        r.num_segments == segments.len(),
        r.total_duration_ms == duration_total(segment_views(segments@)),
        r.total_words == word_total(segment_views(segments@)),
        r.total_chars == char_total(segment_views(segments@)),
        r.avg_duration_ms == mean_duration(
            duration_total(segment_views(segments@)),
            segments@.len(),
        ),
        r.avg_words_per_segment_milli == mean_milli(
            word_total(segment_views(segments@)),
            segments@.len(),
        ),
        r.avg_chars_per_segment_milli == mean_milli(
            char_total(segment_views(segments@)),
            segments@.len(),
        ),
        r.words_per_second_milli == rate_milli(
            word_total(segment_views(segments@)),
            duration_total(segment_views(segments@)),
        ),
{
    let n: usize = segments.len();
    let (gain, loss, words, chars) = totals(segments);
    proof {
        lemma_duration_parts(segment_views(segments@));
    }
    let total: i64 = if gain >= loss {
        (gain - loss) as i64
    } else {
        let m: u128 = loss - gain;
        (-(m as i128)) as i64
    };
    if n == 0 {
        return SegmentStats {
            total_duration_ms: 0,
            num_segments: 0,
            avg_duration_ms: 0,
            total_words: 0,
            total_chars: 0,
            avg_words_per_segment_milli: 0,
            avg_chars_per_segment_milli: 0,
            words_per_second_milli: 0,
        };
    }
    let avg_duration: i64 = if gain >= loss {
        ((gain - loss) / n as u128) as i64
    } else {
        let m: u128 = (loss - gain) / n as u128;
        (-(m as i128)) as i64
    };
    let avg_words: u64 = (words * 1_000 / n as u128) as u64;
    let avg_chars: u64 = (chars * 1_000 / n as u128) as u64;
    let rate: u64 = if total > 0 {
        (words * 1_000_000 / total as u128) as u64
    } else {
        0
    };
    SegmentStats {
        total_duration_ms: total,
        num_segments: n,
        avg_duration_ms: avg_duration,
        total_words: words as u64,
        total_chars: chars as u64,
        avg_words_per_segment_milli: avg_words,
        avg_chars_per_segment_milli: avg_chars,
        words_per_second_milli: rate,
    }
}

} // verus!
