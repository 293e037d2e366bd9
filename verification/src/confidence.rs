//! Filtering and marking of segments by the recognizer's confidence.

use vstd::prelude::*;
use crate::segment::{segment_views, Segment, SegmentView};
use crate::transform::with_id;

verus! {

/// What becomes of a segment below the threshold.
#[derive(Clone, Copy, Debug, PartialEq, Eq, Structural)]
pub enum ConfidenceMode {
    /// It is dropped, and the others are numbered anew.
    Remove,
    /// It is kept and flagged.
    Mark,
}

/// A segment with the flag that tells whether its confidence is low.
#[derive(Debug, PartialEq, Eq)]
pub struct MarkedSegment {
    pub segment: Segment,
    pub low_confidence: bool,
}

impl View for MarkedSegment {
    type V = (SegmentView, bool);

    open spec fn view(&self) -> (SegmentView, bool) {
        (self.segment@, self.low_confidence)
    }
}

/// The views of a sequence of marked segments.
pub open spec fn marked_views(v: Seq<MarkedSegment>) -> Seq<(SegmentView, bool)> {
    v.map_values(|m: MarkedSegment| m@)
}

/// The confidence of a segment in thousandths: full where none is given.
pub open spec fn confidence_of(s: SegmentView) -> nat {
    match s.confidence {
        Some(c) => c,
        None => 1000,
    }
}

/// The segments at or above the threshold, in order and numbered from 1,
/// none of them flagged.
pub open spec fn confident_spec(segs: Seq<SegmentView>, min: nat) -> Seq<(SegmentView, bool)>
    decreases segs.len(),
{
    if segs.len() == 0 {
        Seq::empty()
    } else {
        let before = confident_spec(segs.drop_last(), min);
        if confidence_of(segs.last()) < min {
            before
        } else {
            before.push((with_id(segs.last(), before.len() + 1), false))
        }
    }
}

/// Every segment as it is, flagged where it is below the threshold.
pub open spec fn flagged_spec(segs: Seq<SegmentView>, min: nat) -> Seq<(SegmentView, bool)> {
    segs.map_values(|s: SegmentView| (s, confidence_of(s) < min))
}

/// Holds each segment's confidence, given in thousandths, against
/// `min_confidence`; a segment without one has full confidence. The order
/// of the segments stays as it is. In the mode `Remove` the segments below
/// `min_confidence` are dropped and the others numbered from 1. In the
/// mode `Mark` every segment is kept with its id, and those below
/// `min_confidence` are flagged.
pub fn filter_by_confidence(
    segments: &Vec<Segment>,
    min_confidence: u16,
    mode: ConfidenceMode,
) -> (r: Vec<MarkedSegment>)
    requires
        mode == ConfidenceMode::Remove ==> segments.len() <= u32::MAX,
    ensures
        marked_views(r@) == match mode {
            ConfidenceMode::Remove => confident_spec(
                segment_views(segments@),
                min_confidence as nat,
            ),
            ConfidenceMode::Mark => flagged_spec(segment_views(segments@), min_confidence as nat),
        },
{
    let ghost segs = segment_views(segments@);
    let ghost min = min_confidence as nat;
    let mut out: Vec<MarkedSegment> = Vec::new();
    let mut i: usize = 0;
    assert(marked_views(out@) =~= confident_spec(segs.take(0), min));
    assert(marked_views(out@) =~= flagged_spec(segs, min).take(0));
    while i < segments.len()
        invariant
            i <= segments.len(),
            mode == ConfidenceMode::Remove ==> segments.len() <= u32::MAX,
            out.len() <= i,
            segs == segment_views(segments@),
            min == min_confidence as nat,
            marked_views(out@) == match mode {
                ConfidenceMode::Remove => confident_spec(segs.take(i as int), min),
                ConfidenceMode::Mark => flagged_spec(segs, min).take(i as int),
            },
        decreases segments.len() - i,
    {
        let s = &segments[i];
        let ghost done = marked_views(out@);
        proof {
            let upto = segs.take(i as int + 1);
            assert(upto.drop_last() =~= segs.take(i as int));
            assert(upto.last() == s@);
            assert(flagged_spec(segs, min).take(i as int + 1) =~= flagged_spec(segs, min).take(
                i as int,
            ).push((s@, confidence_of(s@) < min)));
        }
        let confidence: u16 = match s.confidence {
            Some(c) => c,
            None => 1000,
        };
        let low = confidence < min_confidence;
        match mode {
            ConfidenceMode::Remove => {
                if !low {
                    let c = s.clone();
                    let kept = MarkedSegment {
                        segment: Segment {
                            id: (out.len() + 1) as u32,
                            start_ms: c.start_ms,
                            end_ms: c.end_ms,
                            text: c.text,
                            speaker: c.speaker,
                            confidence: c.confidence,
                        },
                        low_confidence: false,
                    };
                    assert(kept@ == (with_id(s@, (out.len() + 1) as nat), false));
                    assert(marked_views(out@.push(kept)) =~= done.push(kept@));
                    out.push(kept);
                }
            },
            ConfidenceMode::Mark => {
                let kept = MarkedSegment { segment: s.clone(), low_confidence: low };
                assert(marked_views(out@.push(kept)) =~= done.push(kept@));
                out.push(kept);
            },
        }
        i += 1;
    }
    assert(segs.take(segments.len() as int) =~= segs);
    assert(flagged_spec(segs, min).take(segments.len() as int) =~= flagged_spec(segs, min));
    out
}

} // verus!
