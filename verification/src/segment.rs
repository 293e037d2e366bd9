//! The segment record and the rules that a segment must meet before it is
//! written as a cue.

use vstd::prelude::*;
use crate::decimal::{decimal_spec, push_decimal, push_signed, signed_decimal_spec};
use crate::error::{ErrorKind, VttError};
use crate::marks::arrow;
use crate::search::{contains, contains_spec};
use crate::text::{append_str, chars_of, is_blank, is_blank_spec, string_of};
use crate::timestamp::MAX_MILLIS;

verus! {

/// A timed unit of text. Times are whole milliseconds; a confidence is in
/// thousandths, from 0 to 1000, and counts as 1000 where it is absent.
///
/// The type holds whatever a caller puts in it: `validate_segment` tells
/// whether the value may be written.
#[derive(Debug, PartialEq, Eq)]
pub struct Segment {
    pub id: u32,
    pub start_ms: i64,
    pub end_ms: i64,
    pub text: String,
    pub speaker: Option<String>,
    pub confidence: Option<u16>,
}

/// What a segment holds, as mathematical values.
pub struct SegmentView {
    pub id: nat,
    pub start_ms: int,
    pub end_ms: int,
    pub text: Seq<char>,
    pub speaker: Option<Seq<char>>,
    pub confidence: Option<nat>,
}

/// The view of an optional string.
pub open spec fn opt_view(s: Option<String>) -> Option<Seq<char>> {
    match s {
        Some(x) => Some(x@),
        None => None,
    }
}

impl View for Segment {
    type V = SegmentView;

    open spec fn view(&self) -> SegmentView {
        SegmentView {
            id: self.id as nat,
            start_ms: self.start_ms as int,
            end_ms: self.end_ms as int,
            text: self.text@,
            speaker: opt_view(self.speaker),
            confidence: match self.confidence {
                Some(c) => Some(c as nat),
                None => None,
            },
        }
    }
}

/// The views of a sequence of segments.
pub open spec fn segment_views(v: Seq<Segment>) -> Seq<SegmentView> {
    v.map_values(|s: Segment| s@)
}

/// The sum of the durations of the segments.
pub open spec fn duration_total(segs: Seq<SegmentView>) -> int
    decreases segs.len(),
{
    if segs.len() == 0 {
        0
    } else {
        duration_total(segs.drop_last()) + (segs.last().end_ms - segs.last().start_ms)
    }
}

/// A copy of an optional string.
pub fn clone_opt(s: &Option<String>) -> (r: Option<String>)
    ensures
        opt_view(r) == opt_view(*s),
{
    match s {
        Some(x) => Some(x.clone()),
        None => None,
    }
}

impl Clone for Segment {
    fn clone(&self) -> (r: Segment)
        ensures
            r@ == self@,
    {
        Segment {
            id: self.id,
            start_ms: self.start_ms,
            end_ms: self.end_ms,
            text: self.text.clone(),
            speaker: clone_opt(&self.speaker),
            confidence: self.confidence,
        }
    }
}

impl Segment {
    /// A segment with the given id, times and text, no speaker and no
    /// confidence.
    pub fn new(id: u32, start_ms: i64, end_ms: i64, text: &str) -> (r: Segment)
        ensures
            r@ == (SegmentView {
                id: id as nat,
                start_ms: start_ms as int,
                end_ms: end_ms as int,
                text: text@,
                speaker: None,
                confidence: None,
            }),
    {
        Segment { id, start_ms, end_ms, text: text.to_owned(), speaker: None, confidence: None }
    }
}

/// The rules of a segment, in the order in which they are checked.
#[derive(Clone, Copy, Debug, PartialEq, Eq, Structural)]
pub enum SegmentFault {
    NegativeStart,
    NegativeEnd,
    EndBeforeStart,
    BeyondMaximum,
    EmptyText,
    ForbiddenArrow,
}

/// The first rule that the segment breaks, if it breaks any.
pub open spec fn first_fault(s: SegmentView) -> Option<SegmentFault> {
    if s.start_ms < 0 {
        Some(SegmentFault::NegativeStart)
    } else if s.end_ms < 0 {
        Some(SegmentFault::NegativeEnd)
    } else if s.end_ms < s.start_ms {
        Some(SegmentFault::EndBeforeStart)
    } else if s.start_ms > MAX_MILLIS || s.end_ms > MAX_MILLIS {
        Some(SegmentFault::BeyondMaximum)
    } else if is_blank_spec(s.text) {
        Some(SegmentFault::EmptyText)
    } else if contains_spec(s.text, arrow()) {
        Some(SegmentFault::ForbiddenArrow)
    } else {
        None
    }
}

/// The kind of error that a broken rule gives: a timestamp error for the
/// rules on times, a cue error for the rules on text.
pub open spec fn fault_kind(f: SegmentFault) -> ErrorKind {
    match f {
        SegmentFault::EmptyText | SegmentFault::ForbiddenArrow => ErrorKind::Cue,
        _ => ErrorKind::Timestamp,
    }
}

/// What the message says after the segment's id: the broken rule, and
/// for a rule on the order or the sign of the times the times at fault, in
/// milliseconds.
pub open spec fn fault_text(s: SegmentView, f: SegmentFault) -> Seq<char> {
    match f {
        SegmentFault::NegativeStart => ": start time cannot be negative (got "@
            + signed_decimal_spec(s.start_ms) + " ms)"@,
        SegmentFault::NegativeEnd => ": end time cannot be negative (got "@ + signed_decimal_spec(
            s.end_ms,
        ) + " ms)"@,
        SegmentFault::EndBeforeStart => ": end time ("@ + signed_decimal_spec(s.end_ms)
            + " ms) must be >= start time ("@ + signed_decimal_spec(s.start_ms) + " ms)"@,
        SegmentFault::BeyondMaximum => ": timestamp exceeds maximum allowed value (99:59:59.999)"@,
        SegmentFault::EmptyText => ": cue text cannot be empty"@,
        SegmentFault::ForbiddenArrow => ": cue text contains forbidden substring '-->'"@,
    }
}

/// The message of the error: the segment's id, then the broken rule.
pub open spec fn fault_message(s: SegmentView, f: SegmentFault) -> Seq<char> {
    "Segment "@ + decimal_spec(s.id) + fault_text(s, f)
}

/// The error that stands for the rule `f`, broken by the segment `s`.
pub open spec fn is_fault_error(e: VttError, s: SegmentView, f: SegmentFault) -> bool {
    e.kind == fault_kind(f) && e.message@ == fault_message(s, f)
}

/// The first rule that the segment breaks, if it breaks any.
pub fn find_fault(segment: &Segment) -> (r: Option<SegmentFault>)
    ensures
        r == first_fault(segment@),
{
    if segment.start_ms < 0 {
        return Some(SegmentFault::NegativeStart);
    }
    if segment.end_ms < 0 {
        return Some(SegmentFault::NegativeEnd);
    }
    if segment.end_ms < segment.start_ms {
        return Some(SegmentFault::EndBeforeStart);
    }
    if segment.start_ms > 359_999_999 || segment.end_ms > 359_999_999 {
        return Some(SegmentFault::BeyondMaximum);
    }
    let text = chars_of(segment.text.as_str());
    if is_blank(&text) {
        return Some(SegmentFault::EmptyText);
    }
    let pat: Vec<char> = vec!['-', '-', '>'];
    assert(pat@ =~= arrow());
    if contains(&text, &pat) {
        return Some(SegmentFault::ForbiddenArrow);
    }
    None
}

/// The error that stands for the rule `f`, broken by `segment`.
pub fn fault_error(segment: &Segment, f: SegmentFault) -> (e: VttError)
    ensures
        is_fault_error(e, segment@, f),
{
    let mut msg: Vec<char> = Vec::new();
    append_str(&mut msg, "Segment ");
    push_decimal(&mut msg, segment.id as u64);
    let kind = match f {
        SegmentFault::NegativeStart => {
            append_str(&mut msg, ": start time cannot be negative (got ");
            push_signed(&mut msg, segment.start_ms);
            append_str(&mut msg, " ms)");
            ErrorKind::Timestamp
        },
        SegmentFault::NegativeEnd => {
            append_str(&mut msg, ": end time cannot be negative (got ");
            push_signed(&mut msg, segment.end_ms);
            append_str(&mut msg, " ms)");
            ErrorKind::Timestamp
        },
        SegmentFault::EndBeforeStart => {
            append_str(&mut msg, ": end time (");
            push_signed(&mut msg, segment.end_ms);
            append_str(&mut msg, " ms) must be >= start time (");
            push_signed(&mut msg, segment.start_ms);
            append_str(&mut msg, " ms)");
            ErrorKind::Timestamp
        },
        SegmentFault::BeyondMaximum => {
            append_str(&mut msg, ": timestamp exceeds maximum allowed value (99:59:59.999)");
            ErrorKind::Timestamp
        },
        SegmentFault::EmptyText => {
            append_str(&mut msg, ": cue text cannot be empty");
            ErrorKind::Cue
        },
        SegmentFault::ForbiddenArrow => {
            append_str(&mut msg, ": cue text contains forbidden substring '-->'");
            ErrorKind::Cue
        },
    };
    assert(msg@ =~= fault_message(segment@, f));
    VttError { kind, message: string_of(&msg) }
}

/// Checks one segment against the rules, in their order, and reports the
/// first one broken: a negative start, a negative end, an end before the
/// start, a time beyond 99:59:59.999 (timestamp errors); text that is empty
/// once trimmed, text that holds `-->` (cue errors). The segment is left as
/// it is.
pub fn validate_segment(segment: &Segment) -> (r: Result<(), VttError>)
    ensures
        match r {
            Ok(_) => first_fault(segment@) is None,
            Err(e) => first_fault(segment@) is Some && is_fault_error(
                e,
                segment@,
                first_fault(segment@)->Some_0,
            ),
        },
{
    match find_fault(segment) {
        Some(f) => Err(fault_error(segment, f)),
        None => Ok(()),
    }
}

/// Every segment of `s` before index `n` meets the rules.
pub open spec fn all_valid_before(s: Seq<SegmentView>, n: int) -> bool {
    forall|j: int| 0 <= j < n ==> first_fault(#[trigger] s[j]) is None
}

/// Checks the segments in order and reports the first broken rule of the
/// first segment that breaks one.
pub fn validate_segments(segments: &Vec<Segment>) -> (r: Result<(), VttError>)
    ensures
        match r {
            Ok(_) => all_valid_before(segment_views(segments@), segments.len() as int),
            Err(e) => exists|i: int|
                0 <= i < segments.len() && all_valid_before(segment_views(segments@), i)
                    && first_fault(#[trigger] segment_views(segments@)[i]) is Some
                    && is_fault_error(
                    e,
                    segment_views(segments@)[i],
                    first_fault(segment_views(segments@)[i])->Some_0,
                ),
        },
{
    let mut i: usize = 0;
    while i < segments.len()
        invariant
            i <= segments.len(),
            all_valid_before(segment_views(segments@), i as int),
        decreases segments.len() - i,
    {
        assert(segment_views(segments@)[i as int] == segments@[i as int]@);
        match validate_segment(&segments[i]) {
            Ok(_) => {},
            Err(e) => {
                return Err(e);
            },
        }
        i += 1;
    }
    Ok(())
}

} // verus!
