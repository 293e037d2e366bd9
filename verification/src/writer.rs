//! The serializer: the header block and one cue block per segment.

use vstd::prelude::*;
use vstd::string::StringExecFns;
use crate::decimal::{decimal_spec, push_decimal};
use crate::escape::{escape_chars, escape_spec};
use crate::marks::{nl, signature, timing_separator};
use crate::segment::{opt_view, segment_views, Segment, SegmentView};
use crate::text::{
    append, append_str, chars_of, collapse, collapse_spec, string_of, trim, trim_spec,
};
use crate::timestamp::{format_spec, push_timestamp};

verus! {

/// How a file is written.
#[derive(Debug)]
pub struct VttConfig {
    /// Replace `&`, `<` and `>` in cue text by their entities.
    pub escape_special_chars: bool,
    /// Write `MM:SS.mmm` where the hours are zero.
    pub use_short_timestamps: bool,
    /// Put cue text on one line, with single spaces between its words.
    pub flatten_newlines: bool,
    /// Text to follow `WEBVTT` on the first line.
    pub header_text: Option<String>,
    /// Lines of `key: value` to follow the first line, in this order.
    pub metadata: Vec<(String, String)>,
}

impl Default for VttConfig {
    fn default() -> (r: VttConfig)
        ensures
            r.escape_special_chars,
            !r.use_short_timestamps,
            r.flatten_newlines,
            r.header_text is None,
            r.metadata@.len() == 0,
    {
        VttConfig {
            escape_special_chars: true,
            use_short_timestamps: false,
            flatten_newlines: true,
            header_text: None,
            metadata: Vec::new(),
        }
    }
}

/// The views of key and value pairs.
pub open spec fn pair_views(m: Seq<(String, String)>) -> Seq<(Seq<char>, Seq<char>)> {
    m.map_values(|p: (String, String)| (p.0@, p.1@))
}

/// The first line of a file.
pub open spec fn signature_line(header_text: Option<Seq<char>>) -> Seq<char> {
    match header_text {
        Some(t) => signature() + seq![' ', '-', ' '] + t + nl(),
        None => signature() + nl(),
    }
}

/// One line of `key: value` per pair, in order.
pub open spec fn metadata_lines(m: Seq<(Seq<char>, Seq<char>)>) -> Seq<char>
    decreases m.len(),
{
    if m.len() == 0 {
        Seq::empty()
    } else {
        metadata_lines(m.drop_last()) + m.last().0 + seq![':', ' '] + m.last().1 + nl()
    }
}

/// The header block: the first line, the metadata lines, an empty line.
pub open spec fn header_spec(
    header_text: Option<Seq<char>>,
    m: Seq<(Seq<char>, Seq<char>)>,
) -> Seq<char> {
    signature_line(header_text) + metadata_lines(m) + nl()
}

/// Cue text as it is written: on one line with single spaces where
/// `flatten` is set, else trimmed; then escaped where `escape` is set.
pub open spec fn prepare_spec(text: Seq<char>, flatten: bool, escape: bool) -> Seq<char> {
    let clean = if flatten {
        collapse_spec(text)
    } else {
        trim_spec(text)
    };
    if escape {
        escape_spec(clean)
    } else {
        clean
    }
}

/// A time as it is written: a negative one as zero.
pub open spec fn clamp_spec(t: int) -> nat {
    if t < 0 {
        0
    } else {
        t as nat
    }
}

/// The timing line of a segment moved by `offset`, without its line feed.
pub open spec fn timing_spec(s: SegmentView, offset: int, short: bool) -> Seq<char> {
    format_spec(clamp_spec(s.start_ms + offset), short) + timing_separator() + format_spec(
        clamp_spec(s.end_ms + offset),
        short,
    )
}

/// One cue block: the index, the timing line, the text, an empty line.
pub open spec fn cue_block(
    index: nat,
    s: SegmentView,
    offset: int,
    short: bool,
    flatten: bool,
    escape: bool,
) -> Seq<char> {
    decimal_spec(index) + nl() + timing_spec(s, offset, short) + nl() + prepare_spec(
        s.text,
        flatten,
        escape,
    ) + nl() + nl()
}

/// The cue blocks of the segments in order, numbered from `first`.
pub open spec fn cue_blocks(
    segs: Seq<SegmentView>,
    offset: int,
    first: nat,
    short: bool,
    flatten: bool,
    escape: bool,
) -> Seq<char>
    decreases segs.len(),
{
    if segs.len() == 0 {
        Seq::empty()
    } else {
        cue_blocks(segs.drop_last(), offset, first, short, flatten, escape) + cue_block(
            first + (segs.len() - 1) as nat,
            segs.last(),
            offset,
            short,
            flatten,
            escape,
        )
    }
}

/// The time base after the segments: moved on by the end of the last one.
pub open spec fn next_offset(segs: Seq<SegmentView>, offset: int) -> int {
    if segs.len() == 0 {
        offset
    } else {
        offset + segs.last().end_ms
    }
}

/// Every time of the segments, moved by `offset`, fits in 64 bits.
pub open spec fn shifted_times_fit(segs: Seq<SegmentView>, offset: int) -> bool {
    forall|i: int|
        0 <= i < segs.len() ==> i64::MIN <= (#[trigger] segs[i]).start_ms + offset <= i64::MAX
            && i64::MIN <= segs[i].end_ms + offset <= i64::MAX
}

/// Whether every time of the segments, moved by `offset`, fits in 64 bits:
/// what `write_segments_to_vtt` asks of its caller.
pub fn times_fit(segments: &Vec<Segment>, offset: i64) -> (b: bool)
    ensures
        b == shifted_times_fit(segment_views(segments@), offset as int),
{
    let ghost segs = segment_views(segments@);
    let mut i: usize = 0;
    while i < segments.len()
        invariant
            i <= segments.len(),
            segs == segment_views(segments@),
            shifted_times_fit(segs.take(i as int), offset as int),
        decreases segments.len() - i,
    {
        let s = &segments[i];
        assert(segs[i as int] == s@);
        let start: i128 = s.start_ms as i128 + offset as i128;
        let end: i128 = s.end_ms as i128 + offset as i128;
        if start < -0x8000_0000_0000_0000i128 || start > 0x7FFF_FFFF_FFFF_FFFFi128 || end
            < -0x8000_0000_0000_0000i128 || end > 0x7FFF_FFFF_FFFF_FFFFi128 {
            return false;
        }
        assert forall|k: int| 0 <= k < i + 1 implies i64::MIN <= (#[trigger] segs.take(
            i as int + 1,
        )[k]).start_ms + offset <= i64::MAX && i64::MIN <= segs.take(i as int + 1)[k].end_ms
            + offset <= i64::MAX by {
            if k < i {
                assert(segs.take(i as int)[k] == segs[k]);
            }
        }
        i += 1;
    }
    assert(segs.take(segments.len() as int) =~= segs);
    true
}

/// Cue text as it is written.
pub fn prepare_chars(text: &Vec<char>, flatten: bool, escape: bool) -> (r: Vec<char>)
    ensures
        r@ == prepare_spec(text@, flatten, escape),
{
    let clean = if flatten {
        collapse(text)
    } else {
        trim(text)
    };
    if escape {
        escape_chars(&clean)
    } else {
        clean
    }
}

/// Cleans cue text for writing: with `flatten_newlines`, line feeds,
/// carriage returns and tabs become spaces and runs of white space one
/// space; without it the text is only trimmed. Then, with
/// `escape_special_chars`, `&`, `<` and `>` are replaced by their entities.
pub fn prepare_cue_text(text: &str, config: &VttConfig) -> (r: String)
    ensures
        r@ == prepare_spec(text@, config.flatten_newlines, config.escape_special_chars),
{
    let v = chars_of(text);
    let p = prepare_chars(&v, config.flatten_newlines, config.escape_special_chars);
    string_of(&p)
}

/// Appends the header block to `output`: `WEBVTT`, with ` - ` and the
/// header text where there is one; a line `key: value` for each metadata
/// pair in order; an empty line.
pub fn write_vtt_header(output: &mut String, config: &VttConfig)
    ensures
        final(output)@ == old(output)@ + header_spec(
            opt_view(config.header_text),
            pair_views(config.metadata@),
        ),
{
    let mut buf: Vec<char> = vec!['W', 'E', 'B', 'V', 'T', 'T'];
    assert(buf@ =~= signature());
    match &config.header_text {
        Some(t) => {
            buf.push(' ');
            buf.push('-');
            buf.push(' ');
            append_str(&mut buf, t.as_str());
        },
        None => {},
    }
    buf.push('\n');
    assert(buf@ =~= signature_line(opt_view(config.header_text)));
    let ghost first = buf@;
    let ghost pairs = pair_views(config.metadata@);
    let mut i: usize = 0;
    while i < config.metadata.len()
        invariant
            i <= config.metadata.len(),
            pairs == pair_views(config.metadata@),
            buf@ == first + metadata_lines(pairs.take(i as int)),
        decreases config.metadata.len() - i,
    {
        let ghost before = buf@;
        append_str(&mut buf, config.metadata[i].0.as_str());
        buf.push(':');
        buf.push(' ');
        append_str(&mut buf, config.metadata[i].1.as_str());
        buf.push('\n');
        proof {
            let upto = pairs.take(i as int + 1);
            assert(upto.drop_last() =~= pairs.take(i as int));
            assert(upto.last() == (config.metadata@[i as int].0@, config.metadata@[i as int].1@));
            assert(buf@ =~= first + metadata_lines(upto));
        }
        i += 1;
    }
    assert(pairs.take(config.metadata.len() as int) =~= pairs);
    buf.push('\n');
    let s = string_of(&buf);
    output.append(s.as_str());
    assert(final(output)@ =~= old(output)@ + header_spec(opt_view(config.header_text), pairs));
}

/// A time as it is written.
fn clamp(t: i64) -> (r: u64)
    ensures
        r == clamp_spec(t as int),
{
    if t < 0 {
        0
    } else {
        t as u64
    }
}

/// Appends the timing line of a segment to `buf`, without its line feed.
fn push_timing(buf: &mut Vec<char>, segment: &Segment, offset: i64, short: bool)
    requires
        i64::MIN <= segment.start_ms + offset <= i64::MAX,
        i64::MIN <= segment.end_ms + offset <= i64::MAX,
    ensures
        final(buf)@ == old(buf)@ + timing_spec(segment@, offset as int, short),
{
    let mut line: Vec<char> = Vec::new();
    push_timestamp(&mut line, clamp(segment.start_ms + offset), short);
    let ghost a = line@;
    let sep: Vec<char> = vec![' ', '-', '-', '>', ' '];
    assert(sep@ =~= timing_separator());
    append(&mut line, &sep);
    let ghost b = line@;
    push_timestamp(&mut line, clamp(segment.end_ms + offset), short);
    assert(a =~= format_spec(clamp_spec(segment@.start_ms + offset), short));
    assert(line@ == timing_spec(segment@, offset as int, short));
    append(buf, &line);
}

/// Appends one cue block to `buf`.
fn push_cue_block(
    buf: &mut Vec<char>,
    index: usize,
    segment: &Segment,
    offset: i64,
    config: &VttConfig,
)
    requires
        i64::MIN <= segment.start_ms + offset <= i64::MAX,
        i64::MIN <= segment.end_ms + offset <= i64::MAX,
    ensures
        final(buf)@ == old(buf)@ + cue_block(
            index as nat,
            segment@,
            offset as int,
            config.use_short_timestamps,
            config.flatten_newlines,
            config.escape_special_chars,
        ),
{
    let mut block: Vec<char> = Vec::new();
    push_decimal(&mut block, index as u64);
    block.push('\n');
    let ghost a = block@;
    assert(a =~= decimal_spec(index as nat) + nl());
    push_timing(&mut block, segment, offset, config.use_short_timestamps);
    block.push('\n');
    let ghost b = block@;
    assert(b =~= a + timing_spec(segment@, offset as int, config.use_short_timestamps) + nl());
    let text = chars_of(segment.text.as_str());
    let clean = prepare_chars(&text, config.flatten_newlines, config.escape_special_chars);
    append(&mut block, &clean);
    block.push('\n');
    block.push('\n');
    assert(block@ =~= b + clean@ + nl() + nl());
    assert(block@ == cue_block(
        index as nat,
        segment@,
        offset as int,
        config.use_short_timestamps,
        config.flatten_newlines,
        config.escape_special_chars,
    ));
    append(buf, &block);
}

/// Appends one cue block per segment to `output`, in order: the index,
/// counted up from `starting_index`; the start and the end, each moved by
/// `offset`; the cleaned text; an empty line. Returns the index after the
/// last one written, and the time base for a batch to follow: `offset`
/// moved on by the end of the last segment, or `offset` itself where there
/// is no segment.
pub fn write_segments_to_vtt(
    segments: &Vec<Segment>,
    offset: i64,
    starting_index: usize,
    output: &mut String,
    config: &VttConfig,
) -> (r: (usize, i64))
    requires
        starting_index + segments.len() <= usize::MAX,
        shifted_times_fit(segment_views(segments@), offset as int),
    ensures
        final(output)@ == old(output)@ + cue_blocks(
            segment_views(segments@),
            offset as int,
            starting_index as nat,
            config.use_short_timestamps,
            config.flatten_newlines,
            config.escape_special_chars,
        ),
        r.0 == starting_index + segments.len(),
        r.1 == next_offset(segment_views(segments@), offset as int),
{
    let ghost segs = segment_views(segments@);
    let ghost short = config.use_short_timestamps;
    let ghost flatten = config.flatten_newlines;
    let ghost escape = config.escape_special_chars;
    let mut buf: Vec<char> = Vec::new();
    let mut i: usize = 0;
    while i < segments.len()
        invariant
            i <= segments.len(),
            starting_index + segments.len() <= usize::MAX,
            segs == segment_views(segments@),
            shifted_times_fit(segs, offset as int),
            short == config.use_short_timestamps,
            flatten == config.flatten_newlines,
            escape == config.escape_special_chars,
            buf@ == cue_blocks(
                segs.take(i as int),
                offset as int,
                starting_index as nat,
                short,
                flatten,
                escape,
            ),
        decreases segments.len() - i,
    {
        assert(segs[i as int] == segments@[i as int]@);
        push_cue_block(&mut buf, starting_index + i, &segments[i], offset, config);
        proof {
            let upto = segs.take(i as int + 1);
            assert(upto.drop_last() =~= segs.take(i as int));
            assert(upto.last() == segments@[i as int]@);
        }
        i += 1;
    }
    assert(segs.take(segments.len() as int) =~= segs);
    let s = string_of(&buf);
    output.append(s.as_str());
    let n: usize = segments.len();
    let total = if n > 0 {
        assert(segs[n - 1] == segments@[n - 1]@);
        offset + segments[n - 1].end_ms
    } else {
        offset
    };
    (starting_index + n, total)
}

} // verus!
