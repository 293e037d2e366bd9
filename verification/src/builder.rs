//! Whole documents: a file built from one batch of segments, comment and
//! style blocks, and a plain transcript.

use vstd::prelude::*;
use vstd::string::StringExecFns;
use crate::error::VttError;
use crate::lines::{lines_spec, split_lines};
use crate::marks::nl;
use crate::segment::{
    all_valid_before, first_fault, is_fault_error, segment_views, validate_segments, Segment,
    SegmentView,
};
use crate::text::{append, chars_of, string_of, string_views, trim, trim_spec, views};
use crate::writer::{
    cue_blocks, header_spec, pair_views, shifted_times_fit, write_segments_to_vtt,
    write_vtt_header, VttConfig,
};

verus! {

/// A file of the segments, written with the default settings but for
/// escaping: the bare header, then the cues, numbered from 1, at their own
/// times.
pub open spec fn document_spec(segs: Seq<SegmentView>, escape: bool) -> Seq<char> {
    header_spec(None, Seq::empty()) + cue_blocks(segs, 0, 1, false, true, escape)
}

/// Builds a file from one batch of segments. With `validate`, the segments
/// are checked first, and the first broken rule is returned in place of a
/// file.
pub fn build_vtt_string(segments: &Vec<Segment>, escape_text: bool, validate: bool) -> (r: Result<
    String,
    VttError,
>)
    requires
        segments.len() < usize::MAX,
    ensures
        match r {
            Ok(s) => (validate ==> all_valid_before(
                segment_views(segments@),
                segments.len() as int,
            )) && s@ == document_spec(segment_views(segments@), escape_text),
            Err(e) => validate && exists|i: int|
                0 <= i < segments.len() && all_valid_before(segment_views(segments@), i)
                    && first_fault(#[trigger] segment_views(segments@)[i]) is Some
                    && is_fault_error(
                    e,
                    segment_views(segments@)[i],
                    first_fault(segment_views(segments@)[i])->Some_0,
                ),
        },
{
    if validate {
        match validate_segments(segments) {
            Ok(_) => {},
            Err(e) => {
                return Err(e);
            },
        }
    }
    let config = VttConfig {
        escape_special_chars: escape_text,
        use_short_timestamps: false,
        flatten_newlines: true,
        header_text: None,
        metadata: Vec::new(),
    };
    let mut out = String::new();
    write_vtt_header(&mut out, &config);
    assert(pair_views(config.metadata@) =~= Seq::empty());
    assert(shifted_times_fit(segment_views(segments@), 0));
    let ghost head = out@;
    write_segments_to_vtt(segments, 0, 1, &mut out, &config);
    assert(head =~= header_spec(None, Seq::empty()));
    Ok(out)
}

/// Each line followed by a line feed.
pub open spec fn lines_text(lines: Seq<Seq<char>>) -> Seq<char>
    decreases lines.len(),
{
    if lines.len() == 0 {
        Seq::empty()
    } else {
        lines_text(lines.drop_last()) + lines.last() + nl()
    }
}

/// A block: its keyword on a line, the lines of its body, an empty line.
pub open spec fn block_spec(keyword: Seq<char>, body: Seq<char>) -> Seq<char> {
    keyword + nl() + lines_text(lines_spec(body)) + nl()
}

/// Appends a block to `output`.
fn write_block(keyword: &Vec<char>, body: &str, output: &mut String)
    ensures
        final(output)@ == old(output)@ + block_spec(keyword@, body@),
{
    let mut buf: Vec<char> = Vec::new();
    append(&mut buf, keyword);
    buf.push('\n');
    let ghost head = buf@;
    let body_chars = chars_of(body);
    let lines = split_lines(&body_chars);
    let ghost all = views(lines@);
    let mut i: usize = 0;
    assert(lines_text(all.take(0)) =~= Seq::<char>::empty());
    assert(head + Seq::<char>::empty() =~= head);
    while i < lines.len()
        invariant
            i <= lines.len(),
            all == views(lines@),
            buf@ == head + lines_text(all.take(i as int)),
        decreases lines.len() - i,
    {
        append(&mut buf, &lines[i]);
        buf.push('\n');
        proof {
            let upto = all.take(i as int + 1);
            assert(upto.drop_last() =~= all.take(i as int));
            assert(upto.last() == lines@[i as int]@);
            assert(buf@ =~= head + lines_text(upto));
        }
        i += 1;
    }
    assert(all.take(lines.len() as int) =~= all);
    buf.push('\n');
    let s = string_of(&buf);
    output.append(s.as_str());
    assert(final(output)@ =~= old(output)@ + block_spec(keyword@, body@));
}

/// The keyword of a comment block.
pub open spec fn note_keyword() -> Seq<char> {
    seq!['N', 'O', 'T', 'E']
}

/// The keyword of a style block.
pub open spec fn style_keyword() -> Seq<char> {
    seq!['S', 'T', 'Y', 'L', 'E']
}

/// Appends a comment block to `output`: `NOTE`, the lines of the note, an
/// empty line.
pub fn write_note_block(note: &str, output: &mut String)
    ensures
        final(output)@ == old(output)@ + block_spec(note_keyword(), note@),
{
    let k: Vec<char> = vec!['N', 'O', 'T', 'E'];
    assert(k@ =~= note_keyword());
    write_block(&k, note, output);
}

/// Appends a style block to `output`: `STYLE`, the lines of the style
/// sheet, an empty line.
pub fn write_style_block(css: &str, output: &mut String)
    ensures
        final(output)@ == old(output)@ + block_spec(style_keyword(), css@),
{
    let k: Vec<char> = vec!['S', 'T', 'Y', 'L', 'E'];
    assert(k@ =~= style_keyword());
    write_block(&k, css, output);
}

/// One transcript as it is written: trimmed and ended by a line feed, and
/// followed by an empty line unless it is the last.
pub open spec fn transcript_part_spec(text: Seq<char>, is_last: bool) -> Seq<char> {
    if is_last {
        trim_spec(text) + nl()
    } else {
        trim_spec(text) + nl() + nl()
    }
}

/// What has been written after the first `k` transcripts.
pub open spec fn transcript_upto(parts: Seq<Seq<char>>, k: int) -> Seq<char>
    decreases k,
{
    if k <= 0 || k > parts.len() {
        Seq::empty()
    } else {
        transcript_upto(parts, k - 1) + transcript_part_spec(parts[k - 1], k == parts.len())
    }
}

/// The transcripts, each trimmed and on a line of its own, with an empty
/// line between each two neighbours.
pub open spec fn transcript_spec(parts: Seq<Seq<char>>) -> Seq<char> {
    transcript_upto(parts, parts.len() as int)
}

/// One transcript as it is written: trimmed and ended by a line feed, and
/// followed by an empty line unless it is the last.
pub fn transcript_part(transcript: &str, is_last: bool) -> (r: String)
    ensures
        r@ == transcript_part_spec(transcript@, is_last),
{
    let mut buf = trim(&chars_of(transcript));
    buf.push('\n');
    if !is_last {
        buf.push('\n');
    }
    assert(buf@ =~= transcript_part_spec(transcript@, is_last));
    string_of(&buf)
}

/// Joins the transcripts of several sources into one text: each trimmed
/// and ended by a line feed, with an empty line between each two.
pub fn build_transcript(transcripts: &Vec<String>) -> (r: String)
    ensures
        r@ == transcript_spec(string_views(transcripts@)),
{
    let ghost parts = string_views(transcripts@);
    let n: usize = transcripts.len();
    let mut out = String::new();
    let mut i: usize = 0;
    while i < n
        invariant
            i <= n,
            n == transcripts.len(),
            parts == string_views(transcripts@),
            out@ == transcript_upto(parts, i as int),
        decreases n - i,
    {
        assert(parts[i as int] == transcripts@[i as int]@);
        let part = transcript_part(transcripts[i].as_str(), i + 1 == n);
        out.append(part.as_str());
        i += 1;
    }
    out
}

} // verus!
