//! The writer and the validator agree: what the one writes, the other
//! accepts.

use vstd::prelude::*;
use crate::builder::document_spec;
use crate::decimal::{decimal_spec, lemma_decimal};
use crate::escape::{expand, lemma_escape_expands, piece};
use crate::lines::{lemma_lines_concat, lemma_one_line, lines_spec, no_line_feed};
use crate::marks::{arrow, nl, signature, timing_separator};
use crate::search::{contains_spec, lemma_find_absent, lemma_find_at, starts_with_spec};
use crate::segment::SegmentView;
use crate::text::{
    all_words, collapse_spec, is_blank_spec, is_digit_spec, is_whitespace_spec, join_spec,
    lemma_word_len_whole, lemma_words_are_words, no_space, trim_end_spec, trim_spec,
    trim_start_spec, words_spec,
};
use crate::timestamp::{
    format_spec, lead_is_minutes, lead_part, lemma_format_then_parse, millis_part,
    seconds_part, valid_timestamp_spec,
};
use crate::validator::{
    cue_head, file_fault, first_word, is_block_start, scan_cues, skip_block, strip_bom,
    valid_header_spec, valid_timing_spec, FileFault,
};
use crate::writer::{
    clamp_spec, cue_block, cue_blocks, metadata_lines, prepare_spec, timing_spec,
};

verus! {

/// Text that stands on a line of its own and fills it: not empty, without
/// a line feed, with no white space at either end.
pub open spec fn fills_line(s: Seq<char>) -> bool {
    &&& s.len() > 0
    &&& !is_whitespace_spec(s[0])
    &&& !is_whitespace_spec(s.last())
    &&& no_line_feed(s)
}

/// Text with no white space at either end is its own trimmed form.
pub proof fn lemma_trim_fixed(s: Seq<char>)
    requires
        s.len() > 0,
        !is_whitespace_spec(s[0]),
        !is_whitespace_spec(s.last()),
    ensures
        trim_spec(s) == s,
{
}

/// The characters of a timestamp: digits, colons and one full stop.
pub open spec fn timestamp_chars(s: Seq<char>) -> bool {
    forall|i: int|
        0 <= i < s.len() ==> (is_digit_spec(#[trigger] s[i]) || s[i] == ':' || s[i] == '.')
}

/// A timestamp holds digits, colons and a full stop, and begins and ends
/// with a digit.
pub proof fn lemma_timestamp_chars(s: Seq<char>)
    requires
        valid_timestamp_spec(s),
    ensures
        timestamp_chars(s),
        s.len() >= 9,
        is_digit_spec(s[0]),
        is_digit_spec(s.last()),
{
    let n = s.len() as int;
    let p = lead_part(s);
    assert forall|i: int| 0 <= i < n implies (is_digit_spec(#[trigger] s[i]) || s[i] == ':' || s[i]
        == '.') by {
        if i >= n - 3 {
            assert(millis_part(s)[i - (n - 3)] == s[i]);
        } else if i == n - 4 {
        } else if i >= n - 6 {
            assert(seconds_part(s)[i - (n - 6)] == s[i]);
        } else if i == n - 7 {
        } else {
            assert(p[i] == s[i]);
            if lead_is_minutes(p) {
            } else {
                let m = p.len() as int;
                if i >= m - 2 {
                    assert(p.subrange(m - 2, m)[i - (m - 2)] == p[i]);
                } else if i == m - 3 {
                } else {
                    assert(p.take(m - 3)[i] == p[i]);
                }
            }
        }
    }
    assert(millis_part(s)[2] == s[n - 1]);
    assert(p[0] == s[0]);
    if !lead_is_minutes(p) {
        assert(p.take(p.len() - 3)[0] == p[0]);
    }
}

/// Two timestamps with ` --> ` between them are a timing line that fills
/// its line.
pub proof fn lemma_timing_line(a: Seq<char>, b: Seq<char>)
    requires
        valid_timestamp_spec(a),
        valid_timestamp_spec(b),
    ensures
        fills_line(a + timing_separator() + b),
        contains_spec(a + timing_separator() + b, arrow()),
        valid_timing_spec(a + timing_separator() + b),
{
    let t = a + timing_separator() + b;
    let k = a.len() as int + 1;
    lemma_timestamp_chars(a);
    lemma_timestamp_chars(b);
    assert(t[0] == a[0]);
    assert(t.last() == b.last());
    assert forall|i: int| 0 <= i < t.len() implies #[trigger] t[i] != '\n' by {
        if i < a.len() {
            assert(t[i] == a[i]);
        } else if i < a.len() + 5 {
            assert(t[i] == timing_separator()[i - a.len()]);
        } else {
            assert(t[i] == b[i - a.len() - 5]);
        }
    }
    assert(t.skip(k).take(3) =~= arrow());
    assert forall|j: int| 0 <= j < k implies !starts_with_spec(#[trigger] t.skip(j), arrow()) by {
        if j < a.len() {
            assert(t.skip(j)[0] == a[j]);
        } else {
            assert(t.skip(j)[0] == ' ');
        }
        if starts_with_spec(t.skip(j), arrow()) {
            assert(t.skip(j).take(3)[0] == arrow()[0]);
        }
    }
    lemma_find_at(t, arrow(), k);
    let right = t.skip(k + 3);
    assert(right =~= seq![' '] + b);
    assert forall|i: int| 0 <= i < right.len() implies #[trigger] right[i] != arrow()[0] by {
        if i > 0 {
            assert(right[i] == b[i - 1]);
        }
    }
    lemma_find_absent(right, arrow(), 0);
    let left = t.take(k);
    assert(left =~= a + seq![' ']);
    assert(trim_start_spec(left) == left);
    assert(left.drop_last() =~= a);
    assert(trim_end_spec(left) == trim_end_spec(a));
    assert(trim_end_spec(a) == a);
    assert(right.skip(1) =~= b);
    assert(no_space(b)) by {
        assert forall|i: int| 0 <= i < b.len() implies !is_whitespace_spec(#[trigger] b[i]) by {}
    }
    lemma_word_len_whole(b);
    assert(b.take(b.len() as int) =~= b);
    assert(words_spec(right) == words_spec(b));
    assert(words_spec(b)[0] == b);
    assert(first_word(right) == b);
}

/// A number in decimal fills its line, opens no block and holds no arrow.
pub proof fn lemma_index_line(n: nat)
    ensures
        fills_line(decimal_spec(n)),
        !is_block_start(decimal_spec(n)),
        !contains_spec(decimal_spec(n), arrow()),
{
    let d = decimal_spec(n);
    lemma_decimal(n);
    assert(is_digit_spec(d[0]));
    assert(is_digit_spec(d.last()));
    assert forall|i: int| 0 <= i < d.len() implies #[trigger] d[i] != '\n' by {
        assert(is_digit_spec(d[i]));
    }
    assert forall|i: int| 0 <= i < d.len() implies #[trigger] d[i] != arrow()[0] by {
        assert(is_digit_spec(d[i]));
    }
    lemma_find_absent(d, arrow(), 0);
    let note = seq!['N', 'O', 'T', 'E'];
    let style = seq!['S', 'T', 'Y', 'L', 'E'];
    let region = seq!['R', 'E', 'G', 'I', 'O', 'N'];
    if starts_with_spec(d, note) {
        assert(d.take(4)[0] == note[0]);
    }
    if starts_with_spec(d, style) {
        assert(d.take(5)[0] == style[0]);
    }
    if starts_with_spec(d, region) {
        assert(d.take(6)[0] == region[0]);
    }
}

/// Text in which all white space is plain spaces.
pub open spec fn plain_spaces(s: Seq<char>) -> bool {
    forall|i: int| 0 <= i < s.len() ==> (!is_whitespace_spec(#[trigger] s[i]) || s[i] == ' ')
}

/// Text that is not blank has a word.
pub proof fn lemma_not_blank_has_words(s: Seq<char>)
    requires
        !is_blank_spec(s),
    ensures
        words_spec(s).len() > 0,
    decreases s.len(),
{
    if s.len() > 0 && is_whitespace_spec(s[0]) {
        lemma_not_blank_has_words(s.skip(1));
    }
}

/// Words joined by single spaces fill a line.
pub proof fn lemma_joined_words_fill_line(parts: Seq<Seq<char>>)
    requires
        parts.len() > 0,
        all_words(parts),
    ensures
        fills_line(join_spec(parts, seq![' '])),
        plain_spaces(join_spec(parts, seq![' '])),
    decreases parts.len(),
{
    let j = join_spec(parts, seq![' ']);
    let last = parts.last();
    assert(last.len() > 0 && no_space(last));
    if parts.len() == 1 {
        assert(j == parts[0]);
        assert forall|i: int| 0 <= i < j.len() implies (!is_whitespace_spec(#[trigger] j[i]) || j[i]
            == ' ') && j[i] != '\n' by {
            assert(!is_whitespace_spec(last[i]));
        }
    } else {
        let before = parts.drop_last();
        assert(all_words(before)) by {
            assert forall|i: int| 0 <= i < before.len() implies (#[trigger] before[i]).len() > 0
                && no_space(before[i]) by {
                assert(before[i] == parts[i]);
            }
        }
        lemma_joined_words_fill_line(before);
        let b = join_spec(before, seq![' ']);
        assert(j == b + seq![' '] + last);
        assert(j[0] == b[0]);
        assert(j.last() == last.last());
        assert forall|i: int| 0 <= i < j.len() implies (!is_whitespace_spec(#[trigger] j[i]) || j[i]
            == ' ') && j[i] != '\n' by {
            if i < b.len() {
                assert(j[i] == b[i]);
            } else if i == b.len() {
                assert(j[i] == ' ');
            } else {
                assert(j[i] == last[i - b.len() - 1]);
                assert(!is_whitespace_spec(last[i - b.len() - 1]));
            }
        }
    }
}

/// What stands for a character holds no white space but a plain space that
/// stands for itself.
proof fn lemma_piece_chars(c: char, a: bool, l: bool, g: bool)
    requires
        !is_whitespace_spec(c) || c == ' ',
    ensures
        piece(c, a, l, g).len() > 0,
        plain_spaces(piece(c, a, l, g)),
        !is_whitespace_spec(c) ==> !is_whitespace_spec(piece(c, a, l, g)[0]) && !is_whitespace_spec(
            piece(c, a, l, g).last(),
        ),
{
}

/// Escaping keeps a line a line: text that fills a line, with plain spaces
/// for all its white space, does so once its characters are replaced by
/// what stands for them.
pub proof fn lemma_expand_fills_line(s: Seq<char>, a: bool, l: bool, g: bool)
    requires
        fills_line(s),
        plain_spaces(s),
    ensures
        fills_line(expand(s, a, l, g)),
        plain_spaces(expand(s, a, l, g)),
    decreases s.len(),
{
    let e = expand(s, a, l, g);
    let p = piece(s[0], a, l, g);
    let t = s.skip(1);
    lemma_piece_chars(s[0], a, l, g);
    assert(e == p + expand(t, a, l, g));
    assert(e[0] == p[0]);
    if s.len() == 1 {
        assert(expand(t, a, l, g) =~= Seq::<char>::empty());
        assert(e =~= p);
        assert(s.last() == s[0]);
        assert forall|i: int| 0 <= i < e.len() implies #[trigger] e[i] != '\n' by {
            assert(!is_whitespace_spec(e[i]) || e[i] == ' ');
        }
    } else {
        let rest = expand(t, a, l, g);
        assert(t.last() == s.last());
        assert(plain_spaces(t)) by {
            assert forall|i: int| 0 <= i < t.len() implies (!is_whitespace_spec(#[trigger] t[i])
                || t[i] == ' ') by {
                assert(t[i] == s[i + 1]);
            }
        }
        lemma_expand_tail(t, a, l, g);
        assert(e.last() == rest.last());
        assert forall|i: int| 0 <= i < e.len() implies (!is_whitespace_spec(#[trigger] e[i]) || e[i]
            == ' ') && e[i] != '\n' by {
            if i < p.len() {
                assert(e[i] == p[i]);
            } else {
                assert(e[i] == rest[i - p.len()]);
            }
        }
    }
}

/// Text with plain spaces for all its white space, and none at its end,
/// stays so once its characters are replaced by what stands for them.
proof fn lemma_expand_tail(s: Seq<char>, a: bool, l: bool, g: bool)
    requires
        s.len() > 0,
        plain_spaces(s),
        !is_whitespace_spec(s.last()),
    ensures
        expand(s, a, l, g).len() > 0,
        plain_spaces(expand(s, a, l, g)),
        !is_whitespace_spec(expand(s, a, l, g).last()),
    decreases s.len(),
{
    let e = expand(s, a, l, g);
    let p = piece(s[0], a, l, g);
    let t = s.skip(1);
    let rest = expand(t, a, l, g);
    lemma_piece_chars(s[0], a, l, g);
    assert(e == p + rest);
    if s.len() == 1 {
        assert(rest =~= Seq::<char>::empty());
        assert(e =~= p);
        assert(s.last() == s[0]);
    } else {
        assert(t.last() == s.last());
        assert(plain_spaces(t)) by {
            assert forall|i: int| 0 <= i < t.len() implies (!is_whitespace_spec(#[trigger] t[i])
                || t[i] == ' ') by {
                assert(t[i] == s[i + 1]);
            }
        }
        lemma_expand_tail(t, a, l, g);
        assert(e.last() == rest.last());
        assert forall|i: int| 0 <= i < e.len() implies (!is_whitespace_spec(#[trigger] e[i]) || e[i]
            == ' ') by {
            if i < p.len() {
                assert(e[i] == p[i]);
            } else {
                assert(e[i] == rest[i - p.len()]);
            }
        }
    }
}

/// The text of a cue, flattened, fills its line where the segment's text
/// is not blank.
pub proof fn lemma_text_line(text: Seq<char>, escape: bool)
    requires
        !is_blank_spec(text),
    ensures
        fills_line(prepare_spec(text, true, escape)),
{
    lemma_not_blank_has_words(text);
    lemma_words_are_words(text);
    lemma_joined_words_fill_line(words_spec(text));
    if escape {
        lemma_escape_expands(collapse_spec(text));
        lemma_expand_fills_line(collapse_spec(text), true, true, true);
    }
}

/// The four lines of a cue block: the index, the timing line, the text,
/// an empty line.
pub open spec fn block_lines(index: nat, s: SegmentView, escape: bool) -> Seq<Seq<char>> {
    seq![
        decimal_spec(index),
        timing_spec(s, 0, false),
        prepare_spec(s.text, true, escape),
        Seq::<char>::empty(),
    ]
}

/// The lines of the cue blocks of the segments, numbered from `first`.
pub open spec fn all_block_lines(segs: Seq<SegmentView>, first: nat, escape: bool) -> Seq<
    Seq<char>,
>
    decreases segs.len(),
{
    if segs.len() == 0 {
        Seq::empty()
    } else {
        all_block_lines(segs.drop_last(), first, escape) + block_lines(
            first + (segs.len() - 1) as nat,
            segs.last(),
            escape,
        )
    }
}

/// Every segment has text that is not blank.
pub open spec fn all_have_text(segs: Seq<SegmentView>) -> bool {
    forall|i: int| 0 <= i < segs.len() ==> !is_blank_spec((#[trigger] segs[i]).text)
}

/// The timing line of a segment is a timing line.
pub proof fn lemma_segment_timing(s: SegmentView)
    ensures
        fills_line(timing_spec(s, 0, false)),
        contains_spec(timing_spec(s, 0, false), arrow()),
        valid_timing_spec(timing_spec(s, 0, false)),
{
    let a = format_spec(clamp_spec(s.start_ms + 0), false);
    let b = format_spec(clamp_spec(s.end_ms + 0), false);
    lemma_format_then_parse(clamp_spec(s.start_ms + 0), false);
    lemma_format_then_parse(clamp_spec(s.end_ms + 0), false);
    lemma_timing_line(a, b);
    assert(timing_spec(s, 0, false) == a + timing_separator() + b);
}

/// A line that fills its line, with its line feed, is that one line.
proof fn lemma_filled_line(line: Seq<char>)
    requires
        fills_line(line),
    ensures
        lines_spec(line + nl()) == seq![line],
        (line + nl()).last() == '\n',
{
    lemma_one_line(line);
}

/// Two texts of whole lines in a row have the lines of both.
proof fn lemma_lines_of_two(a: Seq<char>, la: Seq<Seq<char>>, b: Seq<char>, lb: Seq<Seq<char>>)
    requires
        a.len() > 0,
        a.last() == '\n',
        lines_spec(a) == la,
        b.len() > 0,
        b.last() == '\n',
        lines_spec(b) == lb,
    ensures
        lines_spec(a + b) == la + lb,
        (a + b).len() > 0,
        (a + b).last() == '\n',
{
    lemma_lines_concat(a, b);
    assert((a + b).last() == b.last());
}

/// Three lines and an empty one, each with its line feed, are four lines.
proof fn lemma_four_lines(d: Seq<char>, t: Seq<char>, x: Seq<char>)
    requires
        fills_line(d),
        fills_line(t),
        fills_line(x),
    ensures
        lines_spec(d + nl() + t + nl() + x + nl() + nl()) == seq![d, t, x, Seq::<char>::empty()],
        (d + nl() + t + nl() + x + nl() + nl()).last() == '\n',
{
    let e = Seq::<char>::empty();
    lemma_filled_line(d);
    lemma_filled_line(t);
    lemma_filled_line(x);
    lemma_one_line(e);
    let a1 = d + nl();
    let a2 = t + nl();
    let a3 = x + nl();
    let a4 = nl();
    assert(e + nl() =~= a4);
    lemma_lines_of_two(a1, seq![d], a2, seq![t]);
    lemma_lines_of_two(a1 + a2, seq![d] + seq![t], a3, seq![x]);
    lemma_lines_of_two(a1 + a2 + a3, seq![d] + seq![t] + seq![x], a4, seq![e]);
    assert(d + nl() + t + nl() + x + nl() + nl() =~= a1 + a2 + a3 + a4);
    assert(seq![d] + seq![t] + seq![x] + seq![e] =~= seq![d, t, x, e]);
}

/// A cue block has the four lines of its block, and ends with a line feed.
pub proof fn lemma_block_lines(index: nat, s: SegmentView, escape: bool)
    requires
        !is_blank_spec(s.text),
    ensures
        lines_spec(cue_block(index, s, 0, false, true, escape)) == block_lines(index, s, escape),
        cue_block(index, s, 0, false, true, escape).len() > 0,
        cue_block(index, s, 0, false, true, escape).last() == '\n',
{
    lemma_index_line(index);
    lemma_segment_timing(s);
    lemma_text_line(s.text, escape);
    lemma_four_lines(
        decimal_spec(index),
        timing_spec(s, 0, false),
        prepare_spec(s.text, true, escape),
    );
}

/// Segments with text stay so without the last of them.
proof fn lemma_all_have_text_before(segs: Seq<SegmentView>)
    requires
        segs.len() > 0,
        all_have_text(segs),
    ensures
        all_have_text(segs.drop_last()),
        !is_blank_spec(segs.last().text),
{
    let before = segs.drop_last();
    assert forall|i: int| 0 <= i < before.len() implies !is_blank_spec(
        (#[trigger] before[i]).text,
    ) by {
        assert(before[i] == segs[i]);
    }
}

/// The cue blocks of segments with text have the lines of their blocks,
/// and end with a line feed where there is a segment.
pub proof fn lemma_cue_blocks_lines(segs: Seq<SegmentView>, first: nat, escape: bool)
    requires
        all_have_text(segs),
    ensures
        lines_spec(cue_blocks(segs, 0, first, false, true, escape)) == all_block_lines(
            segs,
            first,
            escape,
        ),
        cue_blocks(segs, 0, first, false, true, escape).len() == 0 || cue_blocks(
            segs,
            0,
            first,
            false,
            true,
            escape,
        ).last() == '\n',
    decreases segs.len(),
{
    if segs.len() > 0 {
        let before = segs.drop_last();
        lemma_all_have_text_before(segs);
        lemma_cue_blocks_lines(before, first, escape);
        let index = first + (segs.len() - 1) as nat;
        lemma_block_lines(index, segs.last(), escape);
        let a = cue_blocks(before, 0, first, false, true, escape);
        let b = cue_block(index, segs.last(), 0, false, true, escape);
        lemma_lines_concat(a, b);
        assert((a + b).last() == b.last());
    } else {
        assert(lines_spec(Seq::<char>::empty()) =~= Seq::<Seq<char>>::empty());
    }
}

/// Where the lines of the block of the segment `j` stand among the lines
/// of all blocks.
pub proof fn lemma_block_lines_at(segs: Seq<SegmentView>, first: nat, escape: bool, j: int)
    requires
        0 <= j < segs.len(),
    ensures
        all_block_lines(segs, first, escape).len() == 4 * segs.len(),
        all_block_lines(segs, first, escape)[4 * j] == decimal_spec(first + j as nat),
        all_block_lines(segs, first, escape)[4 * j + 1] == timing_spec(segs[j], 0, false),
        all_block_lines(segs, first, escape)[4 * j + 2] == prepare_spec(segs[j].text, true, escape),
        all_block_lines(segs, first, escape)[4 * j + 3] == Seq::<char>::empty(),
    decreases segs.len(),
{
    let n = segs.len() as int;
    let before = segs.drop_last();
    let la = all_block_lines(before, first, escape);
    let lb = block_lines(first + (n - 1) as nat, segs.last(), escape);
    let all = all_block_lines(segs, first, escape);
    assert(all == la + lb);
    lemma_block_lines_len(before, first, escape);
    assert(lb.len() == 4);
    if j < n - 1 {
        lemma_block_lines_at(before, first, escape, j);
        assert(before[j] == segs[j]);
        assert(all[4 * j] == la[4 * j]);
        assert(all[4 * j + 1] == la[4 * j + 1]);
        assert(all[4 * j + 2] == la[4 * j + 2]);
        assert(all[4 * j + 3] == la[4 * j + 3]);
    } else {
        assert(all[4 * j] == lb[0]);
        assert(all[4 * j + 1] == lb[1]);
        assert(all[4 * j + 2] == lb[2]);
        assert(all[4 * j + 3] == lb[3]);
    }
}

/// Each block has four lines.
pub proof fn lemma_block_lines_len(segs: Seq<SegmentView>, first: nat, escape: bool)
    ensures
        all_block_lines(segs, first, escape).len() == 4 * segs.len(),
    decreases segs.len(),
{
    if segs.len() > 0 {
        lemma_block_lines_len(segs.drop_last(), first, escape);
        assert(block_lines(first + (segs.len() - 1) as nat, segs.last(), escape).len() == 4);
    }
}

/// The lines of a file built from the segments.
pub open spec fn document_lines(segs: Seq<SegmentView>, escape: bool) -> Seq<Seq<char>> {
    seq![signature(), Seq::<char>::empty()] + all_block_lines(segs, 1, escape)
}

/// A file built from segments with text has the signature, an empty line,
/// and the lines of the cue blocks.
pub proof fn lemma_document_lines(segs: Seq<SegmentView>, escape: bool)
    requires
        all_have_text(segs),
    ensures
        lines_spec(document_spec(segs, escape)) == document_lines(segs, escape),
{
    let e = Seq::<char>::empty();
    let a1 = signature() + nl();
    let a2 = e + nl();
    let blocks = cue_blocks(segs, 0, 1, false, true, escape);
    assert(fills_line(signature())) by {
        assert forall|i: int| 0 <= i < signature().len() implies #[trigger] signature()[i]
            != '\n' by {}
    }
    lemma_filled_line(signature());
    lemma_one_line(e);
    lemma_cue_blocks_lines(segs, 1, escape);
    assert(metadata_lines(Seq::empty()) =~= e);
    assert(document_spec(segs, escape) =~= a1 + (a2 + blocks));
    lemma_lines_concat(a2, blocks);
    lemma_lines_concat(a1, a2 + blocks);
    assert(seq![signature()] + (seq![e] + all_block_lines(segs, 1, escape)) =~= document_lines(
        segs,
        escape,
    ));
}

/// A line that fills its line is not blank, and is its own trimmed form.
proof fn lemma_filled_not_blank(line: Seq<char>)
    requires
        fills_line(line),
    ensures
        trim_spec(line) == line,
        !is_blank_spec(line),
{
    lemma_trim_fixed(line);
}

/// The validator passes over a cue of four lines: an identifier, a timing
/// line, a line of text, an empty line.
proof fn lemma_scan_passes_cue(lines: Seq<Seq<char>>, i: int)
    requires
        0 <= i,
        i + 3 < lines.len(),
        trim_spec(lines[i]) == lines[i],
        !is_blank_spec(lines[i]),
        !is_block_start(lines[i]),
        !contains_spec(lines[i], arrow()),
        trim_spec(lines[i + 1]) == lines[i + 1],
        valid_timing_spec(lines[i + 1]),
        !is_blank_spec(lines[i + 2]),
        is_blank_spec(lines[i + 3]),
    ensures
        scan_cues(lines, i) == scan_cues(lines, i + 4),
{
    assert(cue_head(lines, i) == Ok::<int, FileFault>(i + 2));
    assert(skip_block(lines, i + 3) == i + 4);
    assert(skip_block(lines, i + 2) == i + 4);
}

/// The four lines of the block of the segment `j` in a built file.
proof fn lemma_document_block(segs: Seq<SegmentView>, escape: bool, j: int)
    requires
        0 <= j < segs.len(),
    ensures
        document_lines(segs, escape).len() == 2 + 4 * segs.len(),
        document_lines(segs, escape)[2 + 4 * j] == decimal_spec((1 + j) as nat),
        document_lines(segs, escape)[2 + 4 * j + 1] == timing_spec(segs[j], 0, false),
        document_lines(segs, escape)[2 + 4 * j + 2] == prepare_spec(segs[j].text, true, escape),
        document_lines(segs, escape)[2 + 4 * j + 3] == Seq::<char>::empty(),
{
    lemma_block_lines_at(segs, 1, escape, j);
    let head = seq![signature(), Seq::<char>::empty()];
    let blocks = all_block_lines(segs, 1, escape);
    let lines = document_lines(segs, escape);
    assert(lines == head + blocks);
    assert(head.len() == 2);
    assert(lines[2 + 4 * j] == blocks[4 * j]);
    assert(lines[2 + 4 * j + 1] == blocks[4 * j + 1]);
    assert(lines[2 + 4 * j + 2] == blocks[4 * j + 2]);
    assert(lines[2 + 4 * j + 3] == blocks[4 * j + 3]);
}

/// The lines of the block of a segment with text are a cue that the
/// validator passes over: an identifier, a timing line, a line of text.
proof fn lemma_block_is_cue(index: nat, s: SegmentView, escape: bool)
    requires
        !is_blank_spec(s.text),
    ensures
        trim_spec(decimal_spec(index)) == decimal_spec(index),
        !is_blank_spec(decimal_spec(index)),
        !is_block_start(decimal_spec(index)),
        !contains_spec(decimal_spec(index), arrow()),
        trim_spec(timing_spec(s, 0, false)) == timing_spec(s, 0, false),
        valid_timing_spec(timing_spec(s, 0, false)),
        !is_blank_spec(prepare_spec(s.text, true, escape)),
        is_blank_spec(Seq::<char>::empty()),
{
    lemma_index_line(index);
    lemma_segment_timing(s);
    lemma_text_line(s.text, escape);
    lemma_filled_not_blank(decimal_spec(index));
    lemma_filled_not_blank(timing_spec(s, 0, false));
    lemma_filled_not_blank(prepare_spec(s.text, true, escape));
}

/// The block of the segment `j` in a built file is a cue that the
/// validator passes over.
proof fn lemma_scan_passes_block(segs: Seq<SegmentView>, escape: bool, j: int)
    requires
        all_have_text(segs),
        0 <= j < segs.len(),
    ensures
        scan_cues(document_lines(segs, escape), 2 + 4 * j) == scan_cues(
            document_lines(segs, escape),
            2 + 4 * (j + 1),
        ),
{
    lemma_document_block(segs, escape, j);
    lemma_block_is_cue((1 + j) as nat, segs[j], escape);
    lemma_scan_passes_cue(document_lines(segs, escape), 2 + 4 * j);
}

/// From the start of any cue block on, the validator finds no fault in the
/// lines of a built file.
proof fn lemma_scan_blocks(segs: Seq<SegmentView>, escape: bool, j: int)
    requires
        all_have_text(segs),
        0 <= j <= segs.len(),
    ensures
        scan_cues(document_lines(segs, escape), 2 + 4 * j) is None,
    decreases segs.len() - j,
{
    if j < segs.len() {
        lemma_scan_passes_block(segs, escape, j);
        lemma_scan_blocks(segs, escape, j + 1);
    } else {
        lemma_block_lines_len(segs, 1, escape);
    }
}

/// A file built from segments, each with text that is not blank, passes
/// the validator.
pub proof fn lemma_built_file_is_valid(segs: Seq<SegmentView>, escape: bool)
    requires
        all_have_text(segs),
    ensures
        file_fault(lines_spec(document_spec(segs, escape))) is None,
{
    lemma_document_lines(segs, escape);
    let lines = document_lines(segs, escape);
    assert(lines[0] == signature());
    assert(lines[1] == Seq::<char>::empty());
    assert(strip_bom(signature()) == signature());
    assert(valid_header_spec(lines[0]));
    assert(is_blank_spec(lines[1]));
    assert(skip_block(lines, 1) == 2);
    lemma_scan_blocks(segs, escape, 0);
}

} // verus!
