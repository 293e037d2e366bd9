//! The file validator: one pass over the lines of a serialized file.

use vstd::prelude::*;
use crate::error::{ErrorKind, VttError};
use crate::lines::{lines_spec, split_lines};
use crate::marks::{arrow, signature};
use crate::search::{
    contains, contains_spec, find_from, find_spec, starts_with_at, starts_with_spec,
};
use crate::text::{
    append, append_str, chars_of, chars_of_all, is_blank, is_blank_spec, is_whitespace,
    lemma_word_len_bound, slice_of, string_of, string_views, trim, trim_spec, views, word_end,
    word_len, words_spec,
};
use crate::timestamp::{is_valid_timestamp_chars, valid_timestamp_spec};

verus! {

/// What is wrong with a file. A line is named by its index among the
/// file's lines.
#[derive(Clone, Copy, Debug, PartialEq, Eq, Structural)]
pub enum FileFault {
    /// The file has no line.
    EmptyFile,
    /// The first line is not the signature.
    BadHeader,
    /// The file ends after the cue identifier at `identifier`.
    MissingTimingLine { identifier: usize },
    /// The line after the cue identifier at `identifier` is no timing line.
    InvalidTimingAfterIdentifier { identifier: usize },
    /// The line at `line` holds `-->` and is no timing line.
    InvalidTimingLine { line: usize },
    /// The timing line at `timing` is followed by no text.
    MissingText { timing: usize },
}

/// The first word of `s`, or nothing where it has no word.
pub open spec fn first_word(s: Seq<char>) -> Seq<char> {
    if words_spec(s).len() > 0 {
        words_spec(s)[0]
    } else {
        Seq::empty()
    }
}

/// The grammar of a timing line: `-->` splits it in exactly two parts; the
/// left part, trimmed, is a timestamp; the first word of the right part is
/// a timestamp, and what follows that word is not looked at.
pub open spec fn valid_timing_spec(line: Seq<char>) -> bool {
    match find_spec(line, arrow()) {
        None => false,
        Some(k) => {
            let right = line.skip(k as int + 3);
            &&& !contains_spec(right, arrow())
            &&& valid_timestamp_spec(trim_spec(line.take(k as int)))
            &&& valid_timestamp_spec(first_word(right))
        },
    }
}

/// The byte-order mark that may stand in front of the first line.
pub open spec fn strip_bom(line: Seq<char>) -> Seq<char> {
    if line.len() > 0 && line[0] == '\u{FEFF}' {
        line.skip(1)
    } else {
        line
    }
}

/// The first line as it is judged: without a byte-order mark in front, and
/// otherwise as it stands. White space in front of the signature is not
/// passed over.
pub open spec fn header_text(line: Seq<char>) -> Seq<char> {
    strip_bom(line)
}

/// The first line is the signature alone, or begins with the signature
/// and a space or a tab. Anything else in front of the signature or right
/// after it, a hyphen or other white space too, is refused.
pub open spec fn valid_header_spec(line: Seq<char>) -> bool {
    let h = header_text(line);
    ||| h == signature()
    ||| starts_with_spec(h, signature().push(' '))
    ||| starts_with_spec(h, signature().push('\t'))
}

/// The line opens a block that the validator skips.
pub open spec fn is_block_start(t: Seq<char>) -> bool {
    ||| starts_with_spec(t, seq!['N', 'O', 'T', 'E'])
    ||| starts_with_spec(t, seq!['S', 'T', 'Y', 'L', 'E'])
    ||| starts_with_spec(t, seq!['R', 'E', 'G', 'I', 'O', 'N'])
}

/// The index after the first blank line at or after `i`, or the number of
/// lines where there is none.
pub open spec fn skip_block(lines: Seq<Seq<char>>, i: int) -> int
    decreases lines.len() - i,
{
    if i >= lines.len() {
        i
    } else if is_blank_spec(lines[i]) {
        i + 1
    } else {
        skip_block(lines, i + 1)
    }
}

/// Skipping a block goes forward, by a line at least where there is one,
/// and not beyond the last line.
pub proof fn lemma_skip_block(lines: Seq<Seq<char>>, i: int)
    ensures
        skip_block(lines, i) >= i,
        i < lines.len() ==> i < skip_block(lines, i) <= lines.len(),
    decreases lines.len() - i,
{
    if i < lines.len() && !is_blank_spec(lines[i]) {
        lemma_skip_block(lines, i + 1);
    }
}

/// The index at which the text of a cue starts whose first line is at `i`,
/// or what is wrong with that line and the next.
pub open spec fn cue_head(lines: Seq<Seq<char>>, i: int) -> Result<int, FileFault> {
    let t = trim_spec(lines[i]);
    if !contains_spec(t, arrow()) {
        if i + 1 >= lines.len() {
            Err(FileFault::MissingTimingLine { identifier: i as usize })
        } else if !valid_timing_spec(trim_spec(lines[i + 1])) {
            Err(FileFault::InvalidTimingAfterIdentifier { identifier: i as usize })
        } else {
            Ok(i + 2)
        }
    } else if !valid_timing_spec(t) {
        Err(FileFault::InvalidTimingLine { line: i as usize })
    } else {
        Ok(i + 1)
    }
}

/// What is wrong with the cues from line `i` on, if anything: blank lines
/// are skipped; a block that starts with `NOTE`, `STYLE` or `REGION` is
/// skipped through its next blank line; any other line starts a cue, which
/// needs a timing line, after an identifier or at once, and then a line of
/// text at least.
pub open spec fn scan_cues(lines: Seq<Seq<char>>, i: int) -> Option<FileFault>
    decreases lines.len() - i,
    via scan_cues_decreases
{
    if i < 0 || i >= lines.len() {
        None
    } else if is_blank_spec(lines[i]) {
        scan_cues(lines, i + 1)
    } else if is_block_start(trim_spec(lines[i])) {
        scan_cues(lines, skip_block(lines, i + 1))
    } else {
        match cue_head(lines, i) {
            Err(f) => Some(f),
            Ok(j) => if j >= lines.len() || is_blank_spec(lines[j]) {
                Some(FileFault::MissingText { timing: (j - 1) as usize })
            } else {
                scan_cues(lines, skip_block(lines, j))
            },
        }
    }
}

#[via_fn]
proof fn scan_cues_decreases(lines: Seq<Seq<char>>, i: int) {
    if 0 <= i < lines.len() {
        lemma_skip_block(lines, i + 1);
        if !is_blank_spec(lines[i]) && !is_block_start(trim_spec(lines[i])) {
            match cue_head(lines, i) {
                Ok(j) => {
                    lemma_skip_block(lines, j);
                },
                Err(_) => {},
            }
        }
    }
}

/// What is wrong with a file of these lines, if anything: the first line
/// must be a valid header; the lines after it through the first blank one
/// are passed over; the cues follow.
pub open spec fn file_fault(lines: Seq<Seq<char>>) -> Option<FileFault> {
    if lines.len() == 0 {
        Some(FileFault::EmptyFile)
    } else if !valid_header_spec(lines[0]) {
        Some(FileFault::BadHeader)
    } else {
        scan_cues(lines, skip_block(lines, 1))
    }
}

/// The kind of error that a fault gives.
pub open spec fn file_fault_kind(f: FileFault) -> ErrorKind {
    match f {
        FileFault::EmptyFile | FileFault::BadHeader => ErrorKind::Header,
        FileFault::InvalidTimingAfterIdentifier { .. } | FileFault::InvalidTimingLine { .. } =>
            ErrorKind::Timestamp,
        FileFault::MissingTimingLine { .. } | FileFault::MissingText { .. } => ErrorKind::Cue,
    }
}

/// The message of the error that a fault gives. It quotes the lines at
/// fault: the first line as it was judged, the lines of a cue trimmed.
pub open spec fn file_fault_message(lines: Seq<Seq<char>>, f: FileFault) -> Seq<char> {
    match f {
        FileFault::EmptyFile => "Empty file"@,
        FileFault::BadHeader => "Missing or incorrect WEBVTT header. Got: '"@ + header_text(
            lines[0],
        ) + "'"@,
        FileFault::MissingTimingLine { identifier } =>
            "Expected timing line after cue identifier '"@ + trim_spec(lines[identifier as int])
                + "'"@,
        FileFault::InvalidTimingAfterIdentifier { identifier } =>
            "Invalid timing line after cue identifier '"@ + trim_spec(lines[identifier as int])
                + "': '"@ + trim_spec(lines[identifier + 1]) + "'"@,
        FileFault::InvalidTimingLine { line } => "Invalid timing line: '"@ + trim_spec(
            lines[line as int],
        ) + "'"@,
        FileFault::MissingText { .. } => "Cue missing text content"@,
    }
}

/// The first word of `v`.
fn first_word_of(v: &Vec<char>, from: usize) -> (r: Vec<char>)
    requires
        from <= v.len(),
    ensures
        r@ == first_word(v@.skip(from as int)),
{
    let n: usize = v.len();
    let mut i: usize = from;
    while i < n && is_whitespace(v[i])
        invariant
            from <= i <= n,
            n == v.len(),
            words_spec(v@.skip(from as int)) == words_spec(v@.skip(i as int)),
        decreases n - i,
    {
        assert(v@.skip(i as int).skip(1) =~= v@.skip(i as int + 1));
        i += 1;
    }
    let ghost rest = v@.skip(i as int);
    if i == n {
        return Vec::new();
    }
    let j = word_end(v, i);
    proof {
        lemma_word_len_bound(rest);
        assert(rest.take(word_len(rest) as int) =~= v@.subrange(i as int, j as int));
    }
    slice_of(v, i, j)
}

/// Whether `v` is a timing line.
pub fn is_valid_timing_chars(v: &Vec<char>) -> (b: bool)
    ensures
        b == valid_timing_spec(v@),
{
    let pat: Vec<char> = vec!['-', '-', '>'];
    assert(pat@ =~= arrow());
    assert(v@.skip(0) =~= v@);
    let k = match find_from(v, 0, &pat) {
        Some(k) => k,
        None => { return false; },
    };
    let ghost right = v@.skip(k as int + 3);
    if find_from(v, k + 3, &pat).is_some() {
        return false;
    }
    let left = slice_of(v, 0, k);
    assert(left@ =~= v@.take(k as int));
    let start = trim(&left);
    if !is_valid_timestamp_chars(&start) {
        return false;
    }
    let end = first_word_of(v, k + 3);
    is_valid_timestamp_chars(&end)
}

/// Whether `line` is a timing line: a timestamp, `-->`, a timestamp, and
/// after the second whatever follows a space.
pub fn is_valid_timing(line: &str) -> (b: bool)
    ensures
        b == valid_timing_spec(line@),
{
    let v = chars_of(line);
    is_valid_timing_chars(&v)
}

/// The first line as it is judged.
fn header_of(line: &Vec<char>) -> (r: Vec<char>)
    ensures
        r@ == header_text(line@),
{
    if line.len() > 0 && line[0] == '\u{FEFF}' {
        let rest = slice_of(line, 1, line.len());
        assert(rest@ =~= line@.skip(1));
        rest
    } else {
        let whole = slice_of(line, 0, line.len());
        assert(whole@ =~= line@);
        whole
    }
}

/// Whether the first line is a valid header.
pub fn is_valid_header_chars(line: &Vec<char>) -> (b: bool)
    ensures
        b == valid_header_spec(line@),
{
    let h = header_of(line);
    let sig: Vec<char> = vec!['W', 'E', 'B', 'V', 'T', 'T'];
    let sig_space: Vec<char> = vec!['W', 'E', 'B', 'V', 'T', 'T', ' '];
    let sig_tab: Vec<char> = vec!['W', 'E', 'B', 'V', 'T', 'T', '\t'];
    assert(sig@ =~= signature());
    assert(sig_space@ =~= signature().push(' '));
    assert(sig_tab@ =~= signature().push('\t'));
    assert(h@.skip(0) =~= h@);
    if h.len() == 6 && starts_with_at(&h, 0, &sig) {
        assert(h@.take(6) =~= h@);
        return true;
    }
    proof {
        if h@ == signature() {
            assert(h@.take(6) =~= h@);
        }
    }
    starts_with_at(&h, 0, &sig_space) || starts_with_at(&h, 0, &sig_tab)
}

/// Whether the trimmed line opens a block that is skipped.
fn is_block_start_chars(t: &Vec<char>) -> (b: bool)
    ensures
        b == is_block_start(t@),
{
    let note: Vec<char> = vec!['N', 'O', 'T', 'E'];
    let style: Vec<char> = vec!['S', 'T', 'Y', 'L', 'E'];
    let region: Vec<char> = vec!['R', 'E', 'G', 'I', 'O', 'N'];
    assert(note@ =~= seq!['N', 'O', 'T', 'E']);
    assert(style@ =~= seq!['S', 'T', 'Y', 'L', 'E']);
    assert(region@ =~= seq!['R', 'E', 'G', 'I', 'O', 'N']);
    assert(t@.skip(0) =~= t@);
    starts_with_at(t, 0, &note) || starts_with_at(t, 0, &style) || starts_with_at(t, 0, &region)
}

/// The index after the first blank line at or after `from`.
fn skip_block_from(lines: &Vec<Vec<char>>, from: usize) -> (r: usize)
    requires
        from <= lines.len(),
    ensures
        r == skip_block(views(lines@), from as int),
        from <= r <= lines.len(),
{
    let n: usize = lines.len();
    let mut i: usize = from;
    while i < n
        invariant
            from <= i <= n,
            n == lines.len(),
            skip_block(views(lines@), from as int) == skip_block(views(lines@), i as int),
        decreases n - i,
    {
        assert(views(lines@)[i as int] == lines@[i as int]@);
        if is_blank(&lines[i]) {
            return i + 1;
        }
        i += 1;
    }
    i
}

/// Where the text of the cue at `i` starts, or what is wrong with its
/// first lines.
fn cue_head_at(lines: &Vec<Vec<char>>, i: usize) -> (r: Result<usize, FileFault>)
    requires
        i < lines.len(),
    ensures
        match r {
            Ok(j) => cue_head(views(lines@), i as int) == Ok::<int, FileFault>(j as int) && i < j
                <= lines.len(),
            Err(f) => cue_head(views(lines@), i as int) == Err::<int, FileFault>(f),
        },
{
    let pat: Vec<char> = vec!['-', '-', '>'];
    assert(pat@ =~= arrow());
    assert(views(lines@)[i as int] == lines@[i as int]@);
    let t = trim(&lines[i]);
    if !contains(&t, &pat) {
        if i + 1 >= lines.len() {
            return Err(FileFault::MissingTimingLine { identifier: i });
        }
        assert(views(lines@)[i + 1] == lines@[i + 1]@);
        let next = trim(&lines[i + 1]);
        if !is_valid_timing_chars(&next) {
            return Err(FileFault::InvalidTimingAfterIdentifier { identifier: i });
        }
        Ok(i + 2)
    } else if !is_valid_timing_chars(&t) {
        Err(FileFault::InvalidTimingLine { line: i })
    } else {
        Ok(i + 1)
    }
}

/// What is wrong with a file of these lines, if anything.
pub fn check_lines(lines: &Vec<Vec<char>>) -> (r: Option<FileFault>)
    ensures
        r == file_fault(views(lines@)),
{
    let n: usize = lines.len();
    let ghost all = views(lines@);
    if n == 0 {
        return Some(FileFault::EmptyFile);
    }
    assert(all[0] == lines@[0]@);
    if !is_valid_header_chars(&lines[0]) {
        return Some(FileFault::BadHeader);
    }
    let mut i: usize = skip_block_from(lines, 1);
    while i < n
        invariant
            i <= n,
            n == lines.len(),
            all == views(lines@),
            file_fault(all) == scan_cues(all, i as int),
        decreases n - i,
    {
        assert(all[i as int] == lines@[i as int]@);
        let t = trim(&lines[i]);
        if t.len() == 0 {
            i += 1;
        } else if is_block_start_chars(&t) {
            i = skip_block_from(lines, i + 1);
        } else {
            match cue_head_at(lines, i) {
                Err(f) => {
                    return Some(f);
                },
                Ok(j) => {
                    if j >= n {
                        return Some(FileFault::MissingText { timing: j - 1 });
                    }
                    assert(all[j as int] == lines@[j as int]@);
                    if is_blank(&lines[j]) {
                        return Some(FileFault::MissingText { timing: j - 1 });
                    }
                    proof {
                        lemma_skip_block(all, j as int);
                    }
                    i = skip_block_from(lines, j);
                },
            }
        }
    }
    None
}

/// The error that a fault gives.
pub fn file_fault_error(lines: &Vec<Vec<char>>, f: FileFault) -> (e: VttError)
    requires
        match f {
            FileFault::EmptyFile | FileFault::MissingText { .. } => true,
            FileFault::BadHeader => lines.len() > 0,
            FileFault::MissingTimingLine { identifier } => identifier < lines.len(),
            FileFault::InvalidTimingAfterIdentifier { identifier } => identifier + 1 < lines.len(),
            FileFault::InvalidTimingLine { line } => line < lines.len(),
        },
    ensures
        e.kind == file_fault_kind(f),
        e.message@ == file_fault_message(views(lines@), f),
{
    let ghost all = views(lines@);
    let mut msg: Vec<char> = Vec::new();
    let kind = match f {
        FileFault::EmptyFile => {
            append_str(&mut msg, "Empty file");
            ErrorKind::Header
        },
        FileFault::BadHeader => {
            assert(all[0] == lines@[0]@);
            append_str(&mut msg, "Missing or incorrect WEBVTT header. Got: '");
            let h = header_of(&lines[0]);
            append(&mut msg, &h);
            append_str(&mut msg, "'");
            ErrorKind::Header
        },
        FileFault::MissingTimingLine { identifier } => {
            assert(all[identifier as int] == lines@[identifier as int]@);
            append_str(&mut msg, "Expected timing line after cue identifier '");
            let t = trim(&lines[identifier]);
            append(&mut msg, &t);
            append_str(&mut msg, "'");
            ErrorKind::Cue
        },
        FileFault::InvalidTimingAfterIdentifier { identifier } => {
            assert(all[identifier as int] == lines@[identifier as int]@);
            assert(all[identifier + 1] == lines@[identifier + 1]@);
            append_str(&mut msg, "Invalid timing line after cue identifier '");
            let t = trim(&lines[identifier]);
            append(&mut msg, &t);
            append_str(&mut msg, "': '");
            let u = trim(&lines[identifier + 1]);
            append(&mut msg, &u);
            append_str(&mut msg, "'");
            ErrorKind::Timestamp
        },
        FileFault::InvalidTimingLine { line } => {
            assert(all[line as int] == lines@[line as int]@);
            append_str(&mut msg, "Invalid timing line: '");
            let t = trim(&lines[line]);
            append(&mut msg, &t);
            append_str(&mut msg, "'");
            ErrorKind::Timestamp
        },
        FileFault::MissingText { .. } => {
            append_str(&mut msg, "Cue missing text content");
            ErrorKind::Cue
        },
    };
    assert(msg@ =~= file_fault_message(all, f));
    VttError { kind, message: string_of(&msg) }
}

/// The fault stands whatever lines may follow: it was found in lines that
/// are there, not in the want of a line.
pub open spec fn settled(len: nat, f: FileFault) -> bool {
    match f {
        FileFault::EmptyFile => false,
        FileFault::BadHeader => true,
        FileFault::MissingTimingLine { .. } => false,
        FileFault::InvalidTimingAfterIdentifier { .. } => true,
        FileFault::InvalidTimingLine { .. } => true,
        FileFault::MissingText { timing } => timing + 1 < len,
    }
}

/// What is wrong with the lines read so far. Where they are the whole
/// file, that is the file's fault. Where more lines may follow, it is the
/// fault only if it is settled; a fault that lies in the want of a line
/// is none yet.
pub open spec fn fault_so_far(lines: Seq<Seq<char>>, complete: bool) -> Option<FileFault> {
    match file_fault(lines) {
        Some(f) => if complete || settled(lines.len(), f) {
            Some(f)
        } else {
            None
        },
        None => None,
    }
}

/// Skipping a block that ends within the lines ends at the same place
/// whatever lines follow.
proof fn lemma_skip_block_stays(lines: Seq<Seq<char>>, more: Seq<Seq<char>>, i: int)
    requires
        0 <= i,
        skip_block(lines, i) < lines.len(),
    ensures
        skip_block(lines + more, i) == skip_block(lines, i),
    decreases lines.len() - i,
{
    let ext = lines + more;
    if i < lines.len() {
        assert(ext[i] == lines[i]);
        if !is_blank_spec(lines[i]) {
            lemma_skip_block_stays(lines, more, i + 1);
        }
    }
}

/// The head of a cue that is settled by the lines that are there is the
/// same whatever lines follow.
proof fn lemma_cue_head_stays(lines: Seq<Seq<char>>, more: Seq<Seq<char>>, i: int)
    requires
        0 <= i < lines.len(),
        !(cue_head(lines, i) is Err && cue_head(lines, i)->Err_0 is MissingTimingLine),
    ensures
        cue_head(lines + more, i) == cue_head(lines, i),
{
    let ext = lines + more;
    assert(ext[i] == lines[i]);
    if i + 1 < lines.len() {
        assert(ext[i + 1] == lines[i + 1]);
    }
}

/// A settled fault found among the cues is found whatever lines follow.
proof fn lemma_scan_stays(lines: Seq<Seq<char>>, more: Seq<Seq<char>>, i: int, f: FileFault)
    requires
        0 <= i,
        lines.len() <= usize::MAX,
        scan_cues(lines, i) == Some(f),
        settled(lines.len(), f),
    ensures
        scan_cues(lines + more, i) == Some(f),
    decreases lines.len() - i,
{
    let ext = lines + more;
    assert(i < lines.len());
    assert(ext[i] == lines[i]);
    lemma_skip_block(lines, i + 1);
    if is_blank_spec(lines[i]) {
        assert(scan_cues(lines, i) == scan_cues(lines, i + 1));
        lemma_scan_stays(lines, more, i + 1, f);
        assert(scan_cues(ext, i) == scan_cues(ext, i + 1));
    } else if is_block_start(trim_spec(lines[i])) {
        let r = skip_block(lines, i + 1);
        assert(scan_cues(lines, i) == scan_cues(lines, r));
        assert(r < lines.len());
        lemma_skip_block_stays(lines, more, i + 1);
        lemma_scan_stays(lines, more, r, f);
        assert(scan_cues(ext, i) == scan_cues(ext, r));
    } else {
        match cue_head(lines, i) {
            Err(g) => {
                assert(g == f);
                lemma_cue_head_stays(lines, more, i);
            },
            Ok(j) => {
                lemma_cue_head_stays(lines, more, i);
                assert(i < j <= i + 2);
                if j >= lines.len() || is_blank_spec(lines[j]) {
                    assert(f == FileFault::MissingText { timing: (j - 1) as usize });
                    assert(j < lines.len());
                    assert(ext[j] == lines[j]);
                } else {
                    assert(ext[j] == lines[j]);
                    lemma_skip_block(lines, j);
                    let r = skip_block(lines, j);
                    assert(scan_cues(lines, i) == scan_cues(lines, r));
                    assert(r < lines.len());
                    lemma_skip_block_stays(lines, more, j);
                    lemma_scan_stays(lines, more, r, f);
                    assert(scan_cues(ext, i) == scan_cues(ext, r));
                }
            },
        }
    }
}

/// A settled fault is the fault of every file that begins with the same
/// lines, and its message is the same.
pub proof fn lemma_settled_fault_stays(lines: Seq<Seq<char>>, more: Seq<Seq<char>>, f: FileFault)
    requires
        lines.len() <= usize::MAX,
        file_fault(lines) == Some(f),
        settled(lines.len(), f),
    ensures
        file_fault(lines + more) == Some(f),
        file_fault_message(lines + more, f) == file_fault_message(lines, f),
{
    let ext = lines + more;
    assert(lines.len() > 0);
    assert(ext[0] == lines[0]);
    lemma_fault_in_range(lines, f);
    if valid_header_spec(lines[0]) {
        lemma_skip_block(lines, 1);
        let r = skip_block(lines, 1);
        assert(file_fault(lines) == scan_cues(lines, r));
        assert(r < lines.len());
        lemma_skip_block_stays(lines, more, 1);
        lemma_scan_stays(lines, more, r, f);
    }
    match f {
        FileFault::InvalidTimingAfterIdentifier { identifier } => {
            assert(ext[identifier as int] == lines[identifier as int]);
            assert(ext[identifier + 1] == lines[identifier + 1]);
        },
        FileFault::InvalidTimingLine { line } => {
            assert(ext[line as int] == lines[line as int]);
        },
        _ => {},
    }
}

/// Whether the fault stands whatever lines may follow.
pub fn is_settled(len: usize, f: FileFault) -> (b: bool)
    ensures
        b == settled(len as nat, f),
{
    match f {
        FileFault::EmptyFile => false,
        FileFault::BadHeader => true,
        FileFault::MissingTimingLine { .. } => false,
        FileFault::InvalidTimingAfterIdentifier { .. } => true,
        FileFault::InvalidTimingLine { .. } => true,
        FileFault::MissingText { timing } => timing < len && timing + 1 < len,
    }
}

/// Checks the lines of a file as they were read, in one pass, and stops at
/// the first fault. With `complete` the lines are the whole file. Without
/// it more lines may follow, as when reading broke off: then a fault is
/// reported only where it is settled by the lines that are there.
pub fn validate_vtt_lines(lines: &Vec<String>, complete: bool) -> (r: Result<(), VttError>)
    ensures
        match r {
            Ok(_) => fault_so_far(string_views(lines@), complete) is None,
            Err(e) => {
                let f = fault_so_far(string_views(lines@), complete);
                &&& f is Some
                &&& e.kind == file_fault_kind(f->Some_0)
                &&& e.message@ == file_fault_message(string_views(lines@), f->Some_0)
            },
        },
{
    let all = chars_of_all(lines);
    match check_lines(&all) {
        None => Ok(()),
        Some(f) => {
            if complete || is_settled(all.len(), f) {
                proof {
                    lemma_fault_in_range(views(all@), f);
                }
                Err(file_fault_error(&all, f))
            } else {
                Ok(())
            }
        },
    }
}

/// Checks a serialized file in one pass over its lines, and stops at the
/// first fault: a header error for a missing or malformed signature, a
/// timestamp error for a malformed timing line, a cue error for a cue
/// without timing line or without text. A file that ends before any blank
/// line has no cues and is valid.
pub fn validate_vtt(content: &str) -> (r: Result<(), VttError>)
    ensures
        match r {
            Ok(_) => file_fault(lines_spec(content@)) is None,
            Err(e) => {
                let f = file_fault(lines_spec(content@));
                &&& f is Some
                &&& e.kind == file_fault_kind(f->Some_0)
                &&& e.message@ == file_fault_message(lines_spec(content@), f->Some_0)
            },
        },
{
    let v = chars_of(content);
    let lines = split_lines(&v);
    match check_lines(&lines) {
        None => Ok(()),
        Some(f) => {
            proof {
                lemma_fault_in_range(views(lines@), f);
            }
            Err(file_fault_error(&lines, f))
        },
    }
}

/// A fault names lines that the file has.
pub proof fn lemma_fault_in_range(lines: Seq<Seq<char>>, f: FileFault)
    requires
        file_fault(lines) == Some(f),
        lines.len() <= usize::MAX,
    ensures
        match f {
            FileFault::EmptyFile => true,
            FileFault::MissingText { timing } => timing < lines.len(),
            FileFault::BadHeader => lines.len() > 0,
            FileFault::MissingTimingLine { identifier } => identifier < lines.len(),
            FileFault::InvalidTimingAfterIdentifier { identifier } => identifier + 1 < lines.len(),
            FileFault::InvalidTimingLine { line } => line < lines.len(),
        },
{
    if lines.len() > 0 && valid_header_spec(lines[0]) {
        lemma_skip_block(lines, 1);
        lemma_scan_fault_in_range(lines, skip_block(lines, 1), f);
    }
}

/// A fault found among the cues names lines that the file has.
proof fn lemma_scan_fault_in_range(lines: Seq<Seq<char>>, i: int, f: FileFault)
    requires
        scan_cues(lines, i) == Some(f),
        lines.len() <= usize::MAX,
        0 <= i,
    ensures
        match f {
            FileFault::EmptyFile => false,
            FileFault::BadHeader => false,
            FileFault::MissingText { timing } => timing < lines.len(),
            FileFault::MissingTimingLine { identifier } => identifier < lines.len(),
            FileFault::InvalidTimingAfterIdentifier { identifier } => identifier + 1 < lines.len(),
            FileFault::InvalidTimingLine { line } => line < lines.len(),
        },
    decreases lines.len() - i,
{
    if i < lines.len() {
        lemma_skip_block(lines, i + 1);
        if is_blank_spec(lines[i]) {
            lemma_scan_fault_in_range(lines, i + 1, f);
        } else if is_block_start(trim_spec(lines[i])) {
            lemma_scan_fault_in_range(lines, skip_block(lines, i + 1), f);
        } else {
            match cue_head(lines, i) {
                Err(_) => {},
                Ok(j) => {
                    if j < lines.len() && !is_blank_spec(lines[j]) {
                        lemma_skip_block(lines, j);
                        lemma_scan_fault_in_range(lines, skip_block(lines, j), f);
                    }
                },
            }
        }
    }
}

} // verus!
