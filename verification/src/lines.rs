//! Splitting text into lines.

use vstd::prelude::*;
use crate::text::{slice_of, views};

verus! {

/// The number of characters before the first line feed of `s`.
pub open spec fn line_len(s: Seq<char>) -> nat
    decreases s.len(),
{
    if s.len() > 0 && s[0] != '\n' {
        1 + line_len(s.skip(1))
    } else {
        0
    }
}

/// A first line is no longer than its text, and a line feed follows it
/// where the text goes on.
pub proof fn lemma_line_len_bound(s: Seq<char>)
    ensures
        line_len(s) <= s.len(),
        line_len(s) < s.len() ==> s[line_len(s) as int] == '\n',
    decreases s.len(),
{
    if s.len() > 0 && s[0] != '\n' {
        lemma_line_len_bound(s.skip(1));
    }
}

/// A line without the carriage return at its end, if it has one.
pub open spec fn strip_cr(l: Seq<char>) -> Seq<char> {
    if l.len() > 0 && l.last() == '\r' {
        l.drop_last()
    } else {
        l
    }
}

/// The lines of `s`. A line ends at a line feed, or at a carriage return
/// and a line feed; the last line needs no ending, and an ending at the end
/// of the text starts no further line.
pub open spec fn lines_spec(s: Seq<char>) -> Seq<Seq<char>>
    decreases s.len(),
    via lines_spec_decreases
{
    if s.len() == 0 {
        Seq::empty()
    } else if line_len(s) >= s.len() {
        seq![s]
    } else {
        seq![strip_cr(s.take(line_len(s) as int))] + lines_spec(s.skip(line_len(s) as int + 1))
    }
}

#[via_fn]
proof fn lines_spec_decreases(s: Seq<char>) {
    lemma_line_len_bound(s);
}

/// Text without a line feed.
pub open spec fn no_line_feed(s: Seq<char>) -> bool {
    forall|i: int| 0 <= i < s.len() ==> #[trigger] s[i] != '\n'
}

/// The first line of a text ends where it ends in the part before the
/// first line feed, whatever follows.
pub proof fn lemma_line_len_concat(a: Seq<char>, b: Seq<char>)
    requires
        line_len(a) < a.len(),
    ensures
        line_len(a + b) == line_len(a),
    decreases a.len(),
{
    let s = a + b;
    assert(s[0] == a[0]);
    if a[0] != '\n' {
        assert(s.skip(1) =~= a.skip(1) + b);
        lemma_line_len_concat(a.skip(1), b);
    }
}

/// A line and its line feed are one line: the line itself, where it holds
/// no line feed and does not end in a carriage return.
pub proof fn lemma_one_line(line: Seq<char>)
    requires
        no_line_feed(line),
        line.len() == 0 || line.last() != '\r',
    ensures
        lines_spec(line + seq!['\n']) == seq![line],
{
    let s = line + seq!['\n'];
    assert(line_len(seq!['\n']) == 0);
    lemma_line_len_first(line, seq!['\n']);
    assert(line_len(s) == line.len());
    assert(s.take(line.len() as int) =~= line);
    assert(strip_cr(line) == line);
    assert(s.skip(line.len() as int + 1) =~= Seq::<char>::empty());
    assert(lines_spec(Seq::<char>::empty()) =~= Seq::<Seq<char>>::empty());
    assert(lines_spec(s) == seq![strip_cr(s.take(line.len() as int))] + lines_spec(
        s.skip(line.len() as int + 1),
    ));
    assert(seq![line] + Seq::<Seq<char>>::empty() =~= seq![line]);
}

/// The first line of a text that begins with a part without line feed goes
/// on into what follows that part.
pub proof fn lemma_line_len_first(a: Seq<char>, b: Seq<char>)
    requires
        no_line_feed(a),
    ensures
        line_len(a + b) == a.len() + line_len(b),
    decreases a.len(),
{
    let s = a + b;
    if a.len() == 0 {
        assert(s =~= b);
    } else {
        assert(s[0] == a[0]);
        assert(a[0] != '\n');
        assert(s.skip(1) =~= a.skip(1) + b);
        assert forall|i: int| 0 <= i < a.skip(1).len() implies #[trigger] a.skip(1)[i] != '\n' by {
            assert(a.skip(1)[i] == a[i + 1]);
        }
        lemma_line_len_first(a.skip(1), b);
    }
}

/// The lines of two texts in a row are the lines of the first and then
/// those of the second, where the first ends with a line feed or is empty.
pub proof fn lemma_lines_concat(a: Seq<char>, b: Seq<char>)
    requires
        a.len() == 0 || a.last() == '\n',
    ensures
        lines_spec(a + b) == lines_spec(a) + lines_spec(b),
    decreases a.len(),
{
    let s = a + b;
    if a.len() == 0 {
        assert(s =~= b);
        assert(lines_spec(a) + lines_spec(b) =~= lines_spec(b));
    } else {
        lemma_line_len_bound(a);
        let k = line_len(a) as int;
        if k >= a.len() {
            lemma_line_len_reaches(a, a.len() - 1);
        }
        assert(k < a.len());
        lemma_line_len_concat(a, b);
        let rest = a.skip(k + 1);
        assert(s.take(k) =~= a.take(k));
        assert(s.skip(k + 1) =~= rest + b);
        if rest.len() > 0 {
            assert(rest.last() == a.last());
        }
        lemma_lines_concat(rest, b);
        let head = seq![strip_cr(a.take(k))];
        assert(head + (lines_spec(rest) + lines_spec(b)) =~= (head + lines_spec(rest)) + lines_spec(
            b,
        ));
    }
}

/// A line does not go on beyond a line feed.
pub proof fn lemma_line_len_reaches(s: Seq<char>, i: int)
    requires
        0 <= i < s.len(),
        s[i] == '\n',
    ensures
        line_len(s) <= i,
    decreases s.len(),
{
    if i > 0 && s[0] != '\n' {
        assert(s.skip(1)[i - 1] == s[i]);
        lemma_line_len_reaches(s.skip(1), i - 1);
    }
}

/// The end of the line that starts at `from`.
fn line_end(v: &Vec<char>, from: usize) -> (to: usize)
    requires
        from <= v.len(),
    ensures
        to == from + line_len(v@.skip(from as int)),
        to <= v.len(),
{
    let n: usize = v.len();
    let mut j: usize = from;
    while j < n && v[j] != '\n'
        invariant
            from <= j <= n,
            n == v.len(),
            from + line_len(v@.skip(from as int)) == j + line_len(v@.skip(j as int)),
        decreases n - j,
    {
        assert(v@.skip(j as int).skip(1) =~= v@.skip(j as int + 1));
        j += 1;
    }
    j
}

/// The lines of `v`.
pub fn split_lines(v: &Vec<char>) -> (r: Vec<Vec<char>>)
    ensures
        views(r@) == lines_spec(v@),
{
    let n: usize = v.len();
    let mut r: Vec<Vec<char>> = Vec::new();
    let mut i: usize = 0;
    assert(v@.skip(0) =~= v@);
    assert(views(r@) =~= Seq::empty());
    while i < n
        invariant
            i <= n,
            n == v.len(),
            views(r@) + lines_spec(v@.skip(i as int)) == lines_spec(v@),
        decreases n - i,
    {
        let ghost rest = v@.skip(i as int);
        let ghost done = views(r@);
        let j = line_end(v, i);
        if j == n {
            let w = slice_of(v, i, j);
            assert(w@ =~= rest);
            assert(views(r@.push(w)) =~= done + seq![w@]);
            r.push(w);
            assert(v@.skip(n as int) =~= Seq::<char>::empty());
            assert(lines_spec(v@.skip(n as int)) =~= Seq::<Seq<char>>::empty());
            i = n;
        } else {
            let end: usize = if j > i && v[j - 1] == '\r' {
                j - 1
            } else {
                j
            };
            let w = slice_of(v, i, end);
            proof {
                let raw = rest.take(line_len(rest) as int);
                assert(raw =~= v@.subrange(i as int, j as int));
                if j > i {
                    assert(raw.last() == v@[j - 1]);
                    assert(raw.drop_last() =~= v@.subrange(i as int, j - 1));
                }
                assert(w@ =~= strip_cr(raw));
                assert(rest.skip(line_len(rest) as int + 1) =~= v@.skip(j as int + 1));
                assert(views(r@.push(w)) =~= done + seq![w@]);
                assert(done + (seq![w@] + lines_spec(v@.skip(j as int + 1))) =~= done + seq![w@]
                    + lines_spec(v@.skip(j as int + 1)));
            }
            r.push(w);
            i = j + 1;
        }
    }
    assert(views(r@) + Seq::<Seq<char>>::empty() =~= views(r@));
    r
}

} // verus!
