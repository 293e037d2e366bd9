//! Substring search and replacement over character sequences.

use vstd::prelude::*;
use crate::text::append;

verus! {

/// `s` begins with `pat`.
pub open spec fn starts_with_spec(s: Seq<char>, pat: Seq<char>) -> bool {
    pat.len() <= s.len() && s.take(pat.len() as int) == pat
}

/// The index of the first occurrence of `pat` in `s`.
pub open spec fn find_spec(s: Seq<char>, pat: Seq<char>) -> Option<nat>
    decreases s.len(),
{
    if starts_with_spec(s, pat) {
        Some(0)
    } else if s.len() == 0 {
        None
    } else {
        match find_spec(s.skip(1), pat) {
            Some(k) => Some(k + 1),
            None => None,
        }
    }
}

/// `pat` occurs in `s`.
pub open spec fn contains_spec(s: Seq<char>, pat: Seq<char>) -> bool {
    find_spec(s, pat) is Some
}

/// `s` with every occurrence of `pat` replaced by `to`, the occurrences
/// taken from the left and not overlapping.
pub open spec fn replace_spec(s: Seq<char>, pat: Seq<char>, to: Seq<char>) -> Seq<char>
    decreases s.len(),
{
    if pat.len() == 0 || s.len() == 0 {
        s
    } else if starts_with_spec(s, pat) {
        to + replace_spec(s.skip(pat.len() as int), pat, to)
    } else {
        seq![s[0]] + replace_spec(s.skip(1), pat, to)
    }
}

/// What `find_spec` returns is the least index at which `pat` starts.
pub proof fn lemma_find_spec(s: Seq<char>, pat: Seq<char>)
    ensures
        match find_spec(s, pat) {
            Some(k) => {
                &&& k + pat.len() <= s.len()
                &&& starts_with_spec(s.skip(k as int), pat)
                &&& forall|j: int| 0 <= j < k ==> !starts_with_spec(#[trigger] s.skip(j), pat)
            },
            None => forall|j: int|
                0 <= j <= s.len() ==> !starts_with_spec(#[trigger] s.skip(j), pat),
        },
    decreases s.len(),
{
    assert(s.skip(0) =~= s);
    if starts_with_spec(s, pat) {
    } else if s.len() == 0 {
        assert forall|j: int| 0 <= j <= s.len() implies !starts_with_spec(
            #[trigger] s.skip(j),
            pat,
        ) by {
            assert(s.skip(j) =~= s);
        }
    } else {
        let t = s.skip(1);
        lemma_find_spec(t, pat);
        match find_spec(t, pat) {
            Some(k) => {
                assert(t.skip(k as int) =~= s.skip(k as int + 1));
                assert forall|j: int| 0 <= j < k + 1 implies !starts_with_spec(
                    #[trigger] s.skip(j),
                    pat,
                ) by {
                    if j > 0 {
                        assert(t.skip(j - 1) =~= s.skip(j));
                    }
                }
            },
            None => {
                assert forall|j: int| 0 <= j <= s.len() implies !starts_with_spec(
                    #[trigger] s.skip(j),
                    pat,
                ) by {
                    if j > 0 {
                        assert(t.skip(j - 1) =~= s.skip(j));
                    }
                }
            },
        }
    }
}

/// The pattern is found at `k` where it starts there and nowhere before.
pub proof fn lemma_find_at(s: Seq<char>, pat: Seq<char>, k: int)
    requires
        0 <= k <= s.len(),
        starts_with_spec(s.skip(k), pat),
        forall|j: int| 0 <= j < k ==> !starts_with_spec(#[trigger] s.skip(j), pat),
    ensures
        find_spec(s, pat) == Some(k as nat),
{
    lemma_find_spec(s, pat);
}

/// The pattern is not found in a text that lacks one of its characters.
pub proof fn lemma_find_absent(s: Seq<char>, pat: Seq<char>, k: int)
    requires
        0 <= k < pat.len(),
        forall|i: int| 0 <= i < s.len() ==> #[trigger] s[i] != pat[k],
    ensures
        find_spec(s, pat) is None,
    decreases s.len(),
{
    if starts_with_spec(s, pat) {
        assert(s.take(pat.len() as int)[k] == pat[k]);
    }
    if s.len() > 0 {
        assert forall|i: int| 0 <= i < s.skip(1).len() implies #[trigger] s.skip(1)[i]
            != pat[k] by {
            assert(s.skip(1)[i] == s[i + 1]);
        }
        lemma_find_absent(s.skip(1), pat, k);
    }
}

/// Whether `pat` stands in `v` at index `at`.
pub fn starts_with_at(v: &Vec<char>, at: usize, pat: &Vec<char>) -> (b: bool)
    requires
        at <= v.len(),
    ensures
        b == starts_with_spec(v@.skip(at as int), pat@),
{
    let m: usize = pat.len();
    if m > v.len() - at {
        return false;
    }
    let ghost rest = v@.skip(at as int);
    let mut k: usize = 0;
    while k < m
        invariant
            k <= m,
            m == pat.len(),
            at + m <= v.len(),
            rest == v@.skip(at as int),
            rest.take(k as int) == pat@.take(k as int),
        decreases m - k,
    {
        if v[at + k] != pat[k] {
            assert(rest.take(m as int)[k as int] != pat@[k as int]);
            return false;
        }
        assert(rest.take(k as int + 1) =~= rest.take(k as int).push(rest[k as int]));
        assert(pat@.take(k as int + 1) =~= pat@.take(k as int).push(pat@[k as int]));
        k += 1;
    }
    assert(pat@.take(m as int) =~= pat@);
    true
}

/// The index of the first occurrence of `pat` in `v` at or after `from`,
/// counted from `from`.
pub fn find_from(v: &Vec<char>, from: usize, pat: &Vec<char>) -> (r: Option<usize>)
    requires
        from <= v.len(),
    ensures
        match r {
            Some(k) => find_spec(v@.skip(from as int), pat@) == Some((k - from) as nat) && from
                <= k && k + pat.len() <= v.len(),
            None => find_spec(v@.skip(from as int), pat@) is None,
        },
{
    let n: usize = v.len();
    let mut i: usize = from;
    let ghost head = v@.skip(from as int);
    loop
        invariant
            from <= i <= n,
            n == v.len(),
            head == v@.skip(from as int),
            find_spec(head, pat@) == match find_spec(v@.skip(i as int), pat@) {
                Some(k) => Some((k + i - from) as nat),
                None => None,
            },
        decreases n - i,
    {
        if starts_with_at(v, i, pat) {
            return Some(i);
        }
        if i == n {
            return None;
        }
        assert(v@.skip(i as int).skip(1) =~= v@.skip(i as int + 1));
        i += 1;
    }
}

/// Whether `pat` occurs in `v`.
pub fn contains(v: &Vec<char>, pat: &Vec<char>) -> (b: bool)
    ensures
        b == contains_spec(v@, pat@),
{
    assert(v@.skip(0) =~= v@);
    find_from(v, 0, pat).is_some()
}

/// `v` with every occurrence of `pat` replaced by `to`.
pub fn replace(v: &Vec<char>, pat: &Vec<char>, to: &Vec<char>) -> (r: Vec<char>)
    requires
        pat.len() > 0,
    ensures
        r@ == replace_spec(v@, pat@, to@),
{
    let n: usize = v.len();
    let m: usize = pat.len();
    let mut r: Vec<char> = Vec::new();
    let mut i: usize = 0;
    assert(v@.skip(0) =~= v@);
    while i < n
        invariant
            i <= n,
            n == v.len(),
            m == pat.len(),
            m > 0,
            r@ + replace_spec(v@.skip(i as int), pat@, to@) == replace_spec(v@, pat@, to@),
        decreases n - i,
    {
        let ghost rest = v@.skip(i as int);
        let ghost before = r@;
        if starts_with_at(v, i, pat) {
            append(&mut r, to);
            assert(rest.skip(m as int) =~= v@.skip(i as int + m as int));
            assert(before + (to@ + replace_spec(rest.skip(m as int), pat@, to@)) =~= before + to@
                + replace_spec(rest.skip(m as int), pat@, to@));
            i += m;
        } else {
            r.push(v[i]);
            assert(rest.skip(1) =~= v@.skip(i as int + 1));
            assert(before + (seq![rest[0]] + replace_spec(rest.skip(1), pat@, to@)) =~= before.push(
                rest[0],
            ) + replace_spec(rest.skip(1), pat@, to@));
            i += 1;
        }
    }
    assert(r@ + Seq::<char>::empty() =~= r@);
    r
}

} // verus!
