//! Escaping of cue text, and its inverse.

use vstd::prelude::*;
use crate::marks::arrow;
use crate::search::{contains_spec, lemma_find_absent, replace, replace_spec, starts_with_spec};
use crate::text::{chars_of, string_of};

verus! {

/// The ampersand.
pub open spec fn amp() -> Seq<char> {
    seq!['&']
}

/// The less-than sign.
pub open spec fn lt() -> Seq<char> {
    seq!['<']
}

/// The greater-than sign.
pub open spec fn gt() -> Seq<char> {
    seq!['>']
}

/// The entity of the ampersand.
pub open spec fn amp_entity() -> Seq<char> {
    seq!['&', 'a', 'm', 'p', ';']
}

/// The entity of the less-than sign.
pub open spec fn lt_entity() -> Seq<char> {
    seq!['&', 'l', 't', ';']
}

/// The entity of the greater-than sign.
pub open spec fn gt_entity() -> Seq<char> {
    seq!['&', 'g', 't', ';']
}

/// The entity of the no-break space.
pub open spec fn nbsp_entity() -> Seq<char> {
    seq!['&', 'n', 'b', 's', 'p', ';']
}

/// The entity of the left-to-right mark.
pub open spec fn lrm_entity() -> Seq<char> {
    seq!['&', 'l', 'r', 'm', ';']
}

/// The entity of the right-to-left mark.
pub open spec fn rlm_entity() -> Seq<char> {
    seq!['&', 'r', 'l', 'm', ';']
}

/// The text with `&`, then `<`, then `>` replaced by their entities. The
/// ampersand goes first, so that the entities' own ampersands stay.
pub open spec fn escape_spec(s: Seq<char>) -> Seq<char> {
    replace_spec(
        replace_spec(replace_spec(s, amp(), amp_entity()), lt(), lt_entity()),
        gt(),
        gt_entity(),
    )
}

/// The text with the six entities replaced by their characters, one entity
/// after the other over the whole text, in this order: `&amp;`, `&lt;`,
/// `&gt;`, `&nbsp;`, `&lrm;`, `&rlm;`.
pub open spec fn unescape_spec(s: Seq<char>) -> Seq<char> {
    let a = replace_spec(s, amp_entity(), amp());
    let b = replace_spec(a, lt_entity(), lt());
    let c = replace_spec(b, gt_entity(), gt());
    let d = replace_spec(c, nbsp_entity(), seq!['\u{00A0}']);
    let e = replace_spec(d, lrm_entity(), seq!['\u{200E}']);
    replace_spec(e, rlm_entity(), seq!['\u{200F}'])
}

/// What stands for one character once some of `&`, `<` and `>` have been
/// replaced by their entities.
pub open spec fn piece(c: char, a: bool, l: bool, g: bool) -> Seq<char> {
    if c == '&' && a {
        amp_entity()
    } else if c == '<' && l {
        lt_entity()
    } else if c == '>' && g {
        gt_entity()
    } else {
        seq![c]
    }
}

/// The text with each character replaced by what stands for it.
pub open spec fn expand(s: Seq<char>, a: bool, l: bool, g: bool) -> Seq<char>
    decreases s.len(),
{
    if s.len() == 0 {
        Seq::empty()
    } else {
        piece(s[0], a, l, g) + expand(s.skip(1), a, l, g)
    }
}

/// The text holds no character but `&`, `<` and `>`.
pub open spec fn only_markup(s: Seq<char>) -> bool {
    forall|i: int| 0 <= i < s.len() ==> (#[trigger] s[i] == '&' || s[i] == '<' || s[i] == '>')
}

/// A text cannot begin with a pattern from which it differs at `k`.
pub proof fn lemma_mismatch(s: Seq<char>, pat: Seq<char>, k: int)
    requires
        0 <= k < pat.len(),
        k >= s.len() || s[k] != pat[k],
    ensures
        !starts_with_spec(s, pat),
{
    if starts_with_spec(s, pat) {
        assert(s.take(pat.len() as int)[k] == pat[k]);
    }
}

/// Replacement leaves a prefix alone at none of whose places the pattern
/// starts.
pub proof fn lemma_replace_passes(pre: Seq<char>, rest: Seq<char>, pat: Seq<char>, to: Seq<char>)
    requires
        pat.len() > 0,
        forall|i: int|
            0 <= i < pre.len() ==> !starts_with_spec(#[trigger] (pre + rest).skip(i), pat),
    ensures
        replace_spec(pre + rest, pat, to) == pre + replace_spec(rest, pat, to),
    decreases pre.len(),
{
    let s = pre + rest;
    if pre.len() == 0 {
        assert(s =~= rest);
        assert(pre + replace_spec(rest, pat, to) =~= replace_spec(rest, pat, to));
    } else {
        assert(s.skip(0) =~= s);
        let tail = pre.skip(1);
        assert(s.skip(1) =~= tail + rest);
        assert forall|i: int| 0 <= i < tail.len() implies !starts_with_spec(
            #[trigger] (tail + rest).skip(i),
            pat,
        ) by {
            assert((tail + rest).skip(i) =~= s.skip(i + 1));
        }
        lemma_replace_passes(tail, rest, pat, to);
        assert(seq![s[0]] + (tail + replace_spec(rest, pat, to)) =~= pre + replace_spec(
            rest,
            pat,
            to,
        ));
    }
}

/// Replacement changes nothing in a text that lacks one of the pattern's
/// characters.
pub proof fn lemma_replace_absent(s: Seq<char>, pat: Seq<char>, to: Seq<char>, k: int)
    requires
        0 <= k < pat.len(),
        forall|i: int| 0 <= i < s.len() ==> #[trigger] s[i] != pat[k],
    ensures
        replace_spec(s, pat, to) == s,
    decreases s.len(),
{
    if s.len() > 0 {
        lemma_mismatch(s, pat, k);
        lemma_replace_absent(s.skip(1), pat, to, k);
        assert(seq![s[0]] + s.skip(1) =~= s);
    }
}

/// Replacing one character works on each half of a text by itself.
pub proof fn lemma_replace_char_concat(a: Seq<char>, b: Seq<char>, c: char, to: Seq<char>)
    ensures
        replace_spec(a + b, seq![c], to) == replace_spec(a, seq![c], to) + replace_spec(
            b,
            seq![c],
            to,
        ),
    decreases a.len(),
{
    let pat = seq![c];
    let s = a + b;
    if a.len() == 0 {
        assert(s =~= b);
        assert(replace_spec(a, pat, to) + replace_spec(b, pat, to) =~= replace_spec(b, pat, to));
    } else {
        lemma_replace_char_concat(a.skip(1), b, c, to);
        assert(s.skip(1) =~= a.skip(1) + b);
        assert(s.take(1) =~= a.take(1));
        assert(starts_with_spec(s, pat) == starts_with_spec(a, pat));
        let ra = replace_spec(a.skip(1), pat, to);
        let rb = replace_spec(b, pat, to);
        if starts_with_spec(s, pat) {
            assert(to + (ra + rb) =~= (to + ra) + rb);
        } else {
            assert(seq![s[0]] + (ra + rb) =~= (seq![a[0]] + ra) + rb);
        }
    }
}

/// Replacing one character in a text of one character.
pub proof fn lemma_replace_char_single(x: char, c: char, to: Seq<char>)
    ensures
        replace_spec(seq![x], seq![c], to) == if x == c {
            to
        } else {
            seq![x]
        },
{
    let s = seq![x];
    let pat = seq![c];
    assert(s.skip(1) =~= Seq::<char>::empty());
    assert(s.take(1) =~= s);
    assert(replace_spec(s.skip(1), pat, to) == s.skip(1));
    if x == c {
        assert(s =~= pat);
        assert(to + Seq::<char>::empty() =~= to);
    } else {
        assert(s[0] != pat[0]);
        assert(seq![x] + Seq::<char>::empty() =~= seq![x]);
    }
}

/// Replacing one of `<` and `>` in what stands for a character.
proof fn lemma_replace_in_piece(x: char, a: bool, l: bool, g: bool, c: char, to: Seq<char>)
    requires
        c == '<' || c == '>',
    ensures
        replace_spec(piece(x, a, l, g), seq![c], to) == if piece(x, a, l, g) == seq![x] && x == c {
            to
        } else {
            piece(x, a, l, g)
        },
{
    let p = piece(x, a, l, g);
    if p == seq![x] {
        lemma_replace_char_single(x, c, to);
    } else {
        assert(seq![c][0] == c);
        lemma_replace_absent(p, seq![c], to, 0);
        assert(p.len() > 1);
    }
}

/// Escaping replaces each character by what stands for it.
pub proof fn lemma_escape_expands(s: Seq<char>)
    ensures
        escape_spec(s) == expand(s, true, true, true),
{
    lemma_escape_first(s);
    lemma_escape_next(s, true, false, false, '<', lt_entity());
    lemma_escape_next(s, true, true, false, '>', gt_entity());
}

/// Replacing the ampersands replaces each by its entity.
proof fn lemma_escape_first(s: Seq<char>)
    ensures
        replace_spec(s, amp(), amp_entity()) == expand(s, true, false, false),
    decreases s.len(),
{
    if s.len() > 0 {
        lemma_escape_first(s.skip(1));
        assert(s.take(1) =~= seq![s[0]]);
        if s[0] == '&' {
            assert(s.take(1) =~= amp());
        } else {
            assert(s.take(1)[0] != amp()[0]);
        }
    }
}

/// Replacing `<` or `>` after the characters before it in the order have
/// been replaced replaces each by its entity, and leaves the entities
/// that stand already.
proof fn lemma_escape_next(s: Seq<char>, a: bool, l: bool, g: bool, c: char, to: Seq<char>)
    requires
        (c == '<' && !l && !g && to == lt_entity()) || (c == '>' && !g && to == gt_entity()),
    ensures
        replace_spec(expand(s, a, l, g), seq![c], to) == expand(
            s,
            a,
            l || c == '<',
            g || c == '>',
        ),
    decreases s.len(),
{
    if s.len() > 0 {
        lemma_escape_next(s.skip(1), a, l, g, c, to);
        lemma_replace_char_concat(piece(s[0], a, l, g), expand(s.skip(1), a, l, g), c, to);
        lemma_replace_in_piece(s[0], a, l, g, c, to);
    }
}

/// What stands for a text, with every `<` and `>` replaced, holds neither
/// of the two.
proof fn lemma_expand_has_no_brackets(s: Seq<char>, a: bool)
    ensures
        forall|i: int|
            0 <= i < expand(s, a, true, true).len() ==> #[trigger] expand(s, a, true, true)[i]
                != '<' && expand(s, a, true, true)[i] != '>',
    decreases s.len(),
{
    if s.len() > 0 {
        lemma_expand_has_no_brackets(s.skip(1), a);
        let p = piece(s[0], a, true, true);
        let rest = expand(s.skip(1), a, true, true);
        let e = expand(s, a, true, true);
        assert forall|i: int| 0 <= i < e.len() implies #[trigger] e[i] != '<' && e[i] != '>' by {
            if i < p.len() {
                assert(e[i] == p[i]);
            } else {
                assert(e[i] == rest[i - p.len()]);
            }
        }
    }
}

/// Escaped text holds no `<` and no `>`, and so no `-->`: whatever the
/// text was, escaped it cannot be taken for a timing line.
pub proof fn lemma_escaped_has_no_arrow(s: Seq<char>)
    ensures
        forall|i: int|
            0 <= i < escape_spec(s).len() ==> #[trigger] escape_spec(s)[i] != '<' && escape_spec(
                s,
            )[i] != '>',
        !contains_spec(escape_spec(s), arrow()),
{
    lemma_escape_expands(s);
    lemma_expand_has_no_brackets(s, true);
    assert(arrow()[2] == '>');
    lemma_find_absent(escape_spec(s), arrow(), 2);
}

/// What stands for a text of `&`, `<` and `>` is empty or begins with one
/// of them.
proof fn lemma_expand_head(s: Seq<char>, a: bool, l: bool, g: bool)
    requires
        only_markup(s),
    ensures
        expand(s, a, l, g).len() == 0 || expand(s, a, l, g)[0] == '&' || expand(s, a, l, g)[0]
            == '<' || expand(s, a, l, g)[0] == '>',
        !a && l ==> expand(s, a, l, g).len() == 0 || expand(s, a, l, g)[0] == '&' || expand(
            s,
            a,
            l,
            g,
        )[0] == '>',
{
    if s.len() > 0 {
        assert(s[0] == '&' || s[0] == '<' || s[0] == '>');
        let p = piece(s[0], a, l, g);
        assert(expand(s, a, l, g)[0] == p[0]);
    }
}

/// Undoing one entity over a text of entities and bare characters.
proof fn lemma_unescape_step(s: Seq<char>, a: bool, l: bool, g: bool, k: int)
    requires
        only_markup(s),
        (k == 0 && a && l && g) || (k == 1 && !a && l && g) || (k == 2 && !a && !l && g),
    ensures
        replace_spec(
            expand(s, a, l, g),
            if k == 0 {
                amp_entity()
            } else if k == 1 {
                lt_entity()
            } else {
                gt_entity()
            },
            if k == 0 {
                amp()
            } else if k == 1 {
                lt()
            } else {
                gt()
            },
        ) == expand(s, a && k != 0, l && k != 1, g && k != 2),
    decreases s.len(),
{
    let pat = if k == 0 {
        amp_entity()
    } else if k == 1 {
        lt_entity()
    } else {
        gt_entity()
    };
    let to = if k == 0 {
        amp()
    } else if k == 1 {
        lt()
    } else {
        gt()
    };
    if s.len() > 0 {
        let c = s[0];
        let t = s.skip(1);
        assert(only_markup(t)) by {
            assert forall|i: int| 0 <= i < t.len() implies (#[trigger] t[i] == '&' || t[i] == '<'
                || t[i] == '>') by {
                assert(t[i] == s[i + 1]);
            }
        }
        assert(c == '&' || c == '<' || c == '>');
        lemma_unescape_step(t, a, l, g, k);
        lemma_expand_head(t, a, l, g);
        let pre = piece(c, a, l, g);
        let rest = expand(t, a, l, g);
        let whole = pre + rest;
        let hit = (k == 0 && c == '&') || (k == 1 && c == '<') || (k == 2 && c == '>');
        if hit {
            assert(pre == pat);
            assert(whole.take(pat.len() as int) =~= pat);
            assert(whole.skip(pat.len() as int) =~= rest);
        } else {
            assert forall|i: int| 0 <= i < pre.len() implies !starts_with_spec(
                #[trigger] whole.skip(i),
                pat,
            ) by {
                let w = whole.skip(i);
                if i == 0 {
                    if pre.len() > 1 {
                        assert(w[1] == pre[1]);
                        lemma_mismatch(w, pat, 1);
                    } else if c == '&' {
                        if rest.len() > 0 {
                            assert(w[1] == rest[0]);
                        }
                        lemma_mismatch(w, pat, 1);
                    } else {
                        assert(w[0] == c);
                        lemma_mismatch(w, pat, 0);
                    }
                } else {
                    assert(w[0] == pre[i]);
                    lemma_mismatch(w, pat, 0);
                }
            }
            lemma_replace_passes(pre, rest, pat, to);
        }
    }
}

/// A text without entities expands to itself.
proof fn lemma_expand_nothing(s: Seq<char>)
    ensures
        expand(s, false, false, false) == s,
    decreases s.len(),
{
    if s.len() > 0 {
        lemma_expand_nothing(s.skip(1));
        assert(seq![s[0]] + s.skip(1) =~= s);
    }
}

/// Unescaping undoes escaping on every text made of `&`, `<` and `>` alone.
pub proof fn lemma_unescape_escape(s: Seq<char>)
    requires
        only_markup(s),
    ensures
        unescape_spec(escape_spec(s)) == s,
{
    lemma_escape_expands(s);
    lemma_unescape_step(s, true, true, true, 0);
    lemma_unescape_step(s, false, true, true, 1);
    lemma_unescape_step(s, false, false, true, 2);
    lemma_expand_nothing(s);
    assert(nbsp_entity()[1] == 'n');
    lemma_replace_absent(s, nbsp_entity(), seq!['\u{00A0}'], 1);
    assert(lrm_entity()[1] == 'l');
    lemma_replace_absent(s, lrm_entity(), seq!['\u{200E}'], 1);
    assert(rlm_entity()[1] == 'r');
    lemma_replace_absent(s, rlm_entity(), seq!['\u{200F}'], 1);
}

/// The escaped form of `v`.
pub fn escape_chars(v: &Vec<char>) -> (r: Vec<char>)
    ensures
        r@ == escape_spec(v@),
{
    let find_amp: Vec<char> = vec!['&'];
    let put_amp: Vec<char> = vec!['&', 'a', 'm', 'p', ';'];
    let find_lt: Vec<char> = vec!['<'];
    let put_lt: Vec<char> = vec!['&', 'l', 't', ';'];
    let find_gt: Vec<char> = vec!['>'];
    let put_gt: Vec<char> = vec!['&', 'g', 't', ';'];
    assert(find_amp@ =~= amp() && put_amp@ =~= amp_entity());
    assert(find_lt@ =~= lt() && put_lt@ =~= lt_entity());
    assert(find_gt@ =~= gt() && put_gt@ =~= gt_entity());
    let a = replace(v, &find_amp, &put_amp);
    let b = replace(&a, &find_lt, &put_lt);
    replace(&b, &find_gt, &put_gt)
}

/// The unescaped form of `v`.
pub fn unescape_chars(v: &Vec<char>) -> (r: Vec<char>)
    ensures
        r@ == unescape_spec(v@),
{
    let find_amp: Vec<char> = vec!['&', 'a', 'm', 'p', ';'];
    let put_amp: Vec<char> = vec!['&'];
    let find_lt: Vec<char> = vec!['&', 'l', 't', ';'];
    let put_lt: Vec<char> = vec!['<'];
    let find_gt: Vec<char> = vec!['&', 'g', 't', ';'];
    let put_gt: Vec<char> = vec!['>'];
    let find_nbsp: Vec<char> = vec!['&', 'n', 'b', 's', 'p', ';'];
    let put_nbsp: Vec<char> = vec!['\u{00A0}'];
    let find_lrm: Vec<char> = vec!['&', 'l', 'r', 'm', ';'];
    let put_lrm: Vec<char> = vec!['\u{200E}'];
    let find_rlm: Vec<char> = vec!['&', 'r', 'l', 'm', ';'];
    let put_rlm: Vec<char> = vec!['\u{200F}'];
    assert(find_amp@ =~= amp_entity() && put_amp@ =~= amp());
    assert(find_lt@ =~= lt_entity() && put_lt@ =~= lt());
    assert(find_gt@ =~= gt_entity() && put_gt@ =~= gt());
    assert(find_nbsp@ =~= nbsp_entity() && put_nbsp@ =~= seq!['\u{00A0}']);
    assert(find_lrm@ =~= lrm_entity() && put_lrm@ =~= seq!['\u{200E}']);
    assert(find_rlm@ =~= rlm_entity() && put_rlm@ =~= seq!['\u{200F}']);
    let a = replace(v, &find_amp, &put_amp);
    let b = replace(&a, &find_lt, &put_lt);
    let c = replace(&b, &find_gt, &put_gt);
    let d = replace(&c, &find_nbsp, &put_nbsp);
    let e = replace(&d, &find_lrm, &put_lrm);
    replace(&e, &find_rlm, &put_rlm)
}

/// The text with `&`, `<` and `>` replaced by `&amp;`, `&lt;` and `&gt;`.
pub fn escape_vtt_text(text: &str) -> (r: String)
    ensures
        r@ == escape_spec(text@),
{
    let v = chars_of(text);
    let e = escape_chars(&v);
    string_of(&e)
}

/// The text with `&amp;`, `&lt;`, `&gt;`, `&nbsp;`, `&lrm;` and `&rlm;`
/// replaced by the characters they stand for.
pub fn unescape_vtt_text(text: &str) -> (r: String)
    ensures
        r@ == unescape_spec(text@),
{
    let v = chars_of(text);
    let u = unescape_chars(&v);
    string_of(&u)
}

} // verus!
