//! Comparison of text without regard to the case of ASCII letters.

use vstd::prelude::*;

verus! {

/// The character in lower case, where it is an ASCII letter in upper case;
/// else the character itself.
pub open spec fn lower_spec(c: char) -> char {
    if 0x41 <= c as u32 <= 0x5A {
        ((c as u32 + 32) as u8) as char
    } else {
        c
    }
}

/// The character in lower case, where it is an ASCII letter.
pub fn lower(c: char) -> (r: char)
    ensures
        r == lower_spec(c),
{
    let u: u32 = c as u32;
    if 0x41 <= u && u <= 0x5A {
        ((u + 32) as u8) as char
    } else {
        c
    }
}

/// The two texts are equal but for the case of ASCII letters.
pub open spec fn same_letters(a: Seq<char>, b: Seq<char>) -> bool {
    a.len() == b.len() && forall|i: int|
        0 <= i < a.len() ==> lower_spec(#[trigger] a[i]) == lower_spec(b[i])
}

/// An ASCII letter, an ASCII digit or the underscore: what a word is made
/// of, as far as the ends of words are concerned.
pub open spec fn is_word_char(c: char) -> bool {
    let u = c as u32;
    ||| 0x30 <= u <= 0x39
    ||| 0x41 <= u <= 0x5A
    ||| 0x61 <= u <= 0x7A
    ||| u == 0x5F
}

/// Whether `c` is an ASCII letter, an ASCII digit or the underscore.
pub fn word_char(c: char) -> (b: bool)
    ensures
        b == is_word_char(c),
{
    let u: u32 = c as u32;
    (0x30 <= u && u <= 0x39) || (0x41 <= u && u <= 0x5A) || (0x61 <= u && u <= 0x7A) || u == 0x5F
}

/// Whether `a[from..from + b.len()]` and `b` are equal but for the case of
/// ASCII letters.
pub fn same_letters_at(a: &Vec<char>, from: usize, b: &Vec<char>) -> (r: bool)
    requires
        from + b.len() <= a.len(),
    ensures
        r == same_letters(a@.subrange(from as int, from + b.len()), b@),
{
    let ghost part = a@.subrange(from as int, from + b.len());
    let mut i: usize = 0;
    while i < b.len()
        invariant
            i <= b.len(),
            from + b.len() <= a.len(),
            part == a@.subrange(from as int, from + b.len()),
            forall|k: int| 0 <= k < i ==> lower_spec(#[trigger] part[k]) == lower_spec(b@[k]),
        decreases b.len() - i,
    {
        assert(part[i as int] == a@[from + i]);
        if lower(a[from + i]) != lower(b[i]) {
            return false;
        }
        i += 1;
    }
    true
}

/// Whether the two texts are equal but for the case of ASCII letters.
pub fn same_letters_exec(a: &Vec<char>, b: &Vec<char>) -> (r: bool)
    ensures
        r == same_letters(a@, b@),
{
    if a.len() != b.len() {
        return false;
    }
    assert(a@.subrange(0, 0 + b.len()) =~= a@);
    same_letters_at(a, 0, b)
}

} // verus!
