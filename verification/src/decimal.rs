//! Decimal numerals: writing a number with a least width, and reading a
//! run of digits.

use vstd::prelude::*;
use crate::text::{all_digits, is_digit_spec};

verus! {

/// The digit that stands for `d`.
pub open spec fn digit_char(d: nat) -> char
    recommends
        d < 10,
{
    ((0x30 + d) as u8) as char
}

/// The number that the digit `c` stands for.
pub open spec fn digit_value(c: char) -> nat
    recommends
        is_digit_spec(c),
{
    (c as u32 - 0x30) as nat
}

/// The decimal numeral of `n`, without leading zeros.
pub open spec fn decimal_spec(n: nat) -> Seq<char>
    decreases n,
{
    if n < 10 {
        seq![digit_char(n)]
    } else {
        decimal_spec(n / 10).push(digit_char(n % 10))
    }
}

/// `k` zeros.
pub open spec fn zeros(k: nat) -> Seq<char> {
    Seq::new(k, |i: int| '0')
}

/// The decimal numeral of `n`, with zeros in front up to `width` characters.
pub open spec fn pad_spec(n: nat, width: nat) -> Seq<char> {
    if decimal_spec(n).len() >= width {
        decimal_spec(n)
    } else {
        zeros((width - decimal_spec(n).len()) as nat) + decimal_spec(n)
    }
}

/// The number that a run of digits stands for.
pub open spec fn digits_value(s: Seq<char>) -> nat
    decreases s.len(),
{
    if s.len() == 0 {
        0
    } else {
        digits_value(s.drop_last()) * 10 + digit_value(s.last())
    }
}

/// The digit of a number below ten is a digit and stands for that number.
pub proof fn lemma_digit_char(d: nat)
    requires
        d < 10,
    ensures
        is_digit_spec(digit_char(d)),
        digit_value(digit_char(d)) == d,
{
}

/// A numeral holds digits only, at least one, and stands for its number.
pub proof fn lemma_decimal(n: nat)
    ensures
        all_digits(decimal_spec(n)),
        decimal_spec(n).len() >= 1,
        digits_value(decimal_spec(n)) == n,
        n < 10 ==> decimal_spec(n).len() == 1,
        10 <= n < 100 ==> decimal_spec(n).len() == 2,
        100 <= n < 1000 ==> decimal_spec(n).len() == 3,
        n >= 10 ==> decimal_spec(n).len() >= 2,
    decreases n,
{
    if n < 10 {
        lemma_digit_char(n);
        let s = decimal_spec(n);
        assert(s.drop_last() =~= Seq::<char>::empty());
        assert(digits_value(s.drop_last()) == 0);
    } else {
        lemma_decimal(n / 10);
        lemma_digit_char(n % 10);
        let s = decimal_spec(n);
        assert(s.drop_last() =~= decimal_spec(n / 10));
    }
}

/// Zeros in front change neither what a run of digits stands for nor that
/// it holds digits only.
pub proof fn lemma_leading_zeros(k: nat, s: Seq<char>)
    ensures
        digits_value(zeros(k) + s) == digits_value(s),
        all_digits(s) ==> all_digits(zeros(k) + s),
    decreases s.len(), k,
{
    let t = zeros(k) + s;
    if s.len() > 0 {
        lemma_leading_zeros(k, s.drop_last());
        assert(t.drop_last() =~= zeros(k) + s.drop_last());
    } else if k > 0 {
        lemma_leading_zeros((k - 1) as nat, s);
        assert(t.drop_last() =~= zeros((k - 1) as nat) + s);
    } else {
        assert(t =~= s);
    }
}

/// A padded numeral holds digits only, stands for its number, and has the
/// asked width where the number fits in it.
pub proof fn lemma_pad(n: nat, width: nat)
    ensures
        all_digits(pad_spec(n, width)),
        digits_value(pad_spec(n, width)) == n,
        pad_spec(n, width).len() >= width,
        pad_spec(n, width).len() >= 1,
        width == 2 && n < 100 ==> pad_spec(n, width).len() == 2,
        width == 3 && n < 1000 ==> pad_spec(n, width).len() == 3,
{
    lemma_decimal(n);
    if decimal_spec(n).len() < width {
        lemma_leading_zeros((width - decimal_spec(n).len()) as nat, decimal_spec(n));
    }
}

/// Appends the decimal numeral of `n` to `out`.
pub fn push_decimal(out: &mut Vec<char>, n: u64)
    ensures
        final(out)@ == old(out)@ + decimal_spec(n as nat),
    decreases n,
{
    if n >= 10 {
        push_decimal(out, n / 10);
    }
    let d: u8 = (n % 10) as u8;
    let c: char = (0x30u8 + d) as char;
    out.push(c);
    proof {
        if n >= 10 {
            assert(old(out)@ + decimal_spec(n as nat) =~= (old(out)@ + decimal_spec(
                (n / 10) as nat,
            )).push(c));
        } else {
            assert(old(out)@ + decimal_spec(n as nat) =~= old(out)@.push(c));
        }
    }
}

/// A signed number in decimal: a minus sign before the numeral of a
/// negative number.
pub open spec fn signed_decimal_spec(n: int) -> Seq<char> {
    if n < 0 {
        seq!['-'] + decimal_spec((-n) as nat)
    } else {
        decimal_spec(n as nat)
    }
}

/// Appends the signed decimal numeral of `n` to `out`.
pub fn push_signed(out: &mut Vec<char>, n: i64)
    ensures
        final(out)@ == old(out)@ + signed_decimal_spec(n as int),
{
    if n < 0 {
        out.push('-');
        let m: u64 = if n == i64::MIN {
            0x8000_0000_0000_0000u64
        } else {
            (-n) as u64
        };
        push_decimal(out, m);
        assert(final(out)@ =~= old(out)@ + signed_decimal_spec(n as int));
    } else {
        push_decimal(out, n as u64);
    }
}

/// The number of characters in the decimal numeral of `n`.
pub fn decimal_len(n: u64) -> (k: usize)
    ensures
        k == decimal_spec(n as nat).len(),
        1 <= k <= 20,
    decreases n,
{
    if n < 10 {
        1
    } else {
        let k = decimal_len(n / 10);
        proof {
            lemma_decimal_len_bound(n as nat);
        }
        k + 1
    }
}

/// A number of 64 bits has twenty digits at most.
pub proof fn lemma_decimal_len_bound(n: nat)
    requires
        n <= u64::MAX,
    ensures
        decimal_spec(n).len() <= 20,
{
    reveal_with_fuel(decimal_spec, 21);
}

/// Appends the decimal numeral of `n` to `out`, with zeros in front up to
/// `width` characters.
pub fn push_padded(out: &mut Vec<char>, n: u64, width: usize)
    ensures
        final(out)@ == old(out)@ + pad_spec(n as nat, width as nat),
{
    let k: usize = decimal_len(n);
    let mut i: usize = k;
    while i < width
        invariant
            k <= i,
            i <= width || i == k,
            out@ == old(out)@ + zeros((i - k) as nat),
        decreases width - i,
    {
        out.push('0');
        assert(zeros((i + 1 - k) as nat) =~= zeros((i - k) as nat).push('0'));
        assert(old(out)@ + zeros((i + 1 - k) as nat) =~= (old(out)@ + zeros((i - k) as nat)).push(
            '0',
        ));
        i += 1;
    }
    let ghost mid = out@;
    push_decimal(out, n);
    proof {
        if k >= width {
            assert(zeros(0) =~= Seq::<char>::empty());
            assert(mid =~= old(out)@ + zeros(0));
        } else {
            assert(old(out)@ + zeros((width - k) as nat) + decimal_spec(n as nat) =~= old(out)@ + (
            zeros((width - k) as nat) + decimal_spec(n as nat)));
        }
    }
}

} // verus!
