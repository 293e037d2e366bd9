//! The timestamp codec: whole milliseconds to `HH:MM:SS.mmm` or
//! `MM:SS.mmm` and back, under a strict grammar.

use vstd::prelude::*;
use crate::decimal::{digit_value, digits_value, lemma_pad, pad_spec, push_padded};
use crate::error::{timestamp_error, ErrorKind, VttError};
use crate::text::{all_digits, append_str, chars_of, is_digit, is_digit_spec, string_of};

verus! {

/// The greatest time that a validated segment may hold: 99:59:59.999.
pub const MAX_MILLIS: u64 = 359_999_999;

/// The whole hours of a time.
pub open spec fn hours_of(ms: nat) -> nat {
    ms / 3_600_000
}

/// The minutes of a time within its hour.
pub open spec fn minutes_of(ms: nat) -> nat {
    (ms / 60_000) % 60
}

/// The seconds of a time within its minute.
pub open spec fn seconds_of(ms: nat) -> nat {
    (ms / 1_000) % 60
}

/// The milliseconds of a time within its second.
pub open spec fn millis_of(ms: nat) -> nat {
    ms % 1_000
}

/// `MM:SS.mmm`, for a time below one hour.
pub open spec fn short_form(ms: nat) -> Seq<char> {
    pad_spec(minutes_of(ms), 2) + seq![':'] + pad_spec(seconds_of(ms), 2) + seq!['.'] + pad_spec(
        millis_of(ms),
        3,
    )
}

/// `HH:MM:SS.mmm`; the hours take more than two digits where they need them.
pub open spec fn long_form(ms: nat) -> Seq<char> {
    pad_spec(hours_of(ms), 2) + seq![':'] + short_form(ms)
}

/// The timestamp of `ms` milliseconds. The short form is used where it is
/// asked for and the hours are zero.
pub open spec fn format_spec(ms: nat, short: bool) -> Seq<char> {
    if short && hours_of(ms) == 0 {
        short_form(ms)
    } else {
        long_form(ms)
    }
}

/// Two digits that stand for a number below 60.
pub open spec fn sexagesimal(s: Seq<char>) -> bool {
    s.len() == 2 && all_digits(s) && digits_value(s) <= 59
}

/// The part of a timestamp before the seconds' colon.
pub open spec fn lead_part(s: Seq<char>) -> Seq<char> {
    s.take(s.len() - 7)
}

/// The two characters of the seconds.
pub open spec fn seconds_part(s: Seq<char>) -> Seq<char> {
    s.subrange(s.len() - 6, s.len() - 4)
}

/// The three characters of the milliseconds.
pub open spec fn millis_part(s: Seq<char>) -> Seq<char> {
    s.subrange(s.len() - 3, s.len() as int)
}

/// The lead part is minutes alone: two digits or more.
pub open spec fn lead_is_minutes(p: Seq<char>) -> bool {
    p.len() >= 2 && all_digits(p)
}

/// The lead part is hours of two digits or more, a colon, and minutes.
pub open spec fn lead_is_hours_minutes(p: Seq<char>) -> bool {
    &&& p.len() >= 5
    &&& p[p.len() - 3] == ':'
    &&& sexagesimal(p.subrange(p.len() - 2, p.len() as int))
    &&& all_digits(p.take(p.len() - 3))
}

/// The grammar of a timestamp: `MM:SS.mmm` with minutes of two digits or
/// more, or `HH:MM:SS.mmm` with hours of two digits or more; seconds, and
/// minutes after hours, are two digits below 60; the milliseconds are three
/// digits.
pub open spec fn valid_timestamp_spec(s: Seq<char>) -> bool {
    &&& s.len() >= 9
    &&& s[s.len() - 4] == '.'
    &&& all_digits(millis_part(s))
    &&& s[s.len() - 7] == ':'
    &&& sexagesimal(seconds_part(s))
    &&& (lead_is_minutes(lead_part(s)) || lead_is_hours_minutes(lead_part(s)))
}

/// The number in front of a valid timestamp: its hours, or its minutes
/// where it has no hours.
pub open spec fn lead_number(s: Seq<char>) -> nat {
    let p = lead_part(s);
    if lead_is_minutes(p) {
        digits_value(p)
    } else {
        digits_value(p.take(p.len() - 3))
    }
}

/// The milliseconds that a valid timestamp stands for.
pub open spec fn timestamp_value(s: Seq<char>) -> nat {
    let p = lead_part(s);
    let tail = digits_value(seconds_part(s)) * 1_000 + digits_value(millis_part(s));
    if lead_is_minutes(p) {
        digits_value(p) * 60_000 + tail
    } else {
        digits_value(p.take(p.len() - 3)) * 3_600_000 + digits_value(
            p.subrange(p.len() - 2, p.len() as int),
        ) * 60_000 + tail
    }
}

/// What parsing gives: the value of a timestamp that meets the grammar and
/// whose leading number fits in 32 bits, and nothing else.
pub open spec fn parse_spec(s: Seq<char>) -> Option<nat> {
    if valid_timestamp_spec(s) && lead_number(s) <= u32::MAX {
        Some(timestamp_value(s))
    } else {
        None
    }
}

/// The message of the error that a malformed timestamp gives.
pub open spec fn parse_error_message(s: Seq<char>) -> Seq<char> {
    "Invalid timestamp format: '"@ + s + "'"@
}

/// The short form has nine characters, and its parts stand where the
/// grammar looks for them.
pub proof fn lemma_short_form(ms: nat)
    ensures
        short_form(ms).len() == 9,
        short_form(ms).take(2) == pad_spec(minutes_of(ms), 2),
        short_form(ms)[2] == ':',
        short_form(ms).subrange(3, 5) == pad_spec(seconds_of(ms), 2),
        short_form(ms)[5] == '.',
        short_form(ms).subrange(6, 9) == pad_spec(millis_of(ms), 3),
        sexagesimal(pad_spec(minutes_of(ms), 2)),
        sexagesimal(pad_spec(seconds_of(ms), 2)),
        all_digits(pad_spec(millis_of(ms), 3)),
{
    let m = pad_spec(minutes_of(ms), 2);
    let s = pad_spec(seconds_of(ms), 2);
    let f = pad_spec(millis_of(ms), 3);
    lemma_pad(minutes_of(ms), 2);
    lemma_pad(seconds_of(ms), 2);
    lemma_pad(millis_of(ms), 3);
    let t = short_form(ms);
    assert(t.len() == 9);
    assert(t.take(2) =~= m);
    assert(t.subrange(3, 5) =~= s);
    assert(t.subrange(6, 9) =~= f);
}

/// A time is its hours, minutes, seconds and milliseconds together.
pub proof fn lemma_time_parts(ms: nat)
    ensures
        ms == hours_of(ms) * 3_600_000 + minutes_of(ms) * 60_000 + seconds_of(ms) * 1_000
            + millis_of(ms),
        minutes_of(ms) < 60,
        seconds_of(ms) < 60,
        millis_of(ms) < 1_000,
{
}

/// The short form of a time below one hour meets the grammar and stands
/// for that time.
pub proof fn lemma_short_form_parses(ms: nat)
    requires
        hours_of(ms) == 0,
    ensures
        valid_timestamp_spec(short_form(ms)),
        lead_is_minutes(lead_part(short_form(ms))),
        lead_number(short_form(ms)) == minutes_of(ms),
        timestamp_value(short_form(ms)) == ms,
{
    lemma_short_form(ms);
    lemma_time_parts(ms);
    let t = short_form(ms);
    lemma_pad(minutes_of(ms), 2);
    lemma_pad(seconds_of(ms), 2);
    lemma_pad(millis_of(ms), 3);
    assert(lead_part(t) =~= t.take(2));
    assert(seconds_part(t) =~= t.subrange(3, 5));
    assert(millis_part(t) =~= t.subrange(6, 9));
}

/// The long form of a time is its hours and a colon before its short
/// form, and its parts stand where the grammar looks for them.
proof fn lemma_long_form(ms: nat)
    ensures
        long_form(ms).len() == pad_spec(hours_of(ms), 2).len() + 10,
        pad_spec(hours_of(ms), 2).len() >= 2,
        millis_part(long_form(ms)) == pad_spec(millis_of(ms), 3),
        seconds_part(long_form(ms)) == pad_spec(seconds_of(ms), 2),
        long_form(ms)[long_form(ms).len() - 4] == '.',
        long_form(ms)[long_form(ms).len() - 7] == ':',
        lead_part(long_form(ms)) == pad_spec(hours_of(ms), 2) + seq![':'] + pad_spec(
            minutes_of(ms),
            2,
        ),
{
    lemma_short_form(ms);
    lemma_pad(hours_of(ms), 2);
    let t = short_form(ms);
    let h = pad_spec(hours_of(ms), 2);
    let l = long_form(ms);
    let k = h.len() as int;
    assert(l == h + seq![':'] + t);
    assert(l.len() == k + 10);
    assert(millis_part(l) =~= t.subrange(6, 9));
    assert(seconds_part(l) =~= t.subrange(3, 5));
    assert(l[k + 6] == t[5]);
    assert(l[k + 3] == t[2]);
    assert(lead_part(l) =~= h + seq![':'] + t.take(2));
}

/// The long form of a time meets the grammar and stands for that time.
pub proof fn lemma_long_form_parses(ms: nat)
    ensures
        valid_timestamp_spec(long_form(ms)),
        !lead_is_minutes(lead_part(long_form(ms))),
        lead_number(long_form(ms)) == hours_of(ms),
        timestamp_value(long_form(ms)) == ms,
{
    lemma_long_form(ms);
    lemma_short_form(ms);
    lemma_time_parts(ms);
    lemma_pad(hours_of(ms), 2);
    lemma_pad(minutes_of(ms), 2);
    lemma_pad(seconds_of(ms), 2);
    lemma_pad(millis_of(ms), 3);
    let h = pad_spec(hours_of(ms), 2);
    let m = pad_spec(minutes_of(ms), 2);
    let p = lead_part(long_form(ms));
    let k = h.len() as int;
    assert(p.len() == k + 3);
    assert(p[k] == ':');
    assert(!is_digit_spec(p[k]));
    assert(p.subrange(p.len() - 2, p.len() as int) =~= m);
    assert(p.take(p.len() - 3) =~= h);
    assert(lead_is_hours_minutes(p));
}

/// Formatting gives a timestamp that meets the grammar, and parsing that
/// timestamp gives the time back, where the hours fit in 32 bits.
pub proof fn lemma_format_then_parse(ms: nat, short: bool)
    ensures
        valid_timestamp_spec(format_spec(ms, short)),
        hours_of(ms) <= u32::MAX ==> parse_spec(format_spec(ms, short)) == Some(ms),
{
    if short && hours_of(ms) == 0 {
        lemma_short_form_parses(ms);
        lemma_time_parts(ms);
    } else {
        lemma_long_form_parses(ms);
    }
}

/// Appends the timestamp of `ms` to `out`.
pub fn push_timestamp(out: &mut Vec<char>, ms: u64, short: bool)
    ensures
        final(out)@ == old(out)@ + format_spec(ms as nat, short),
{
    let hours: u64 = ms / 3_600_000;
    let minutes: u64 = (ms / 60_000) % 60;
    let secs: u64 = (ms / 1_000) % 60;
    let millis: u64 = ms % 1_000;
    let ghost start = out@;
    if !(short && hours == 0) {
        push_padded(out, hours, 2);
        out.push(':');
    }
    let ghost mid = out@;
    push_padded(out, minutes, 2);
    out.push(':');
    push_padded(out, secs, 2);
    out.push('.');
    push_padded(out, millis, 3);
    proof {
        assert(out@ =~= mid + short_form(ms as nat));
        if short && hours == 0 {
        } else {
            assert(mid =~= start + pad_spec(hours as nat, 2) + seq![':']);
            assert(out@ =~= start + long_form(ms as nat));
        }
    }
}

/// The timestamp of `total_millis` in the long form, `HH:MM:SS.mmm`.
pub fn format_timestamp(total_millis: u64) -> (r: String)
    ensures
        r@ == long_form(total_millis as nat),
{
    let mut out: Vec<char> = Vec::new();
    push_timestamp(&mut out, total_millis, false);
    assert(out@ =~= long_form(total_millis as nat));
    string_of(&out)
}

/// The timestamp of `total_millis`: `MM:SS.mmm` where the short form is
/// asked for and the hours are zero, else `HH:MM:SS.mmm`.
pub fn format_timestamp_flexible(total_millis: u64, use_short_format: bool) -> (r: String)
    ensures
        r@ == format_spec(total_millis as nat, use_short_format),
{
    let mut out: Vec<char> = Vec::new();
    push_timestamp(&mut out, total_millis, use_short_format);
    assert(out@ =~= format_spec(total_millis as nat, use_short_format));
    string_of(&out)
}

/// The timestamp of a time within the format's range, and a timestamp
/// error for a negative time or one beyond 99:59:59.999.
pub fn millis_to_timestamp(millis: i64, use_short_format: bool) -> (r: Result<String, VttError>)
    ensures
        0 <= millis <= MAX_MILLIS ==> r is Ok && r->Ok_0@ == format_spec(
            millis as nat,
            use_short_format,
        ),
        millis < 0 ==> r is Err && r->Err_0.kind == ErrorKind::Timestamp && r->Err_0.message@
            == "Milliseconds cannot be negative"@,
        millis > MAX_MILLIS ==> r is Err && r->Err_0.kind == ErrorKind::Timestamp
            && r->Err_0.message@ == "Milliseconds exceed maximum allowed value (359999999)"@,
{
    if millis < 0 {
        return Err(timestamp_error("Milliseconds cannot be negative"));
    }
    if millis > 359_999_999 {
        return Err(timestamp_error("Milliseconds exceed maximum allowed value (359999999)"));
    }
    Ok(format_timestamp_flexible(millis as u64, use_short_format))
}

/// The number that the digit `c` stands for.
fn digit_of(c: char) -> (d: u64)
    requires
        is_digit_spec(c),
    ensures
        d == digit_value(c),
        d <= 9,
{
    (c as u32 - 0x30) as u64
}

/// Whether `v[from..to]` holds digits only.
fn digits_between(v: &Vec<char>, from: usize, to: usize) -> (b: bool)
    requires
        from <= to <= v.len(),
    ensures
        b == all_digits(v@.subrange(from as int, to as int)),
{
    let mut i: usize = from;
    while i < to
        invariant
            from <= i <= to <= v.len(),
            all_digits(v@.subrange(from as int, i as int)),
        decreases to - i,
    {
        if !is_digit(v[i]) {
            assert(v@.subrange(from as int, to as int)[i - from] == v@[i as int]);
            return false;
        }
        assert forall|k: int| 0 <= k < i + 1 - from implies is_digit_spec(
            #[trigger] v@.subrange(from as int, i as int + 1)[k],
        ) by {
            if k < i - from {
                assert(v@.subrange(from as int, i as int)[k] == v@[from + k]);
            }
        }
        i += 1;
    }
    true
}

/// Whether `v[from..from + 2]` is two digits below 60, and their number.
fn sexagesimal_at(v: &Vec<char>, from: usize) -> (r: Option<u64>)
    requires
        from + 2 <= v.len(),
    ensures
        r is Some == sexagesimal(v@.subrange(from as int, from + 2)),
        r is Some ==> r->Some_0 == digits_value(v@.subrange(from as int, from + 2)),
{
    let ghost s = v@.subrange(from as int, from + 2);
    if !digits_between(v, from, from + 2) {
        return None;
    }
    assert(s[0] == v@[from as int] && s[1] == v@[from + 1]);
    let a: u64 = digit_of(v[from]);
    let b: u64 = digit_of(v[from + 1]);
    proof {
        assert(s.drop_last() =~= seq![s[0]]);
        assert(seq![s[0]].drop_last() =~= Seq::<char>::empty());
        assert(digits_value(seq![s[0]].drop_last()) == 0);
        assert(digits_value(seq![s[0]]) == digit_value(s[0]));
        assert(digits_value(s) == a * 10 + b);
    }
    let n: u64 = a * 10 + b;
    if n > 59 {
        None
    } else {
        Some(n)
    }
}

/// A run of digits stands for no less than any of its prefixes.
pub proof fn lemma_digits_value_prefix(s: Seq<char>, k: int)
    requires
        0 <= k <= s.len(),
    ensures
        digits_value(s.take(k)) <= digits_value(s),
    decreases s.len(),
{
    if k == s.len() {
        assert(s.take(k) =~= s);
    } else {
        lemma_digits_value_prefix(s.drop_last(), k);
        assert(s.drop_last().take(k) =~= s.take(k));
    }
}

/// The number that the digits `v[from..to]` stand for, where it fits in
/// 32 bits.
fn number_between(v: &Vec<char>, from: usize, to: usize) -> (r: Option<u64>)
    requires
        from <= to <= v.len(),
        all_digits(v@.subrange(from as int, to as int)),
    ensures
        r is Some == (digits_value(v@.subrange(from as int, to as int)) <= u32::MAX),
        r is Some ==> r->Some_0 == digits_value(v@.subrange(from as int, to as int)),
{
    let ghost s = v@.subrange(from as int, to as int);
    let mut acc: u64 = 0;
    let mut i: usize = from;
    assert(s.take(0) =~= Seq::<char>::empty());
    while i < to
        invariant
            from <= i <= to <= v.len(),
            s == v@.subrange(from as int, to as int),
            all_digits(s),
            acc == digits_value(s.take(i - from)),
            acc <= u32::MAX,
        decreases to - i,
    {
        let c = v[i];
        assert(s[i - from] == c);
        let d: u64 = digit_of(c);
        let next: u64 = acc * 10 + d;
        proof {
            assert(s.take(i - from + 1).drop_last() =~= s.take(i - from));
            assert(s.take(i - from + 1).last() == c);
            assert(next == digits_value(s.take(i - from + 1)));
        }
        if next > 0xFFFF_FFFF {
            proof {
                lemma_digits_value_prefix(s, i - from + 1);
            }
            return None;
        }
        acc = next;
        i += 1;
    }
    assert(s.take(to - from) =~= s);
    Some(acc)
}

/// The milliseconds that the timestamp `v` stands for.
pub fn parse_chars(v: &Vec<char>) -> (r: Option<u64>)
    ensures
        match r {
            Some(ms) => parse_spec(v@) == Some(ms as nat),
            None => parse_spec(v@) is None,
        },
{
    let n: usize = v.len();
    if n < 9 {
        return None;
    }
    if v[n - 4] != '.' || !digits_between(v, n - 3, n) || v[n - 7] != ':' {
        return None;
    }
    let millis = match number_between(v, n - 3, n) {
        Some(x) => x,
        None => {
            proof {
                lemma_three_digits(millis_part(v@));
            }
            return None;
        },
    };
    proof {
        lemma_three_digits(millis_part(v@));
    }
    let secs = match sexagesimal_at(v, n - 6) {
        Some(x) => x,
        None => { return None; },
    };
    let m: usize = n - 7;
    let ghost p = lead_part(v@);
    assert(p =~= v@.subrange(0, m as int));
    if digits_between(v, 0, m) {
        match number_between(v, 0, m) {
            Some(minutes) => Some(minutes * 60_000 + secs * 1_000 + millis),
            None => None,
        }
    } else {
        if m < 5 || v[m - 3] != ':' {
            return None;
        }
        assert(p[p.len() - 3] == v@[m - 3]);
        assert(p.subrange(p.len() - 2, p.len() as int) =~= v@.subrange(m - 2, m as int));
        assert(p.take(p.len() - 3) =~= v@.subrange(0, m - 3));
        let minutes = match sexagesimal_at(v, m - 2) {
            Some(x) => x,
            None => { return None; },
        };
        if !digits_between(v, 0, m - 3) {
            return None;
        }
        match number_between(v, 0, m - 3) {
            Some(hours) => Some(hours * 3_600_000 + minutes * 60_000 + secs * 1_000 + millis),
            None => None,
        }
    }
}

/// Three digits stand for a number below 1000.
pub proof fn lemma_three_digits(s: Seq<char>)
    requires
        s.len() == 3,
        all_digits(s),
    ensures
        digits_value(s) <= 999,
{
    let a = s.drop_last();
    let b = a.drop_last();
    assert(b.drop_last() =~= Seq::<char>::empty());
    assert(digits_value(b.drop_last()) == 0);
    assert(is_digit_spec(s[0]) && is_digit_spec(s[1]) && is_digit_spec(s[2]));
    assert(b.last() == s[0] && a.last() == s[1] && s.last() == s[2]);
    assert(digits_value(b) == digit_value(s[0]));
    assert(digits_value(a) == digits_value(b) * 10 + digit_value(s[1]));
    assert(digits_value(s) == digits_value(a) * 10 + digit_value(s[2]));
}

/// Whether the characters `v` meet the grammar of a timestamp.
pub fn is_valid_timestamp_chars(v: &Vec<char>) -> (b: bool)
    ensures
        b == valid_timestamp_spec(v@),
{
    let n: usize = v.len();
    if n < 9 {
        return false;
    }
    if v[n - 4] != '.' || !digits_between(v, n - 3, n) || v[n - 7] != ':' {
        return false;
    }
    if sexagesimal_at(v, n - 6).is_none() {
        return false;
    }
    let m: usize = n - 7;
    let ghost p = lead_part(v@);
    assert(p =~= v@.subrange(0, m as int));
    if digits_between(v, 0, m) {
        return true;
    }
    if m < 5 || v[m - 3] != ':' {
        return false;
    }
    assert(p[p.len() - 3] == v@[m - 3]);
    assert(p.subrange(p.len() - 2, p.len() as int) =~= v@.subrange(m - 2, m as int));
    assert(p.take(p.len() - 3) =~= v@.subrange(0, m - 3));
    sexagesimal_at(v, m - 2).is_some() && digits_between(v, 0, m - 3)
}

/// Whether `timestamp` meets the grammar of a timestamp.
pub fn is_valid_timestamp(timestamp: &str) -> (b: bool)
    ensures
        b == valid_timestamp_spec(timestamp@),
{
    let v = chars_of(timestamp);
    is_valid_timestamp_chars(&v)
}

/// The milliseconds that `timestamp` stands for, or a timestamp error where
/// it does not meet the grammar or its leading number does not fit in 32
/// bits.
pub fn timestamp_to_millis(timestamp: &str) -> (r: Result<u64, VttError>)
    ensures
        match r {
            Ok(ms) => parse_spec(timestamp@) == Some(ms as nat),
            Err(e) => parse_spec(timestamp@) is None && e.kind == ErrorKind::Timestamp
                && e.message@ == parse_error_message(timestamp@),
        },
{
    let v = chars_of(timestamp);
    match parse_chars(&v) {
        Some(ms) => Ok(ms),
        None => {
            let mut msg: Vec<char> = Vec::new();
            append_str(&mut msg, "Invalid timestamp format: '");
            append_str(&mut msg, timestamp);
            append_str(&mut msg, "'");
            let m = string_of(&msg);
            Err(VttError { kind: ErrorKind::Timestamp, message: m })
        },
    }
}

} // verus!
