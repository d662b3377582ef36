//! Clock-of-day labels. An instant is a number of seconds since the
//! local midnight; a label shows its hour and minute (and second) on
//! the 24-hour clock, wrapping past midnight.
use vstd::prelude::*;

use crate::text::chars_to_string;

verus! {

pub const SECONDS_PER_DAY: i64 = 86400;

/// The decimal digit character for `d`.
pub open spec fn digit_char(d: int) -> char
    recommends
        0 <= d < 10,
{
    if d == 0 { '0' }
    else if d == 1 { '1' }
    else if d == 2 { '2' }
    else if d == 3 { '3' }
    else if d == 4 { '4' }
    else if d == 5 { '5' }
    else if d == 6 { '6' }
    else if d == 7 { '7' }
    else if d == 8 { '8' }
    else { '9' }
}

/// A two-digit, zero-padded rendering of `n`.
pub open spec fn two_digits(n: int) -> Seq<char>
    recommends
        0 <= n < 100,
{
    seq![digit_char(n / 10), digit_char(n % 10)]
}

/// An hour without a leading zero.
pub open spec fn hour_no_pad(h: int) -> Seq<char>
    recommends
        0 <= h < 24,
{
    if h < 10 {
        seq![digit_char(h)]
    } else {
        two_digits(h)
    }
}

/// "HH:MM" of the instant `t` seconds after midnight, hours zero-padded
/// and wrapped onto the 24-hour clock.
pub open spec fn clock_hm_pad(t: int) -> Seq<char>
    recommends
        t >= 0,
{
    let s = t % (SECONDS_PER_DAY as int);
    two_digits(s / 3600) + seq![':'] + two_digits((s / 60) % 60)
}

/// "H:MM" of the instant `t` seconds after midnight, hours unpadded.
pub open spec fn clock_hm_no_pad(t: int) -> Seq<char>
    recommends
        t >= 0,
{
    let s = t % (SECONDS_PER_DAY as int);
    hour_no_pad(s / 3600) + seq![':'] + two_digits((s / 60) % 60)
}

/// "H:MM:SS" of the instant `t` seconds after midnight, hours unpadded.
pub open spec fn clock_hms_no_pad(t: int) -> Seq<char>
    recommends
        t >= 0,
{
    let s = t % (SECONDS_PER_DAY as int);
    hour_no_pad(s / 3600) + seq![':'] + two_digits((s / 60) % 60) + seq![':'] + two_digits(s % 60)
}

/// The decimal digit character for `d`, executably.
pub fn digit_char_of(d: i64) -> (c: char)
    requires
        0 <= d < 10,
    ensures
        c == digit_char(d as int),
{
    match d {
        0 => '0',
        1 => '1',
        2 => '2',
        3 => '3',
        4 => '4',
        5 => '5',
        6 => '6',
        7 => '7',
        8 => '8',
        _ => '9',
    }
}

fn push_two_digits(v: &mut Vec<char>, n: i64)
    requires
        0 <= n < 100,
        old(v)@.len() + 2 <= usize::MAX,
    ensures
        final(v)@ == old(v)@ + two_digits(n as int),
{
    v.push(digit_char_of(n / 10));
    v.push(digit_char_of(n % 10));
    assert(final(v)@ =~= old(v)@ + two_digits(n as int));
}

/// Formats "HH:MM" of `t` seconds after midnight.
pub fn format_hm_pad(t: i64) -> (r: String)
    requires
        t >= 0,
    ensures
        r@ == clock_hm_pad(t as int),
{
    let s = t % SECONDS_PER_DAY;
    let mut v: Vec<char> = Vec::new();
    push_two_digits(&mut v, s / 3600);
    v.push(':');
    push_two_digits(&mut v, (s / 60) % 60);
    assert(v@ =~= clock_hm_pad(t as int));
    chars_to_string(&v)
}

fn push_hour_no_pad(v: &mut Vec<char>, h: i64)
    requires
        0 <= h < 24,
        old(v)@.len() + 2 <= usize::MAX,
    ensures
        final(v)@ == old(v)@ + hour_no_pad(h as int),
{
    if h < 10 {
        v.push(digit_char_of(h));
        assert(final(v)@ =~= old(v)@ + hour_no_pad(h as int));
    } else {
        push_two_digits(v, h);
    }
}

/// Formats "H:MM" of `t` seconds after midnight.
pub fn format_hm_no_pad(t: i64) -> (r: String)
    requires
        t >= 0,
    ensures
        r@ == clock_hm_no_pad(t as int),
{
    let s = t % SECONDS_PER_DAY;
    let mut v: Vec<char> = Vec::new();
    push_hour_no_pad(&mut v, s / 3600);
    v.push(':');
    push_two_digits(&mut v, (s / 60) % 60);
    assert(v@ =~= clock_hm_no_pad(t as int));
    chars_to_string(&v)
}

/// Formats "H:MM:SS" of `t` seconds after midnight.
pub fn format_hms_no_pad(t: i64) -> (r: String)
    requires
        t >= 0,
    ensures
        r@ == clock_hms_no_pad(t as int),
{
    let s = t % SECONDS_PER_DAY;
    let mut v: Vec<char> = Vec::new();
    push_hour_no_pad(&mut v, s / 3600);
    v.push(':');
    push_two_digits(&mut v, (s / 60) % 60);
    v.push(':');
    push_two_digits(&mut v, s % 60);
    assert(v@ =~= clock_hms_no_pad(t as int));
    chars_to_string(&v)
}

} // verus!
