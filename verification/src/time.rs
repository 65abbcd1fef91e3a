//! Formatting of track durations given in milliseconds.

use vstd::prelude::*;
use crate::text::{dec_digits, push_u64_digits, string_of_chars};

verus! {

/// `n` in decimal, left-padded with `'0'` to at least two characters.
pub open spec fn two_digit(n: nat) -> Seq<char> {
    if n < 10 {
        seq!['0'] + dec_digits(n)
    } else {
        dec_digits(n)
    }
}

/// The `minutes:seconds` rendering of a duration of `ms` milliseconds.
pub open spec fn min_sec_chars(ms: nat) -> Seq<char> {
    two_digit(ms / 1000 / 60) + seq![':'] + two_digit(ms / 1000 % 60)
}

fn push_two_digit(out: &mut Vec<char>, n: u64)
    ensures
        final(out)@ == old(out)@ + two_digit(n as nat),
{
    if n < 10 {
        out.push('0');
    }
    push_u64_digits(out, n);
    assert(out@ =~= old(out)@ + two_digit(n as nat));
}

/// Renders a duration in milliseconds as zero-padded `minutes:seconds`.
pub fn ms_to_min_sec(ms: u64) -> (r: String)
    ensures
        r@ == min_sec_chars(ms as nat),
{
    let seconds = ms / 1000;
    let minutes = seconds / 60;
    let remaining_seconds = seconds % 60;
    let mut out: Vec<char> = Vec::new();
    push_two_digit(&mut out, minutes);
    out.push(':');
    push_two_digit(&mut out, remaining_seconds);
    assert(out@ =~= min_sec_chars(ms as nat));
    string_of_chars(&out)
}

} // verus!
