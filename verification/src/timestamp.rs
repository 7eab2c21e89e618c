//! The time-of-day stamp that precedes each reading in a listing.

use vstd::prelude::*;

verus! {

/// The character for a decimal digit.
pub open spec fn digit_char(digit: int) -> char {
    if digit == 0 {
        '0'
    } else if digit == 1 {
        '1'
    } else if digit == 2 {
        '2'
    } else if digit == 3 {
        '3'
    } else if digit == 4 {
        '4'
    } else if digit == 5 {
        '5'
    } else if digit == 6 {
        '6'
    } else if digit == 7 {
        '7'
    } else if digit == 8 {
        '8'
    } else {
        '9'
    }
}

/// A number below one hundred in two decimal digits.
pub open spec fn two_digits(value: int) -> Seq<char> {
    seq![digit_char(value / 10), digit_char(value % 10)]
}

/// The stamp for a moment given in seconds since the Unix epoch: a fixed
/// date, then the hour, minute and second of the day in UTC.
pub open spec fn timestamp_text(now: u64) -> Seq<char> {
    seq!['O', 'c', 't', ' ', '2', '3', ' '] + two_digits(((now / 3600) % 24) as int) + seq![':']
        + two_digits(((now / 60) % 60) as int) + seq![':'] + two_digits((now % 60) as int)
}

fn digit(value: u64) -> (ch: char)
    requires
        value < 10,
    ensures
        ch == digit_char(value as int),
{
    if value == 0 {
        '0'
    } else if value == 1 {
        '1'
    } else if value == 2 {
        '2'
    } else if value == 3 {
        '3'
    } else if value == 4 {
        '4'
    } else if value == 5 {
        '5'
    } else if value == 6 {
        '6'
    } else if value == 7 {
        '7'
    } else if value == 8 {
        '8'
    } else {
        '9'
    }
}

fn push_two_digits(text: &mut String, value: u64)
    requires
        value < 100,
    ensures
        final(text)@ == old(text)@ + two_digits(value as int),
{
    text.push(digit(value / 10));
    text.push(digit(value % 10));
    assert(text@ =~= old(text)@ + two_digits(value as int));
}

/// Formats the stamp for `now`, seconds since the Unix epoch.
pub fn format_timestamp(now: u64) -> (stamp: String)
    ensures
        stamp@ == timestamp_text(now),
{
    let mut stamp = String::new();
    stamp.push('O');
    stamp.push('c');
    stamp.push('t');
    stamp.push(' ');
    stamp.push('2');
    stamp.push('3');
    stamp.push(' ');
    push_two_digits(&mut stamp, (now / 3600) % 24);
    stamp.push(':');
    push_two_digits(&mut stamp, (now / 60) % 60);
    stamp.push(':');
    push_two_digits(&mut stamp, now % 60);
    assert(stamp@ =~= timestamp_text(now));
    stamp
}

} // verus!
