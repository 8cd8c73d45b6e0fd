//! Decimal numbers and clock readings as text.

use crate::strings::push_char;
use crate::timestamp::{
    hour_field, lemma_fields_read_back, millisecond_field, minute_field, nanos_of_fields,
    second_field, Timestamp,
};
use vstd::prelude::*;

verus! {

/// The character that stands for the decimal digit `d`.
pub open spec fn digit_char(d: int) -> char {
    if d == 0 {
        '0'
    } else if d == 1 {
        '1'
    } else if d == 2 {
        '2'
    } else if d == 3 {
        '3'
    } else if d == 4 {
        '4'
    } else if d == 5 {
        '5'
    } else if d == 6 {
        '6'
    } else if d == 7 {
        '7'
    } else if d == 8 {
        '8'
    } else {
        '9'
    }
}

/// The decimal digits of `n`, most significant first, with zeros in front
/// where `n` has fewer than `width` digits. Zero is written with one digit
/// at least.
pub open spec fn decimal(n: nat, width: nat) -> Seq<char>
    decreases n, width,
{
    if n < 10 && width <= 1 {
        seq![digit_char(n as int)]
    } else {
        decimal(n / 10, if width == 0 { 0 } else { (width - 1) as nat }).push(digit_char((n % 10) as int))
    }
}

/// The clock reading `HH:MM:SS,mmm` of the instant `nanos`.
///
/// The hour takes as many digits as it needs and two at least, minute and
/// second take two, the millisecond three. An instant before zero reads
/// `00:00:00,000`.
pub open spec fn time_text(nanos: int) -> Seq<char> {
    decimal(hour_field(nanos) as nat, 2) + seq![':'] + decimal(minute_field(nanos) as nat, 2)
        + seq![':'] + decimal(second_field(nanos) as nat, 2) + seq![','] + decimal(
        millisecond_field(nanos) as nat,
        3,
    )
}

/// The reading of an instant that was built from clock fields within their
/// usual ranges shows those fields, each in its own width.
pub proof fn lemma_time_text_of_fields(hour: nat, minute: nat, second: nat, millisecond: nat)
    requires
        minute < 60,
        second < 60,
        millisecond < 1000,
    ensures
        time_text(nanos_of_fields(hour as int, minute as int, second as int, millisecond as int))
            == decimal(hour, 2) + seq![':'] + decimal(minute, 2) + seq![':'] + decimal(second, 2)
            + seq![','] + decimal(millisecond, 3),
{
    lemma_fields_read_back(hour as int, minute as int, second as int, millisecond as int);
}

/// An instant before zero reads `00:00:00,000`.
pub proof fn lemma_before_zero_reads_zero(nanos: int)
    requires
        nanos < 0,
    ensures
        time_text(nanos) == seq!['0', '0', ':', '0', '0', ':', '0', '0', ',', '0', '0', '0'],
{
    reveal_with_fuel(decimal, 4);
    assert(time_text(nanos) =~= seq!['0', '0', ':', '0', '0', ':', '0', '0', ',', '0', '0', '0']);
}

/// The character for a single decimal digit.
fn digit(d: u8) -> (c: char)
    requires
        d < 10,
    ensures
        c == digit_char(d as int),
{
    match d {
        0 => '0',
        1 => '1',
        2 => '2',
        3 => '3',
        4 => '4',
        5 => '5',
        6 => '6',
        7 => '7',
        8 => '8',
        _ => '9',
    }
}

/// Appends `n` in decimal to `out`, padded with zeros to `width` digits.
pub fn push_decimal(out: &mut String, n: u128, width: usize)
    ensures
        final(out)@ == old(out)@ + decimal(n as nat, width as nat),
    decreases n, width,
{
    if n < 10 && width <= 1 {
        push_char(out, digit(n as u8));
        assert(final(out)@ == old(out)@ + seq![digit_char(n as int)]);
    } else {
        let rest: usize = if width == 0 {
            0
        } else {
            width - 1
        };
        push_decimal(out, n / 10, rest);
        push_char(out, digit((n % 10) as u8));
        assert(out@ == old(out)@ + decimal((n / 10) as nat, rest as nat).push(
            digit_char((n % 10) as int),
        ));
    }
}

/// Appends the clock reading `HH:MM:SS,mmm` of `time` to `out`.
pub fn push_time(out: &mut String, time: Timestamp)
    ensures
        final(out)@ == old(out)@ + time_text(time@),
{
    push_decimal(out, time.hour(), 2);
    push_char(out, ':');
    push_decimal(out, time.minute() as u128, 2);
    push_char(out, ':');
    push_decimal(out, time.second() as u128, 2);
    push_char(out, ',');
    push_decimal(out, time.millisecond() as u128, 3);
    assert(out@ == old(out)@ + time_text(time@));
}

/// The clock reading `HH:MM:SS,mmm` of `time`.
pub fn format_time(time: Timestamp) -> (text: String)
    ensures
        text@ == time_text(time@),
{
    let mut text = String::new();
    push_time(&mut text, time);
    text
}

} // verus!
