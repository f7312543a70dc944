//! Unit suffixes for magnitudes scaled by powers of a thousand.
//!
//! A magnitude is shown as a mantissa followed by a unit: an optional prefix
//! letter for its power of a thousand, an overflow marker once the letters
//! have run out, and the unit character `b`. Everything here is decided by
//! the magnitude's decimal order alone: the floor of its base ten logarithm,
//! taken as 0 for a magnitude of zero.

use vstd::prelude::*;
use crate::text::{push_char, push_text};

verus! {

/// The prefix letters in ascending order, one for each power of a thousand
/// from the first to the tenth.
pub open spec fn alphabet() -> Seq<char> {
    seq!['k', 'M', 'G', 'T', 'P', 'E', 'Z', 'Y', 'R', 'Q']
}

/// The decimal digits in ascending order.
pub open spec fn digits() -> Seq<char> {
    seq!['0', '1', '2', '3', '4', '5', '6', '7', '8', '9']
}

/// `n` written in base ten, without leading zeros.
pub open spec fn decimal(n: nat) -> Seq<char>
    decreases n,
{
    if n < 10 {
        seq![digits()[n as int]]
    } else {
        decimal(n / 10).push(digits()[(n % 10) as int])
    }
}

/// The prefix letter of a magnitude of decimal order `power`, if it has one.
/// The letters repeat with every thirty orders.
pub open spec fn prefix_part(power: nat) -> Seq<char> {
    let index = (power % 30) / 3;
    if index > 0 {
        seq![alphabet()[index - 1]]
    } else {
        Seq::empty()
    }
}

/// The overflow marker of a magnitude of decimal order `power`: the last
/// letter once for each full run through the alphabet, written as the letter
/// followed by the number of runs where there are two or more.
pub open spec fn overflow_part(power: nat) -> Seq<char> {
    let group = power / 30;
    if group == 0 {
        Seq::empty()
    } else if group == 1 {
        seq![alphabet()[9]]
    } else {
        seq![alphabet()[9]] + decimal(group)
    }
}

/// The unit shown behind the mantissa of a magnitude of decimal order `power`.
pub open spec fn unit_suffix(power: nat) -> Seq<char> {
    prefix_part(power) + overflow_part(power) + seq!['b']
}

/// The power of ten by which a magnitude of decimal order `power` is divided
/// for display: `power` rounded down to a multiple of three.
pub open spec fn scale(power: nat) -> nat {
    (power - power % 3) as nat
}

/// The number of decimal places of the mantissa: none while the magnitude is
/// shown unscaled, three from a thousand on.
pub open spec fn places(power: nat) -> nat {
    if scale(power) == 0 {
        0
    } else {
        3
    }
}

/// The text shown for a magnitude of decimal order `power` whose mantissa
/// has been rendered as `mantissa`.
pub open spec fn shown(mantissa: Seq<char>, power: nat) -> Seq<char> {
    mantissa + unit_suffix(power)
}

fn prefix_letter(index: usize) -> (letter: char)
    requires
        index < 10,
    ensures
        letter == alphabet()[index as int],
{
    let letters: [char; 10] = ['k', 'M', 'G', 'T', 'P', 'E', 'Z', 'Y', 'R', 'Q'];
    letters[index]
}

fn digit(d: usize) -> (c: char)
    requires
        d < 10,
    ensures
        c == digits()[d as int],
{
    let all: [char; 10] = ['0', '1', '2', '3', '4', '5', '6', '7', '8', '9'];
    all[d]
}

/// Appends `n` in base ten to `s`.
fn push_decimal(s: &mut String, n: usize)
    ensures
        final(s)@ == old(s)@ + decimal(n as nat),
    decreases n,
{
    if n >= 10 {
        push_decimal(s, n / 10);
    }
    push_char(s, digit(n % 10));
    assert(final(s)@ =~= old(s)@ + decimal(n as nat));
}

/// The unit for a magnitude of decimal order `power`.
pub fn suffix(power: usize) -> (s: String)
    ensures
        s@ == unit_suffix(power as nat),
{
    let q_count: usize = power / 30;
    let q_overflow: usize = power % 30;
    let suffix_index: usize = q_overflow / 3;

    let mut s = String::new();

    if suffix_index > 0 {
        push_char(&mut s, prefix_letter(suffix_index - 1));
    }
    if q_count > 0 {
        push_char(&mut s, prefix_letter(9));
    }
    if q_count > 1 {
        push_decimal(&mut s, q_count);
    }
    push_char(&mut s, 'b');
    assert(s@ =~= unit_suffix(power as nat));
    s
}

/// The exponent of the power of ten by which a magnitude of decimal order
/// `power` is divided for display.
pub fn divisor_exponent(power: usize) -> (exponent: usize)
    ensures
        exponent == scale(power as nat),
        exponent % 3 == 0,
        exponent <= power < exponent + 3,
{
    power / 3 * 3
}

/// The number of decimal places with which the mantissa of a magnitude of
/// decimal order `power` is rendered.
pub fn decimals(power: usize) -> (count: usize)
    ensures
        count == places(power as nat),
{
    if divisor_exponent(power) == 0 {
        0
    } else {
        3
    }
}

/// The display text of a magnitude of decimal order `power`, given its
/// mantissa as rendered by the caller: the magnitude divided by ten to the
/// `divisor_exponent`, with `decimals` decimal places.
pub fn display(mantissa: &str, power: usize) -> (text: String)
    ensures
        text@ == shown(mantissa@, power as nat),
{
    let mut text = String::new();
    push_text(&mut text, mantissa);
    let unit = suffix(power);
    push_text(&mut text, unit.as_str());
    assert(text@ =~= shown(mantissa@, power as nat));
    text
}

/// The display text is determined by the rendered mantissa and the decimal
/// order: equal inputs give equal text.
pub proof fn lemma_shown_determined(
    mantissa: Seq<char>,
    power: nat,
    other_mantissa: Seq<char>,
    other_power: nat,
)
    requires
        mantissa == other_mantissa,
        power == other_power,
    ensures
        shown(mantissa, power) == shown(other_mantissa, other_power),
{
}

/// Below a thousand a magnitude is shown unscaled, without decimal places
/// and without a prefix letter.
pub proof fn lemma_below_thousand(power: nat)
    requires
        power < 3,
    ensures
        scale(power) == 0,
        places(power) == 0,
        unit_suffix(power) == seq!['b'],
{
    assert(unit_suffix(power) =~= seq!['b']);
}

/// From a thousand up to the end of the alphabet's first run a magnitude is
/// shown with three decimal places, divided by its power of a thousand, and
/// with the letter of that power as its only prefix.
pub proof fn lemma_single_prefix(power: nat)
    requires
        3 <= power < 30,
    ensures
        scale(power) == 3 * (power / 3),
        places(power) == 3,
        unit_suffix(power) == seq![alphabet()[power / 3 - 1], 'b'],
{
    assert(unit_suffix(power) =~= seq![alphabet()[power / 3 - 1], 'b']);
}

/// The first ten powers of a thousand carry the letters of the alphabet in
/// order; the tenth letter is the overflow marker of the run that it opens.
pub proof fn lemma_alphabet_in_order(step: nat)
    requires
        1 <= step <= 10,
    ensures
        unit_suffix(3 * step) == seq![alphabet()[step - 1], 'b'],
{
    assert(unit_suffix(3 * step) =~= seq![alphabet()[step - 1], 'b']);
}

/// Thirty orders on, the prefix letter is the same again, and the overflow
/// marker counts one run more: the bare last letter for the first run, the
/// letter and the number of runs from the second on.
pub proof fn lemma_cycle(power: nat)
    ensures
        prefix_part(power + 30) == prefix_part(power),
        overflow_part(power + 30) == if power < 30 {
            seq!['Q']
        } else {
            seq!['Q'] + decimal(power / 30 + 1)
        },
{
    assert((power + 30) % 30 == power % 30 && (power + 30) / 30 == power / 30 + 1);
    assert(alphabet()[9] == 'Q');
}

} // verus!
