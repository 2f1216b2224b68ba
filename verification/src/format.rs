//! Text forms of readings and of their changes.

use crate::decimal::{Decimal, Difference};
use crate::numeral::{
    decimal_digits, grouped_digits, padded_digits, pow10, push_decimal, push_padded, push_zeros,
    zeros,
};
use num_format::{Locale, ToFormattedString};
use vstd::prelude::*;

verus! {

/// How many fractional digits a unit resolves.
pub const FRACTION_DIGITS: usize = 8;

/// The absolute value of `value`.
pub open spec fn magnitude(value: int) -> nat {
    if value < 0 {
        (-value) as nat
    } else {
        value as nat
    }
}

/// `units` expressed in steps of `10^-precision`, rounded to the nearest
/// step, a half going up.
pub open spec fn rounded_steps(units: nat, precision: nat) -> nat
    recommends
        precision <= 8,
{
    let step = pow10((8 - precision) as nat);
    (units + step / 2) / step
}

/// The magnitude `units` written with exactly `precision` fractional digits:
/// rounded where `precision` is under eight, filled with zeros where it is
/// over.
pub open spec fn fixed_text(units: nat, precision: nat) -> Seq<char> {
    if precision == 0 {
        decimal_digits(rounded_steps(units, 0))
    } else if precision <= 8 {
        let steps = rounded_steps(units, precision);
        decimal_digits(steps / pow10(precision)) + seq!['.'] + padded_digits(
            steps % pow10(precision),
            precision,
        )
    } else {
        decimal_digits(units / pow10(8)) + seq!['.'] + padded_digits(units % pow10(8), 8) + zeros(
            (precision - 8) as nat,
        )
    }
}

/// `+` for zero and above, `-` below.
pub open spec fn sign_char(value: int) -> char {
    if value >= 0 {
        '+'
    } else {
        '-'
    }
}

/// `value` units with `precision` fractional digits, and a `-` in front
/// where the value is below zero.
pub open spec fn plain_text(value: int, precision: nat) -> Seq<char> {
    if value < 0 {
        seq!['-'] + fixed_text(magnitude(value), precision)
    } else {
        fixed_text(magnitude(value), precision)
    }
}

/// `value` units with `precision` fractional digits behind an explicit sign.
pub open spec fn signed_text(value: int, precision: nat) -> Seq<char> {
    seq![sign_char(value)] + fixed_text(magnitude(value), precision)
}

/// `value` units rounded to the nearest whole number, a half going away from
/// zero, with its digits in groups of three; a whole number below zero has a
/// `-` in front.
pub open spec fn grouped_text(value: int) -> Seq<char> {
    let whole = rounded_steps(magnitude(value), 0);
    if value < 0 && whole > 0 {
        seq!['-'] + grouped_digits(whole)
    } else {
        grouped_digits(whole)
    }
}

/// The sign of `value`, then its magnitude rounded to the nearest whole
/// number with its digits in groups of three.
pub open spec fn signed_grouped_text(value: int) -> Seq<char> {
    seq![sign_char(value)] + grouped_digits(rounded_steps(magnitude(value), 0))
}

/// A percentage with two fractional digits, followed in brackets by its
/// signed change, or by a dash where there is none.
pub open spec fn percent_text(current: int, delta: Option<int>) -> Seq<char> {
    match delta {
        Some(change) => plain_text(current, 2) + "% ("@ + signed_text(change, 2) + ")"@,
        None => plain_text(current, 2) + "% ( - )"@,
    }
}

/// `10^exponent` for the exponents that a unit resolves.
fn power_of_ten(exponent: usize) -> (result: u128)
    requires
        exponent <= 8,
    ensures
        result == pow10(exponent as nat),
        1 <= result <= 100_000_000,
{
    reveal_with_fuel(pow10, 10);
    match exponent {
        0 => 1,
        1 => 10,
        2 => 100,
        3 => 1_000,
        4 => 10_000,
        5 => 100_000,
        6 => 1_000_000,
        7 => 10_000_000,
        _ => 100_000_000,
    }
}

/// The absolute value of `units`.
fn magnitude_of(units: i128) -> (result: u128)
    ensures
        result == magnitude(units as int),
        result <= 0x8000_0000_0000_0000_0000_0000_0000_0000,
{
    if units >= 0 {
        units as u128
    } else {
        (-(units + 1)) as u128 + 1
    }
}

/// `units` in steps of `10^-precision`, rounded.
fn round_to_steps(units: u128, precision: usize) -> (result: u128)
    requires
        precision <= 8,
        units <= 0x8000_0000_0000_0000_0000_0000_0000_0000,
    ensures
        result == rounded_steps(units as nat, precision as nat),
{
    let step = power_of_ten(8 - precision);
    (units + step / 2) / step
}

/// Appends `units` with `precision` fractional digits to `out`.
fn push_fixed(out: &mut String, units: u128, precision: usize)
    requires
        units <= 0x8000_0000_0000_0000_0000_0000_0000_0000,
    ensures
        final(out)@ == old(out)@ + fixed_text(units as nat, precision as nat),
{
    if precision == 0 {
        let whole = round_to_steps(units, 0);
        push_decimal(out, whole);
    } else if precision <= 8 {
        let steps = round_to_steps(units, precision);
        let scale = power_of_ten(precision);
        push_decimal(out, steps / scale);
        out.append(".");
        push_padded(out, steps % scale, precision);
    } else {
        let scale = power_of_ten(8);
        push_decimal(out, units / scale);
        out.append(".");
        push_padded(out, units % scale, 8);
        push_zeros(out, precision - 8);
    }
    proof {
        reveal_strlit(".");
    }
}

/// Appends the sign of `units` to `out`.
fn push_sign(out: &mut String, units: i128)
    ensures
        final(out)@ == old(out)@.push(sign_char(units as int)),
{
    proof {
        reveal_strlit("+");
        reveal_strlit("-");
    }
    if units >= 0 {
        out.append("+");
    } else {
        out.append("-");
    }
}

/// Appends `units` with `precision` fractional digits to `out`, with a `-`
/// in front where it is below zero.
fn push_plain(out: &mut String, units: i128, precision: usize)
    ensures
        final(out)@ == old(out)@ + plain_text(units as int, precision as nat),
{
    if units < 0 {
        out.append("-");
    }
    push_fixed(out, magnitude_of(units), precision);
    proof {
        reveal_strlit("-");
    }
}

/// Appends `units` with `precision` fractional digits behind its sign.
fn push_signed(out: &mut String, units: i128, precision: usize)
    ensures
        final(out)@ == old(out)@ + signed_text(units as int, precision as nat),
{
    push_sign(out, units);
    push_fixed(out, magnitude_of(units), precision);
}

/// `num_format`'s `to_formatted_string` on a `u128` with `Locale::en`: the
/// digits of `n` in groups of three from the right, separated by commas.
#[verifier::external_body]
fn group_thousands(n: u128) -> (text: String)
    ensures
        text@ == grouped_digits(n as nat),
{
    n.to_formatted_string(&Locale::en)
}

/// A reading rounded to the nearest whole number, with thousands separators.
pub fn format_grouped_integer(value: Decimal) -> (text: String)
    ensures
        text@ == grouped_text(value@),
{
    let units = value.units();
    let whole = round_to_steps(magnitude_of(units), 0);
    let digits = group_thousands(whole);
    if units < 0 && whole > 0 {
        let mut text = String::from_str("-");
        text.append(digits.as_str());
        proof {
            reveal_strlit("-");
        }
        text
    } else {
        digits
    }
}

/// A change rounded to the nearest whole number, as its sign followed by the
/// magnitude with thousands separators.
pub fn format_signed_grouped(value: Difference) -> (text: String)
    ensures
        text@ == signed_grouped_text(value@),
{
    let units = value.units();
    let digits = group_thousands(round_to_steps(magnitude_of(units), 0));
    let mut text = String::new();
    push_sign(&mut text, units);
    text.append(digits.as_str());
    text
}

/// A change with an explicit sign and `precision` fractional digits.
pub fn format_signed_delta(value: Difference, precision: usize) -> (text: String)
    ensures
        text@ == signed_text(value@, precision as nat),
{
    let mut text = String::new();
    push_signed(&mut text, value.units(), precision);
    text
}

/// A percentage with two fractional digits and, in brackets, its change
/// since the previous reading, or a dash where there is no previous reading.
pub fn format_percent_with_delta(current: Decimal, delta: Option<Difference>) -> (text: String)
    ensures
        text@ == percent_text(
            current@,
            match delta {
                Some(change) => Some(change@),
                None => None,
            },
        ),
{
    let mut text = String::new();
    push_plain(&mut text, current.units(), 2);
    match delta {
        Some(change) => {
            text.append("% (");
            push_signed(&mut text, change.units(), 2);
            text.append(")");
        },
        None => {
            text.append("% ( - )");
        },
    }
    text
}

} // verus!
