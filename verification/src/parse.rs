//! Reading decimal text as fixed-point numbers.
//!
//! A decimal is an optional sign, then a mantissa of digits with at most one
//! point among them and at least one digit, then optionally an exponent: `e`
//! or `E`, an optional sign, and at least one digit. Its value is that of the
//! mantissa with the point moved to the right by the exponent. What lies
//! beyond the eighth fractional digit of the value is dropped. Text that is
//! no decimal, or whose value is not representable, reads as zero.

use crate::decimal::{representable, Decimal, DECIMAL_LIMIT};
use crate::numeral::pow10;
use vstd::arithmetic::div_mod::lemma_div_denominator;
use vstd::prelude::*;
use vstd::string::*;
use vstd::utf8::is_ascii_chars;

verus! {

/// Whether `c` is one of the ten digits.
pub open spec fn is_digit(c: char) -> bool {
    '0' <= c && c <= '9'
}

/// The number that the digit `c` stands for.
pub open spec fn digit_value(c: char) -> nat {
    (c as u32 - '0' as u32) as nat
}

/// Whether `s` holds digits only.
pub open spec fn all_digits(s: Seq<char>) -> bool {
    forall|i: int| 0 <= i < s.len() ==> is_digit(#[trigger] s[i])
}

/// The number that the digits `digits` write; the empty text writes zero.
pub open spec fn digits_value(digits: Seq<char>) -> nat
    decreases digits.len(),
{
    if digits.len() == 0 {
        0
    } else {
        digits_value(digits.drop_last()) * 10 + digit_value(digits.last())
    }
}

/// Whether `text` starts with a sign.
pub open spec fn has_sign(text: Seq<char>) -> bool {
    text.len() > 0 && (text[0] == '+' || text[0] == '-')
}

/// Whether `text` starts with a minus sign.
pub open spec fn has_minus(text: Seq<char>) -> bool {
    text.len() > 0 && text[0] == '-'
}

/// `text` without its sign, if it has one.
pub open spec fn unsigned_part(text: Seq<char>) -> Seq<char> {
    if has_sign(text) {
        text.skip(1)
    } else {
        text
    }
}

/// The characters that are a decimal point.
pub open spec fn point() -> spec_fn(char) -> bool {
    |c: char| c == '.'
}

/// The characters that start an exponent.
pub open spec fn exponent_mark() -> spec_fn(char) -> bool {
    |c: char| c == 'e' || c == 'E'
}

/// Whether `at` is where the first character of `s` that `stop` holds of
/// stands, or the length of `s` where it holds of none.
pub open spec fn is_first(s: Seq<char>, stop: spec_fn(char) -> bool, at: int) -> bool {
    &&& 0 <= at <= s.len()
    &&& forall|i: int| 0 <= i < at ==> !stop(#[trigger] s[i])
    &&& at < s.len() ==> stop(s[at])
}

/// Where the first character of `s` that `stop` holds of stands, or the
/// length of `s`.
pub open spec fn first_index(s: Seq<char>, stop: spec_fn(char) -> bool) -> int {
    choose|at: int| is_first(s, stop, at)
}

/// What stands before the exponent mark of `s`.
pub open spec fn mantissa_part(s: Seq<char>) -> Seq<char> {
    s.take(first_index(s, exponent_mark()))
}

/// Whether `s` has an exponent mark.
pub open spec fn has_exponent(s: Seq<char>) -> bool {
    first_index(s, exponent_mark()) < s.len()
}

/// What stands behind the exponent mark of `s`.
pub open spec fn exponent_part(s: Seq<char>) -> Seq<char> {
    if has_exponent(s) {
        s.skip(first_index(s, exponent_mark()) + 1)
    } else {
        Seq::empty()
    }
}

/// What stands before the point of the mantissa `m`.
pub open spec fn whole_part(m: Seq<char>) -> Seq<char> {
    m.take(first_index(m, point()))
}

/// What stands behind the point of the mantissa `m`.
pub open spec fn fraction_part(m: Seq<char>) -> Seq<char> {
    if first_index(m, point()) < m.len() {
        m.skip(first_index(m, point()) + 1)
    } else {
        Seq::empty()
    }
}

/// Whether `m` is a mantissa: digits around at most one point, and at least
/// one digit.
pub open spec fn is_mantissa(m: Seq<char>) -> bool {
    &&& all_digits(whole_part(m))
    &&& all_digits(fraction_part(m))
    &&& whole_part(m).len() + fraction_part(m).len() > 0
}

/// Whether `x` is what follows an exponent mark: an optional sign and at
/// least one digit.
pub open spec fn is_exponent(x: Seq<char>) -> bool {
    all_digits(unsigned_part(x)) && unsigned_part(x).len() > 0
}

/// Whether `text` is a decimal.
pub open spec fn is_decimal(text: Seq<char>) -> bool {
    let s = unsigned_part(text);
    is_mantissa(mantissa_part(s)) && (has_exponent(s) ==> is_exponent(exponent_part(s)))
}

/// The number that the exponent `x` writes; no exponent counts as zero.
pub open spec fn exponent_value(x: Seq<char>) -> int {
    if has_minus(x) {
        -(digits_value(unsigned_part(x)) as int)
    } else {
        digits_value(unsigned_part(x)) as int
    }
}

/// The first `count` places of `digits`: its digits as far as they go, then
/// zeros. Below one place there is none.
pub open spec fn leading_places(digits: Seq<char>, count: int) -> Seq<char> {
    Seq::new(
        if count > 0 {
            count as nat
        } else {
            0
        },
        |i: int|
            if i < digits.len() {
                digits[i]
            } else {
                '0'
            },
    )
}

/// The magnitude of the decimal `text`, in units: the digits of its mantissa
/// up to the eighth place behind the point, after the point has moved by the
/// exponent.
pub open spec fn magnitude_units(text: Seq<char>) -> nat {
    let s = unsigned_part(text);
    let m = mantissa_part(s);
    digits_value(
        leading_places(
            whole_part(m) + fraction_part(m),
            whole_part(m).len() + exponent_value(exponent_part(s)) + 8,
        ),
    )
}

/// `factor` times the value of `text` in units, where `text` is a decimal
/// and the product is representable, and zero otherwise.
pub open spec fn scaled_units(text: Seq<char>, factor: nat) -> int {
    let scaled = magnitude_units(text) * factor;
    if is_decimal(text) && scaled <= DECIMAL_LIMIT {
        if has_minus(text) {
            -scaled
        } else {
            scaled as int
        }
    } else {
        0
    }
}

/// The value of `text` in units, or zero.
pub open spec fn decimal_units(text: Seq<char>) -> int {
    scaled_units(text, 1)
}

/// A hundred times the value of `text` in units, or zero.
pub open spec fn percent_units(text: Seq<char>) -> int {
    scaled_units(text, 100)
}

/// A text has one first index only.
pub proof fn lemma_first_unique(s: Seq<char>, stop: spec_fn(char) -> bool, at: int)
    requires
        is_first(s, stop, at),
    ensures
        first_index(s, stop) == at,
{
    let other = first_index(s, stop);
    assert(is_first(s, stop, other));
    if other < at {
        assert(!stop(s[other]));
    } else if at < other {
        assert(!stop(s[at]));
    }
}

/// Every text has a first index.
pub proof fn lemma_first_exists(s: Seq<char>, stop: spec_fn(char) -> bool)
    ensures
        is_first(s, stop, first_index(s, stop)),
    decreases s.len(),
{
    if s.len() == 0 {
        assert(is_first(s, stop, 0));
    } else {
        let front = s.drop_last();
        lemma_first_exists(front, stop);
        let at = first_index(front, stop);
        assert forall|i: int| 0 <= i < at implies !stop(#[trigger] s[i]) by {
            assert(!stop(front[i]));
        }
        if at < front.len() {
            assert(s[at] == front[at]);
            assert(is_first(s, stop, at));
        } else if stop(s.last()) {
            assert(is_first(s, stop, at));
        } else {
            assert(is_first(s, stop, s.len() as int));
        }
    }
}

/// The digits in front write no more than all of them do.
proof fn lemma_prefix_value(digits: Seq<char>, k: int)
    requires
        0 <= k <= digits.len(),
    ensures
        digits_value(digits.take(k)) <= digits_value(digits),
    decreases digits.len() - k,
{
    if k < digits.len() {
        lemma_prefix_value(digits.drop_last(), k);
        assert(digits.drop_last().take(k) =~= digits.take(k));
    } else {
        assert(digits.take(k) =~= digits);
    }
}

/// Zeros behind digits multiply what the digits write by ten each.
proof fn lemma_zero_fill(places: Seq<char>, k: int)
    requires
        0 <= k <= places.len(),
        forall|i: int| k <= i < places.len() ==> #[trigger] places[i] == '0',
    ensures
        digits_value(places) == digits_value(places.take(k)) * pow10((places.len() - k) as nat),
    decreases places.len() - k,
{
    let written = digits_value(places.take(k));
    if k < places.len() {
        let front = places.drop_last();
        lemma_zero_fill(front, k);
        assert(front.take(k) =~= places.take(k));
        let power = pow10((front.len() - k) as nat);
        assert(places.last() == '0');
        assert(digits_value(places) == digits_value(front) * 10);
        assert(pow10((places.len() - k) as nat) == 10 * power);
        assert(written * power * 10 == written * (10 * power)) by (nonlinear_arith);
    } else {
        assert(places.take(k) =~= places);
        assert(pow10(0) == 1);
        assert(written * 1 == written);
    }
}

/// Digits dropped at the end divide what the digits write by ten each,
/// rounding down.
proof fn lemma_dropped_digits(digits: Seq<char>, k: int)
    requires
        all_digits(digits),
        0 <= k <= digits.len(),
    ensures
        digits_value(digits.take(k)) == digits_value(digits) / pow10((digits.len() - k) as nat),
    decreases digits.len() - k,
{
    if k < digits.len() {
        let front = digits.drop_last();
        assert(is_digit(digits.last()));
        assert forall|i: int| 0 <= i < front.len() implies is_digit(#[trigger] front[i]) by {
            assert(front[i] == digits[i]);
        }
        lemma_dropped_digits(front, k);
        assert(front.take(k) =~= digits.take(k));
        let written = digits_value(digits) as int;
        let power = pow10((front.len() - k) as nat) as int;
        lemma_pow10_grows(0, (front.len() - k) as nat);
        assert(written == digits_value(front) * 10 + digit_value(digits.last()));
        assert(written / 10 == digits_value(front));
        assert(digits_value(digits.take(k)) == (written / 10) / power);
        assert(pow10((digits.len() - k) as nat) == 10 * power);
        lemma_div_denominator(written, 10, power);
        assert((written / 10) / power == written / (10 * power));
    } else {
        assert(digits.take(k) =~= digits);
        assert((digits.len() - k) as nat == 0);
        assert(pow10(0) == 1);
        assert(digits_value(digits) / 1 == digits_value(digits));
    }
}

/// The first `count` places of `digits` write the number of all its digits
/// with the point moved: times ten for each place added behind them, and
/// divided by ten, rounding down, for each digit left out.
pub proof fn places_move_the_point(digits: Seq<char>, count: int)
    requires
        all_digits(digits),
        count >= 0,
    ensures
        count >= digits.len() ==> digits_value(leading_places(digits, count)) == digits_value(
            digits,
        ) * pow10((count - digits.len()) as nat),
        count <= digits.len() ==> digits_value(leading_places(digits, count)) == digits_value(
            digits,
        ) / pow10((digits.len() - count) as nat),
{
    let places = leading_places(digits, count);
    if count >= digits.len() {
        lemma_zero_fill(places, digits.len() as int);
        assert(places.take(digits.len() as int) =~= digits);
    }
    if count <= digits.len() {
        lemma_dropped_digits(digits, count);
        assert(places =~= digits.take(count));
    }
}

/// A greater exponent gives a greater power of ten.
proof fn lemma_pow10_grows(low: nat, high: nat)
    requires
        low <= high,
    ensures
        1 <= pow10(low) <= pow10(high),
    decreases high,
{
    if low < high {
        lemma_pow10_grows(low, (high - 1) as nat);
    } else if low > 0 {
        lemma_pow10_grows((low - 1) as nat, (low - 1) as nat);
    }
}

/// With thirty-one zeros or more behind its digits, a number is zero or
/// beyond the limit.
proof fn lemma_long_fill(digits: Seq<char>, count: int)
    requires
        count >= digits.len() + 31,
    ensures
        digits_value(leading_places(digits, count)) == 0 || digits_value(
            leading_places(digits, count),
        ) > DECIMAL_LIMIT,
{
    let places = leading_places(digits, count);
    let written = digits_value(places.take(digits.len() as int));
    let power = pow10((count - digits.len()) as nat);
    lemma_zero_fill(places, digits.len() as int);
    lemma_pow10_grows(31, (count - digits.len()) as nat);
    assert(pow10(31) > DECIMAL_LIMIT) by {
        reveal_with_fuel(pow10, 32);
    }
    if written > 0 {
        assert(written * power >= power) by (nonlinear_arith)
            requires
                written >= 1,
                power >= 0,
        ;
    } else {
        assert(written * power == 0) by (nonlinear_arith)
            requires
                written == 0,
        ;
    }
}

/// A decimal holds signs, digits, a point and an exponent mark only.
proof fn lemma_decimal_is_ascii(text: Seq<char>)
    requires
        is_decimal(text),
    ensures
        is_ascii_chars(text),
{
    let s = unsigned_part(text);
    let shift: int = if has_sign(text) { 1 } else { 0 };
    lemma_first_exists(s, exponent_mark());
    let k = first_index(s, exponent_mark());
    let m = mantissa_part(s);
    lemma_first_exists(m, point());
    let p = first_index(m, point());
    let x = exponent_part(s);
    assert forall|i: int| 0 <= i < text.len() implies '\0' <= #[trigger] text[i] <= '\u{7f}' by {
        if i >= shift {
            let j = i - shift;
            assert(s[j] == text[i]);
            if j < k {
                assert(m[j] == s[j]);
                if j < p {
                    assert(is_digit(whole_part(m)[j]));
                } else if j > p {
                    assert(is_digit(fraction_part(m)[j - p - 1]));
                }
            } else if j > k {
                let q = j - k - 1;
                assert(x[q] == s[j]);
                if has_sign(x) {
                    if q > 0 {
                        assert(is_digit(unsigned_part(x)[q - 1]));
                    }
                } else {
                    assert(is_digit(unsigned_part(x)[q]));
                }
            }
        }
    }
}

/// Where the run of digits that starts at `from` ends.
fn digit_run(text: &str, from: usize, len: usize) -> (end: usize)
    requires
        is_ascii(text),
        len == text@.len(),
        from <= len,
    ensures
        from <= end <= len,
        all_digits(text@.subrange(from as int, end as int)),
        end < len ==> !is_digit(text@[end as int]),
{
    let mut end = from;
    while end < len
        invariant
            is_ascii(text),
            len == text@.len(),
            from <= end <= len,
            all_digits(text@.subrange(from as int, end as int)),
        ensures
            from <= end <= len,
            all_digits(text@.subrange(from as int, end as int)),
            end < len ==> !is_digit(text@[end as int]),
        decreases len - end,
    {
        let byte = text.get_ascii(end);
        if byte < 48 || byte > 57 {
            break;
        }
        proof {
            let longer = text@.subrange(from as int, end + 1);
            assert forall|i: int| 0 <= i < longer.len() implies is_digit(#[trigger] longer[i]) by {
                if i < end - from {
                    assert(text@.subrange(from as int, end as int)[i] == longer[i]);
                }
            }
        }
        end = end + 1;
    }
    end
}

/// The number that the digits of `text` from `from` up to `to` write, where
/// it is at most `cap`.
fn number_in(text: &str, from: usize, to: usize, cap: u128) -> (result: Option<u128>)
    requires
        is_ascii(text),
        from <= to <= text@.len(),
        all_digits(text@.subrange(from as int, to as int)),
        cap <= DECIMAL_LIMIT,
    ensures
        match result {
            Some(value) => value == digits_value(text@.subrange(from as int, to as int)) && value
                <= cap,
            None => digits_value(text@.subrange(from as int, to as int)) > cap,
        },
{
    let ghost digits = text@.subrange(from as int, to as int);
    let mut value: u128 = 0;
    let mut index = from;
    while index < to
        invariant
            is_ascii(text),
            from <= index <= to <= text@.len(),
            digits == text@.subrange(from as int, to as int),
            all_digits(digits),
            cap <= DECIMAL_LIMIT,
            value <= cap,
            value == digits_value(digits.take(index - from)),
        decreases to - index,
    {
        let byte = text.get_ascii(index);
        proof {
            let longer = digits.take(index - from + 1);
            assert(longer.drop_last() =~= digits.take(index - from));
            assert(longer.last() == text@[index as int]);
            assert(is_digit(digits[index - from]));
        }
        value = value * 10 + (byte - 48) as u128;
        index = index + 1;
        if value > cap {
            proof {
                lemma_prefix_value(digits, index - from);
            }
            return None;
        }
    }
    assert(digits.take(to - from) =~= digits);
    Some(value)
}

/// Whether a minus sign stands at `at`, and where the text goes on behind
/// the sign, if one stands there.
fn sign_at(text: &str, at: usize, len: usize) -> (result: (bool, usize))
    requires
        is_ascii(text),
        len == text@.len(),
        at <= len,
    ensures
        result.0 == has_minus(text@.skip(at as int)),
        result.1 == at + (if has_sign(text@.skip(at as int)) {
            1int
        } else {
            0int
        }),
        unsigned_part(text@.skip(at as int)) == text@.skip(result.1 as int),
{
    let ghost rest = text@.skip(at as int);
    if at < len {
        let first = text.get_ascii(at);
        assert(rest[0] == text@[at as int]);
        if first == 45 || first == 43 {
            assert(rest.skip(1) =~= text@.skip(at + 1));
            return (first == 45, at + 1);
        }
    }
    (false, at)
}

/// Where the parts of a mantissa stand in a text.
struct Mantissa {
    whole_end: usize,
    fraction_start: usize,
    end: usize,
}

/// Finds the mantissa of the text that starts at `start`.
fn mantissa_in(text: &str, start: usize, len: usize) -> (result: Option<Mantissa>)
    requires
        is_ascii(text),
        len == text@.len(),
        start <= len,
    ensures
        result is Some <==> is_mantissa(mantissa_part(text@.skip(start as int))),
        result matches Some(found) ==> {
            let s = text@.skip(start as int);
            &&& start <= found.whole_end <= found.fraction_start <= found.end <= len
            &&& first_index(s, exponent_mark()) == found.end - start
            &&& whole_part(mantissa_part(s)) == text@.subrange(
                start as int,
                found.whole_end as int,
            )
            &&& fraction_part(mantissa_part(s)) == text@.subrange(
                found.fraction_start as int,
                found.end as int,
            )
        },
{
    let ghost s = text@.skip(start as int);
    let whole_end = digit_run(text, start, len);
    let has_point = whole_end < len && text.get_ascii(whole_end) == 46;
    let fraction_start = if has_point {
        whole_end + 1
    } else {
        whole_end
    };
    let end = if has_point {
        digit_run(text, fraction_start, len)
    } else {
        whole_end
    };
    let marked = end < len && (text.get_ascii(end) == 101 || text.get_ascii(end) == 69);
    proof {
        let whole = text@.subrange(start as int, whole_end as int);
        let fraction = text@.subrange(fraction_start as int, end as int);
        assert forall|i: int| 0 <= i < end - start implies !exponent_mark()(#[trigger] s[i]) by {
            if i < whole_end - start {
                assert(is_digit(whole[i]));
            } else if i >= fraction_start - start {
                assert(is_digit(fraction[i - (fraction_start - start)]));
            }
        }
        lemma_first_exists(s, exponent_mark());
        let k = first_index(s, exponent_mark());
        if end < len && !marked {
            assert(!exponent_mark()(s[end - start]));
        } else {
            lemma_first_unique(s, exponent_mark(), end - start);
        }
        let m = mantissa_part(s);
        assert(k >= end - start);
        assert forall|i: int| 0 <= i < whole_end - start implies !point()(#[trigger] m[i]) by {
            assert(is_digit(whole[i]));
        }
        lemma_first_exists(m, point());
        if has_point {
            lemma_first_unique(m, point(), whole_end - start);
        } else if end < len && !marked {
            assert(!point()(m[end - start]));
            assert(first_index(m, point()) > end - start);
        } else {
            lemma_first_unique(m, point(), m.len() as int);
        }
        if end < len && !marked {
            let c = end - start;
            if has_point {
                assert(fraction_part(m)[c - (fraction_start - start)] == text@[end as int]);
            } else {
                assert(whole_part(m)[c] == text@[end as int]);
            }
            assert(!is_mantissa(m));
        } else {
            assert(m =~= text@.subrange(start as int, end as int));
            assert(whole_part(m) =~= whole);
            assert(fraction_part(m) =~= fraction);
        }
    }
    if (end < len && !marked) || (whole_end - start) + (end - fraction_start) == 0 {
        None
    } else {
        Some(Mantissa { whole_end, fraction_start, end })
    }
}

/// Finds the sign and the digits of the exponent that starts at `from`.
fn exponent_in(text: &str, from: usize, len: usize) -> (result: Option<(bool, usize)>)
    requires
        is_ascii(text),
        len == text@.len(),
        from <= len,
    ensures
        result is Some <==> is_exponent(text@.skip(from as int)),
        result matches Some(found) ==> {
            let x = text@.skip(from as int);
            &&& from <= found.1 <= len
            &&& found.0 == has_minus(x)
            &&& unsigned_part(x) == text@.subrange(found.1 as int, len as int)
        },
{
    let (negative, digits_start) = sign_at(text, from, len);
    let digits_end = digit_run(text, digits_start, len);
    proof {
        let digits = unsigned_part(text@.skip(from as int));
        assert(digits =~= text@.subrange(digits_start as int, len as int));
        if digits_end < len {
            assert(digits[digits_end - digits_start] == text@[digits_end as int]);
        }
    }
    if digits_end < len || digits_start == len {
        None
    } else {
        Some((negative, digits_start))
    }
}

/// The number that the first `count` places of the digits of a mantissa
/// write, where it is within the limit.
fn units_in(text: &str, start: usize, found: &Mantissa, count: u128) -> (result: Option<u128>)
    requires
        is_ascii(text),
        start <= found.whole_end <= found.fraction_start <= found.end <= text@.len(),
        all_digits(text@.subrange(start as int, found.whole_end as int)),
        all_digits(text@.subrange(found.fraction_start as int, found.end as int)),
    ensures
        ({
            let digits = text@.subrange(start as int, found.whole_end as int) + text@.subrange(
                found.fraction_start as int,
                found.end as int,
            );
            match result {
                Some(units) => units == digits_value(leading_places(digits, count as int))
                    && units <= DECIMAL_LIMIT,
                None => digits_value(leading_places(digits, count as int)) > DECIMAL_LIMIT,
            }
        }),
{
    let ghost whole = text@.subrange(start as int, found.whole_end as int);
    let ghost fraction = text@.subrange(found.fraction_start as int, found.end as int);
    let ghost places = leading_places(whole + fraction, count as int);
    let whole_len = found.whole_end - start;
    let digits_len = whole_len + (found.end - found.fraction_start);
    let mut units: u128 = 0;
    let mut place: u128 = 0;
    while place < count
        invariant
            is_ascii(text),
            start <= found.whole_end <= found.fraction_start <= found.end <= text@.len(),
            whole == text@.subrange(start as int, found.whole_end as int),
            fraction == text@.subrange(found.fraction_start as int, found.end as int),
            all_digits(whole),
            all_digits(fraction),
            places == leading_places(whole + fraction, count as int),
            whole_len == found.whole_end - start,
            digits_len == whole_len + (found.end - found.fraction_start),
            place <= count,
            units == digits_value(places.take(place as int)),
            units <= DECIMAL_LIMIT,
        decreases count - place,
    {
        if place >= digits_len as u128 && units == 0 {
            proof {
                lemma_zero_fill(places, place as int);
                assert(0 * pow10((places.len() - place) as nat) == 0);
            }
            return Some(0);
        }
        let byte: u8 = if place < whole_len as u128 {
            text.get_ascii(start + place as usize)
        } else if place < digits_len as u128 {
            text.get_ascii(found.fraction_start + (place as usize - whole_len))
        } else {
            48
        };
        proof {
            let longer = places.take(place + 1);
            assert(longer.drop_last() =~= places.take(place as int));
            assert(longer.last() == places[place as int]);
            if place < whole_len {
                assert(is_digit(whole[place as int]));
            } else if place < digits_len {
                assert(is_digit(fraction[place - whole_len]));
            }
            assert(is_digit(longer.last()) && byte == longer.last() as u8);
        }
        units = units * 10 + (byte - 48) as u128;
        place = place + 1;
        if units > 1_000_000_000_000_000_000_000_000_000_000 {
            proof {
                lemma_prefix_value(places, place as int);
            }
            return None;
        }
    }
    assert(places.take(count as int) =~= places);
    Some(units)
}

/// The signed units of a decimal of the magnitude `magnitude`, times
/// `factor`, or zero where that is not representable.
fn scaled_value(negative: bool, magnitude: u128, factor: u128) -> (units: i128)
    requires
        magnitude <= DECIMAL_LIMIT,
        1 <= factor <= 100,
    ensures
        units == ({
            let scaled = magnitude * factor;
            if scaled <= DECIMAL_LIMIT {
                if negative {
                    -scaled
                } else {
                    scaled
                }
            } else {
                0
            }
        }),
        representable(units as int),
{
    assert(magnitude * factor <= 100_000_000_000_000_000_000_000_000_000_000) by (nonlinear_arith)
        requires
            magnitude <= 1_000_000_000_000_000_000_000_000_000_000,
            factor <= 100,
    ;
    let scaled = magnitude * factor;
    if scaled > 1_000_000_000_000_000_000_000_000_000_000 {
        0
    } else if negative {
        -(scaled as i128)
    } else {
        scaled as i128
    }
}

/// The magnitude in units of the decimal whose parts stand as given, where
/// it is within the limit and not zero; zero stands for both other cases.
fn magnitude_in(
    text: &str,
    start: usize,
    found: &Mantissa,
    exponent_negative: bool,
    exponent_start: usize,
) -> (result: u128)
    requires
        is_ascii(text),
        start <= found.whole_end <= found.fraction_start <= found.end <= exponent_start
            <= text@.len(),
        all_digits(text@.subrange(start as int, found.whole_end as int)),
        all_digits(text@.subrange(found.fraction_start as int, found.end as int)),
        all_digits(text@.subrange(exponent_start as int, text@.len() as int)),
    ensures
        ({
            let digits = text@.subrange(start as int, found.whole_end as int) + text@.subrange(
                found.fraction_start as int,
                found.end as int,
            );
            let written = digits_value(text@.subrange(exponent_start as int, text@.len() as int));
            let exponent = if exponent_negative {
                -(written as int)
            } else {
                written as int
            };
            let magnitude = digits_value(
                leading_places(digits, found.whole_end - start + exponent + 8),
            );
            result == if magnitude <= DECIMAL_LIMIT {
                magnitude
            } else {
                0
            }
        }),
        result <= DECIMAL_LIMIT,
{
    let len = text.unicode_len();
    let ghost digits = text@.subrange(start as int, found.whole_end as int) + text@.subrange(
        found.fraction_start as int,
        found.end as int,
    );
    let whole_len = (found.whole_end - start) as u128;
    match number_in(text, exponent_start, len, 100_000_000_000_000_000_000) {
        Some(written) => {
            let count: u128 = if !exponent_negative {
                whole_len + written + 8
            } else if whole_len + 8 > written {
                whole_len + 8 - written
            } else {
                0
            };
            match units_in(text, start, found, count) {
                Some(units) => units,
                None => 0,
            }
        },
        None => {
            proof {
                if !exponent_negative {
                    let written = digits_value(
                        text@.subrange(exponent_start as int, text@.len() as int),
                    );
                    lemma_long_fill(digits, found.whole_end - start + written + 8);
                }
            }
            0
        },
    }
}

/// `factor` times the value of `text` in units, or zero.
fn parse_scaled(text: &str, factor: u128) -> (units: i128)
    requires
        1 <= factor <= 100,
    ensures
        units == scaled_units(text@, factor as nat),
        representable(units as int),
{
    if !text.is_ascii() {
        proof {
            if is_decimal(text@) {
                lemma_decimal_is_ascii(text@);
            }
        }
        return 0;
    }
    let len = text.unicode_len();
    assert(text@.skip(0) =~= text@);
    let (negative, start) = sign_at(text, 0, len);
    let ghost s = unsigned_part(text@);
    let found = match mantissa_in(text, start, len) {
        Some(found) => found,
        None => {
            return 0;
        },
    };
    let (exponent_negative, exponent_start) = if found.end < len {
        assert(s.skip(found.end - start + 1) =~= text@.skip(found.end + 1));
        match exponent_in(text, found.end + 1, len) {
            Some(exponent) => exponent,
            None => {
                return 0;
            },
        }
    } else {
        (false, len)
    };
    proof {
        let x = exponent_part(s);
        assert(unsigned_part(x) =~= text@.subrange(exponent_start as int, len as int));
        assert(exponent_negative == has_minus(x));
        assert(is_decimal(text@));
    }
    let magnitude = magnitude_in(text, start, &found, exponent_negative, exponent_start);
    proof {
        let exact = magnitude_units(text@);
        if exact > DECIMAL_LIMIT {
            assert(exact * (factor as nat) > DECIMAL_LIMIT) by (nonlinear_arith)
                requires
                    exact > DECIMAL_LIMIT,
                    factor >= 1,
            ;
        }
    }
    scaled_value(negative, magnitude, factor)
}

/// Reads `text` as a decimal. Text that is no decimal, or whose value is not
/// representable, reads as zero.
pub fn parse_decimal(text: &str) -> (value: Decimal)
    ensures
        value@ == decimal_units(text@),
        !is_decimal(text@) ==> value@ == 0,
{
    Decimal::from_bounded(parse_scaled(text, 1))
}

/// Reads `text` as a decimal fraction and gives it in percent. Text that is
/// no decimal, or whose percentage is not representable, reads as zero.
pub fn parse_percent(text: &str) -> (value: Decimal)
    ensures
        value@ == percent_units(text@),
        !is_decimal(text@) ==> value@ == 0,
{
    Decimal::from_bounded(parse_scaled(text, 100))
}

} // verus!
