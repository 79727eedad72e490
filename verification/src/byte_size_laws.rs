//! What holds of the byte sizes that can be read.

use vstd::arithmetic::div_mod::lemma_div_denominator;
use vstd::arithmetic::div_mod::lemma_fundamental_div_mod;
use vstd::arithmetic::div_mod::lemma_fundamental_div_mod_converse;
use vstd::arithmetic::div_mod::lemma_hoist_over_denominator;
use vstd::prelude::*;
use vstd::utf8::char_is_scalar;
use vstd::utf8::encode_scalar;
use vstd::utf8::encode_utf8;
use vstd::utf8::encode_utf8_first_scalar;
use vstd::utf8::encode_utf8_valid_utf8;
use vstd::utf8::has_width_1_encoding;
use vstd::utf8::has_width_2_encoding;
use vstd::utf8::has_width_3_encoding;
use vstd::utf8::is_char_boundary;
use vstd::utf8::length_of_first_scalar;
use vstd::utf8::pop_first_scalar;

use crate::byte_size::amount;
use crate::byte_size::ascii_lower;
use crate::byte_size::byte_size;
use crate::byte_size::can_read_unit;
use crate::byte_size::cuts_character;
use crate::byte_size::ends_in_bit;
use crate::byte_size::fraction;
use crate::byte_size::has_whole_suffix;
use crate::byte_size::in_number;
use crate::byte_size::lemma_power_grows;
use crate::byte_size::multiplier;
use crate::byte_size::number_text;
use crate::byte_size::parse_bytes_with_unit;
use crate::byte_size::power;
use crate::byte_size::prefix_and_bits;
use crate::byte_size::unit_text;
use crate::byte_size::utf8_length;
use crate::byte_size::utf8_width;
use crate::byte_size::whole;
use crate::error::ConfigError;
use crate::text::all_digits;
use crate::text::decimal_value;
use crate::text::is_digit;
use crate::text::is_white_space;
use crate::text::lemma_run_length;
use crate::text::lemma_run_length_is;
use crate::text::run_length;
use crate::text::trimmed;

verus! {

/// The characters are white space.
pub open spec fn is_blank(s: Seq<char>) -> bool {
    forall|i: int| 0 <= i < s.len() ==> is_white_space(#[trigger] s[i])
}

/// Where the text inside the white space of `s` starts and ends: all before `i` and from `j` on is
/// white space, and what is between neither starts nor ends so.
spec fn is_core(s: Seq<char>, i: int, j: int) -> bool {
    &&& 0 <= i <= j <= s.len()
    &&& forall|k: int| 0 <= k < i ==> is_white_space(#[trigger] s[k])
    &&& forall|k: int| j <= k < s.len() ==> is_white_space(#[trigger] s[k])
    &&& i < j ==> !is_white_space(s[i]) && !is_white_space(s[j - 1])
}

proof fn lemma_trimmed_is(s: Seq<char>, i: int, j: int)
    requires
        is_core(s, i, j),
    ensures
        trimmed(s) == s.subrange(i, j),
{
    let p = |c: char| is_white_space(c);
    let start = if i == j {
        s.len() as int
    } else {
        i
    };
    assert forall|k: int| 0 <= k < start implies p(#[trigger] s[k]) by {
        assert(is_white_space(s[k]));
    }
    lemma_run_length_is(s, p, start);
    let rest = s.skip(start);
    let end = if i == j {
        0
    } else {
        s.len() - j
    };
    assert forall|k: int| 0 <= k < end implies p(#[trigger] rest.reverse()[k]) by {
        assert(rest.reverse()[k] == s[s.len() - 1 - k]);
    }
    if i < j {
        assert(rest.reverse()[end] == s[j - 1]);
    }
    lemma_run_length_is(rest.reverse(), p, end);
    assert(trimmed(s) =~= s.subrange(i, j));
}

proof fn lemma_core_of(s: Seq<char>) -> (r: (int, int))
    ensures
        is_core(s, r.0, r.1),
        trimmed(s) == s.subrange(r.0, r.1),
{
    let p = |c: char| is_white_space(c);
    let i = run_length(s, p) as int;
    lemma_run_length(s, p);
    assert forall|k: int| 0 <= k < i implies is_white_space(#[trigger] s[k]) by {
        assert(p(s[k]));
    }
    let rest = s.skip(i);
    let n = run_length(rest.reverse(), p) as int;
    lemma_run_length(rest.reverse(), p);
    let j = s.len() - n;
    assert forall|k: int| j <= k < s.len() implies is_white_space(#[trigger] s[k]) by {
        assert(p(rest.reverse()[s.len() - 1 - k]));
    }
    if i < s.len() {
        assert(!p(s[i]));
        if n == rest.len() {
            assert(p(rest.reverse()[rest.len() - 1]));
        }
        assert(rest.reverse()[n] == s[j - 1]);
    }
    lemma_trimmed_is(s, i, j);
    (i, j)
}

/// White space around a text does not change what is inside.
proof fn lemma_trimmed_ignores_blanks(before: Seq<char>, s: Seq<char>, after: Seq<char>)
    requires
        is_blank(before),
        is_blank(after),
    ensures
        trimmed(before + s + after) == trimmed(s),
{
    let (i, j) = lemma_core_of(s);
    let padded = before + s + after;
    let (from, to) = if i == j {
        (padded.len() as int, padded.len() as int)
    } else {
        (before.len() + i, before.len() + j)
    };
    assert forall|k: int| 0 <= k < from implies is_white_space(#[trigger] padded[k]) by {
        if before.len() <= k < before.len() + s.len() {
            assert(is_white_space(s[k - before.len()]));
        }
    }
    assert forall|k: int| to <= k < padded.len() implies is_white_space(#[trigger] padded[k]) by {
        if k < before.len() + s.len() {
            assert(is_white_space(s[k - before.len()]));
        }
    }
    lemma_trimmed_is(padded, from, to);
    assert(padded.subrange(from, to) =~= s.subrange(i, j));
}

/// White space around a byte size does not matter.
pub proof fn law_white_space_around_is_ignored(
    before: Seq<char>,
    src: Seq<char>,
    after: Seq<char>,
)
    requires
        is_blank(before),
        is_blank(after),
    ensures
        byte_size(before + src + after) == byte_size(src),
{
    lemma_trimmed_ignores_blanks(before, src, after);
}

/// A number and a unit that are written one after the other, with or without white space in
/// between, are read as that number and that unit.
pub proof fn law_number_and_unit_are_read(number: Seq<char>, blank: Seq<char>, unit: Seq<char>)
    requires
        number.len() > 0,
        forall|i: int| 0 <= i < number.len() ==> in_number(#[trigger] number[i]),
        is_blank(blank),
        blank.len() == 0 && unit.len() > 0 ==> !in_number(unit[0]),
    ensures
        number_text(number + blank + unit) == number,
        unit_text(number + blank + unit) == trimmed(unit),
{
    let src = number + blank + unit;
    let (i, j) = lemma_core_of(unit);
    let n = number.len() as int;
    let end = if i == j {
        n
    } else {
        n + blank.len() + j
    };
    assert(in_number(number[0]) && !is_white_space(number[0]));
    assert(in_number(number[n - 1]) && !is_white_space(number[n - 1]));
    assert forall|k: int| end <= k < src.len() implies is_white_space(#[trigger] src[k]) by {
        if n <= k < n + blank.len() {
            assert(is_white_space(blank[k - n]));
        } else if n + blank.len() <= k {
            assert(is_white_space(unit[k - n - blank.len()]));
        }
    }
    lemma_trimmed_is(src, 0, end);
    let value = trimmed(src);
    let p = |c: char| in_number(c);
    assert forall|k: int| 0 <= k < n implies p(#[trigger] value[k]) by {
        assert(in_number(number[k]));
    }
    if n < end {
        assert(!p(value[n])) by {
            if blank.len() > 0 {
                assert(value[n] == blank[0]);
                assert(is_white_space(blank[0]));
            } else {
                assert(value[n] == unit[0]);
            }
        }
    }
    lemma_run_length_is(value, p, n);
    assert(value.take(n) =~= number);
    let none = Seq::<char>::empty();
    if i == j {
        assert(value.skip(n) =~= none);
        lemma_trimmed_is(none, 0, 0);
        assert(unit.subrange(i, j) =~= none);
        assert(none.subrange(0, 0) =~= none);
    } else {
        assert(value.skip(n) =~= blank + unit.take(j) + none);
        lemma_trimmed_ignores_blanks(blank, unit.take(j), none);
        assert(is_core(unit.take(j), i, j));
        lemma_trimmed_is(unit.take(j), i, j);
        assert(unit.take(j).subrange(i, j) =~= unit.subrange(i, j));
    }
}

/// Digits with a point in between, or without one, are read as a decimal number.
pub proof fn law_decimals_are_read(before: Seq<char>, after: Seq<char>)
    requires
        all_digits(before),
        all_digits(after),
        before.len() + after.len() > 0,
        power(10, after.len()) <= u128::MAX,
        decimal_value(before) * power(10, after.len()) + decimal_value(after) <= u128::MAX,
    ensures
        amount(before + seq!['.'] + after) == Ok::<(nat, nat), Seq<char>>(
            (
                decimal_value(before) * power(10, after.len()) + decimal_value(after),
                power(10, after.len()),
            ),
        ),
        before.len() > 0 ==> amount(before) == Ok::<(nat, nat), Seq<char>>(
            (decimal_value(before), 1),
        ),
{
    let p = |c: char| c != '.';
    assert forall|i: int| 0 <= i < before.len() implies p(#[trigger] before[i]) by {
        assert(is_digit(before[i]));
    }
    assert forall|i: int| 0 <= i < after.len() implies after[i] != '.' by {
        assert(is_digit(after[i]));
    }
    lemma_power_grows(0, after.len());
    assert(decimal_value(before) <= decimal_value(before) * power(10, after.len())) by (nonlinear_arith)
        requires
            power(10, after.len()) >= 1,
    ;
    let number = before + seq!['.'] + after;
    assert forall|i: int| 0 <= i < before.len() implies p(#[trigger] number[i]) by {
        assert(p(before[i]));
    }
    assert(number[before.len() as int] == '.');
    lemma_run_length_is(number, p, before.len() as int);
    assert(whole(number) =~= before);
    assert(fraction(number) =~= after);
    assert(number != seq!['.']) by {
        assert(number.len() > 1);
    }
    if before.len() > 0 {
        lemma_run_length_is(before, p, before.len() as int);
        assert(whole(before) =~= before);
        assert(fraction(before) =~= Seq::<char>::empty());
        assert(before != seq!['.']) by {
            assert(p(before[0]));
        }
        let scale = power(10, fraction(before).len());
        assert(scale == 1);
        assert(decimal_value(fraction(before)) == 0);
        assert(decimal_value(before) * scale == decimal_value(before)) by (nonlinear_arith)
            requires
                scale == 1,
        ;
    }
}

/// A whole number with a unit stands for as many bytes, or bits, as the unit stands for, times the
/// number.
pub proof fn law_unit_multiplies_number(
    digits: Seq<char>,
    blank: Seq<char>,
    unit: Seq<char>,
    factor: nat,
)
    requires
        all_digits(digits),
        digits.len() > 0,
        is_blank(blank),
        unit.len() > 0 ==> !in_number(unit[0]),
        multiplier(prefix_and_bits(trimmed(unit)).0) == Some(factor),
        (if prefix_and_bits(trimmed(unit)).1 {
            (decimal_value(digits) * factor + 7) / 8
        } else {
            decimal_value(digits) * factor
        }) <= u64::MAX,
    ensures
        byte_size(digits + blank + unit) == Ok::<u64, Seq<char>>(
            (if prefix_and_bits(trimmed(unit)).1 {
                (decimal_value(digits) * factor + 7) / 8
            } else {
                decimal_value(digits) * factor
            }) as u64,
        ),
{
    assert forall|i: int| 0 <= i < digits.len() implies in_number(#[trigger] digits[i]) by {
        assert(is_digit(digits[i]));
    }
    law_number_and_unit_are_read(digits, blank, unit);
    let value = decimal_value(digits);
    let bits = prefix_and_bits(trimmed(unit)).1;
    reveal_with_fuel(power, 7);
    assert(value <= value * factor) by (nonlinear_arith)
        requires
            factor >= 1,
    ;
    let none = Seq::<char>::empty();
    assert(power(10, none.len()) == 1);
    assert(decimal_value(none) == 0);
    assert(value * power(10, none.len()) == value) by (nonlinear_arith)
        requires
            power(10, none.len()) == 1,
    ;
    law_decimals_are_read(digits, none);
    let src = digits + blank + unit;
    assert(amount(number_text(src)) == Ok::<(nat, nat), Seq<char>>((value, 1)));
    let numerator = value * factor;
    if bits {
        assert(8 * 1nat == 8);
        assert((numerator + 8 - 1) / 8 == (numerator + 7) / 8);
    } else {
        assert((numerator + 1 - 1) / 1 == numerator);
    }
}

/// The size is rounded up: it is the least number of bytes that is not below the exact value,
/// which is the number times the factor of its prefix, divided by eight if the unit counts bits.
pub proof fn law_size_is_rounded_up(src: Seq<char>)
    requires
        byte_size(src) is Ok,
    ensures
        amount(number_text(src)) is Ok,
        ({
            let (mantissa, scale) = amount(number_text(src))->Ok_0;
            let (prefix, bits) = prefix_and_bits(unit_text(src));
            let size = byte_size(src)->Ok_0 as int;
            let divisor = if bits {
                8 * scale
            } else {
                scale
            };
            &&& multiplier(prefix) is Some
            &&& (size - 1) * divisor < mantissa * multiplier(prefix).unwrap() <= size * divisor
        }),
{
    let (mantissa, scale) = amount(number_text(src))->Ok_0;
    let (prefix, bits) = prefix_and_bits(unit_text(src));
    let size = byte_size(src)->Ok_0 as int;
    let divisor = (if bits {
        8 * scale
    } else {
        scale
    }) as int;
    let numerator = (mantissa * multiplier(prefix).unwrap()) as int;
    lemma_power_grows(0, fraction(number_text(src)).len());
    lemma_fundamental_div_mod(numerator + divisor - 1, divisor);
    let rest = (numerator + divisor - 1) % divisor;
    assert(divisor * size == size * divisor) by (nonlinear_arith);
    assert((size - 1) * divisor == size * divisor - divisor) by (nonlinear_arith);
    assert(0 <= rest < divisor);
}

/// A text that ends in a letter which is neither white space nor part of a number, read as a
/// number and a unit: the letter ends the unit, and the rest does not depend on it.
proof fn lemma_last_letter(head: Seq<char>, a: char, b: char)
    requires
        !is_white_space(a) && !in_number(a),
        !is_white_space(b) && !in_number(b),
    ensures
        number_text(head.push(a)) == number_text(head.push(b)),
        unit_text(head.push(a)).len() > 0,
        unit_text(head.push(b)).len() > 0,
        unit_text(head.push(a)).last() == a,
        unit_text(head.push(b)).last() == b,
        unit_text(head.push(a)).drop_last() == unit_text(head.push(b)).drop_last(),
{
    let ws = |c: char| is_white_space(c);
    let num = |c: char| in_number(c);
    let i = run_length(head, ws) as int;
    lemma_run_length(head, ws);
    let rest = head.skip(i);
    let n = run_length(rest, num) as int;
    lemma_run_length(rest, num);
    let tail = rest.skip(n);
    let m = run_length(tail, ws) as int;
    lemma_run_length(tail, ws);
    lemma_last_letter_of(head, a, i, n, m);
    lemma_last_letter_of(head, b, i, n, m);
    assert(tail.skip(m).push(a).drop_last() =~= tail.skip(m).push(b).drop_last());
}

proof fn lemma_last_letter_of(head: Seq<char>, a: char, i: int, n: int, m: int)
    requires
        !is_white_space(a) && !in_number(a),
        i == run_length(head, |c: char| is_white_space(c)),
        n == run_length(head.skip(i), |c: char| in_number(c)),
        m == run_length(head.skip(i).skip(n), |c: char| is_white_space(c)),
    ensures
        number_text(head.push(a)) == head.skip(i).take(n),
        unit_text(head.push(a)) == head.skip(i).skip(n).skip(m).push(a),
{
    let ws = |c: char| is_white_space(c);
    let num = |c: char| in_number(c);
    lemma_run_length(head, ws);
    let rest = head.skip(i);
    lemma_run_length(rest, num);
    let tail = rest.skip(n);
    lemma_run_length(tail, ws);
    lemma_trimmed_with_last(head, a);
    let value = rest.push(a);
    assert forall|k: int| 0 <= k < n implies num(#[trigger] value[k]) by {
        assert(num(rest[k]));
    }
    lemma_run_length_is(value, num, n);
    assert(value.take(n) =~= rest.take(n));
    assert(value.skip(n) =~= tail.push(a));
    lemma_trimmed_with_last(tail, a);
}

proof fn lemma_trimmed_with_last(s: Seq<char>, a: char)
    requires
        !is_white_space(a),
    ensures
        trimmed(s.push(a)) == s.skip(run_length(s, |c: char| is_white_space(c)) as int).push(a),
{
    let ws = |c: char| is_white_space(c);
    let i = run_length(s, ws) as int;
    lemma_run_length(s, ws);
    let t = s.push(a);
    assert forall|k: int| 0 <= k < i implies is_white_space(#[trigger] t[k]) by {
        assert(ws(s[k]));
    }
    if i < s.len() {
        assert(!ws(s[i]));
    }
    lemma_trimmed_is(t, i, t.len() as int);
    assert(t.subrange(i, t.len() as int) =~= s.skip(i).push(a));
}

/// Eight bits are a byte: with `b` instead of `B` at its end, a size is an eighth, rounded up.
pub proof fn law_eight_bits_are_a_byte(head: Seq<char>)
    requires
        byte_size(head.push('B')) is Ok,
        byte_size(head.push('b')) is Ok,
    ensures
        byte_size(head.push('b'))->Ok_0 == (byte_size(head.push('B'))->Ok_0 + 7) / 8,
{
    lemma_last_letter(head, 'B', 'b');
    let number = number_text(head.push('B'));
    let (mantissa, scale) = amount(number)->Ok_0;
    lemma_power_grows(0, fraction(number).len());
    let prefix = unit_text(head.push('B')).drop_last();
    let numerator = (mantissa * multiplier(prefix).unwrap()) as int;
    let s = scale as int;
    let bytes = (numerator + s - 1) / s;
    let bits = (numerator + 8 * s - 1) / (8 * s);
    lemma_hoist_over_denominator(numerator + s - 1, 7, scale);
    assert(7 * s + (numerator + s - 1) == numerator + 8 * s - 1);
    lemma_div_denominator(numerator + 8 * s - 1, s, 8);
    assert(s * 8 == 8 * s);
    assert(bits == (bytes + 7) / 8);
}

/// The case of the letters of a prefix does not matter.
pub proof fn law_case_of_prefix_is_ignored(a: Seq<char>, b: Seq<char>)
    requires
        a.len() == b.len(),
        forall|i: int| 0 <= i < a.len() ==> ascii_lower(#[trigger] a[i]) == ascii_lower(b[i]),
    ensures
        multiplier(a) == multiplier(b),
{
}

/// A text of ASCII characters takes as many bytes as it has characters.
proof fn lemma_ascii_length(s: Seq<char>)
    requires
        forall|i: int| 0 <= i < s.len() ==> (#[trigger] s[i]) <= '\u{7f}',
    ensures
        utf8_length(s) == s.len(),
    decreases s.len(),
{
    if s.len() > 0 {
        lemma_ascii_length(s.drop_first());
    }
}

/// Every text of ASCII characters can be read.
pub proof fn law_ascii_can_be_read(src: Seq<char>)
    requires
        forall|i: int| 0 <= i < src.len() ==> (#[trigger] src[i]) <= '\u{7f}',
    ensures
        has_whole_suffix(src),
{
    let value = trimmed(src);
    let (i, j) = lemma_core_of(src);
    let n = run_length(value, |c: char| in_number(c)) as int;
    lemma_run_length(value, |c: char| in_number(c));
    let tail = value.skip(n);
    let (k, l) = lemma_core_of(tail);
    let unit = unit_text(src);
    assert forall|x: int| 0 <= x < unit.len() implies (#[trigger] unit[x]) <= '\u{7f}' by {
        assert(unit[x] == src[i + n + k + x]);
    }
    lemma_ascii_length(unit);
    if unit.len() >= 3 {
        lemma_ascii_length(unit.skip(unit.len() - 3));
    }
}

/// How powers are made up.
pub proof fn law_powers_are_products(base: nat, n: nat)
    ensures
        power(base, 0) == 1,
        power(base, n + 1) == base * power(base, n),
{
}

/// The prefix of a unit and the number of units that it stands for, in upper or lower case.
pub open spec fn stands_for(prefix: Seq<char>, factor: nat) -> bool {
    ||| prefix.len() == 0 && factor == 1
    ||| prefix.len() == 1 && {
        ||| (prefix[0] == 'k' || prefix[0] == 'K') && factor == 1_000
        ||| (prefix[0] == 'm' || prefix[0] == 'M') && factor == 1_000_000
        ||| (prefix[0] == 'g' || prefix[0] == 'G') && factor == 1_000_000_000
        ||| (prefix[0] == 't' || prefix[0] == 'T') && factor == 1_000_000_000_000
        ||| (prefix[0] == 'p' || prefix[0] == 'P') && factor == 1_000_000_000_000_000
        ||| (prefix[0] == 'e' || prefix[0] == 'E') && factor == 1_000_000_000_000_000_000
    }
    ||| prefix.len() == 2 && (prefix[1] == 'i' || prefix[1] == 'I') && {
        ||| (prefix[0] == 'k' || prefix[0] == 'K') && factor == 1_024
        ||| (prefix[0] == 'm' || prefix[0] == 'M') && factor == 1_048_576
        ||| (prefix[0] == 'g' || prefix[0] == 'G') && factor == 1_073_741_824
        ||| (prefix[0] == 't' || prefix[0] == 'T') && factor == 1_099_511_627_776
        ||| (prefix[0] == 'p' || prefix[0] == 'P') && factor == 1_125_899_906_842_624
        ||| (prefix[0] == 'e' || prefix[0] == 'E') && factor == 1_152_921_504_606_846_976
    }
}

/// What can stand behind the prefix: nothing or `B` if bytes are counted, `b` or `bit` in any case
/// if bits are.
pub open spec fn counts(suffix: Seq<char>, bits: bool) -> bool {
    ||| suffix.len() == 0 && !bits
    ||| suffix.len() == 1 && suffix[0] == 'B' && !bits
    ||| suffix.len() == 1 && suffix[0] == 'b' && bits
    ||| suffix.len() == 3 && (suffix[0] == 'b' || suffix[0] == 'B') && (suffix[1] == 'i'
        || suffix[1] == 'I') && (suffix[2] == 't' || suffix[2] == 'T') && bits
}

/// A decimal number: digits, and decimals behind a point if there is one. There is at least one
/// digit.
pub open spec fn is_decimal(
    number: Seq<char>,
    before: Seq<char>,
    point: bool,
    decimals: Seq<char>,
) -> bool {
    &&& number == before + (if point {
        seq!['.']
    } else {
        seq![]
    }) + decimals
    &&& forall|i: int| 0 <= i < before.len() ==> '0' <= (#[trigger] before[i]) <= '9'
    &&& forall|i: int| 0 <= i < decimals.len() ==> '0' <= (#[trigger] decimals[i]) <= '9'
    &&& before.len() + decimals.len() > 0
    &&& !point ==> decimals.len() == 0
}

/// A text in which a unit, possibly none, stands behind a number, possibly none, with white space
/// around them and in between. What stands right behind the number does not look like part of it.
pub open spec fn is_size_text(
    src: Seq<char>,
    left: Seq<char>,
    number: Seq<char>,
    blank: Seq<char>,
    unit: Seq<char>,
    right: Seq<char>,
) -> bool {
    &&& src == left + number + blank + unit + right
    &&& is_blank(left)
    &&& is_blank(blank)
    &&& is_blank(right)
    &&& forall|i: int|
        0 <= i < number.len() ==> '0' <= (#[trigger] number[i]) <= '9' || number[i] == '.'
    &&& number.len() == 0 ==> blank.len() == 0
    &&& unit.len() > 0 ==> {
        &&& blank.len() == 0 ==> !('0' <= unit[0] <= '9') && unit[0] != '.'
        &&& !is_white_space(unit[0])
        &&& !is_white_space(unit.last())
    }
}

/// The number and the unit of such a text are what is read from it.
proof fn lemma_parts_of_size_text(
    src: Seq<char>,
    left: Seq<char>,
    number: Seq<char>,
    blank: Seq<char>,
    unit: Seq<char>,
    right: Seq<char>,
)
    requires
        is_size_text(src, left, number, blank, unit, right),
    ensures
        number_text(src) == number,
        unit_text(src) == unit,
{
    let core = number + blank + unit;
    assert(src =~= left + core + right);
    lemma_trimmed_ignores_blanks(left, core, right);
    assert(is_core(unit, 0, unit.len() as int));
    lemma_trimmed_is(unit, 0, unit.len() as int);
    assert(unit.subrange(0, unit.len() as int) =~= unit);
    if number.len() > 0 {
        assert forall|i: int| 0 <= i < number.len() implies in_number(#[trigger] number[i]) by {}
        law_number_and_unit_are_read(number, blank, unit);
    } else {
        assert(core =~= unit);
        let p = |c: char| in_number(c);
        lemma_run_length_is(unit, p, 0);
        assert(unit.take(0) =~= number);
        assert(unit.skip(0) =~= unit);
    }
}

/// The whole and the fraction of a decimal number.
proof fn lemma_parts_of_decimal(
    number: Seq<char>,
    before: Seq<char>,
    point: bool,
    decimals: Seq<char>,
)
    requires
        is_decimal(number, before, point, decimals),
    ensures
        whole(number) == before,
        fraction(number) == decimals,
        number.len() > 0,
        number != seq!['.'],
        !decimals.contains('.'),
{
    let p = |c: char| c != '.';
    let n = before.len() as int;
    assert forall|i: int| 0 <= i < n implies p(#[trigger] number[i]) by {
        assert(number[i] == before[i]);
    }
    if point {
        assert(number[n] == '.');
    }
    lemma_run_length_is(number, p, n);
    assert(whole(number) =~= before);
    assert(fraction(number) =~= decimals);
    if number =~= seq!['.'] {
        if n > 0 {
            assert(number[0] == before[0]);
        } else {
            assert(number[1] == decimals[0]);
        }
    }
}

/// What is read from a decimal number, as a mantissa and a power of ten by which to divide it, and
/// which bounds it has.
pub proof fn law_bounds_of_a_number(
    number: Seq<char>,
    before: Seq<char>,
    point: bool,
    decimals: Seq<char>,
)
    requires
        is_decimal(number, before, point, decimals),
    ensures
        ({
            let scale = power(10, decimals.len());
            let mantissa = decimal_value(before) * scale + decimal_value(decimals);
            amount(number) == (if scale > u128::MAX {
                Err::<(nat, nat), Seq<char>>("number has too many fractional digits"@)
            } else if decimal_value(before) > u128::MAX {
                Err("number too large to fit in target type"@)
            } else if mantissa > u128::MAX {
                Err("number is too large"@)
            } else {
                Ok((mantissa, scale))
            })
        }),
{
    lemma_parts_of_decimal(number, before, point, decimals);
}

/// A unit ends where its suffix starts, whatever stands in front: a `B` or `b` at the end, or `bit`
/// in any case, is the suffix, and all before it is the prefix. Any other unit has no suffix.
pub proof fn law_suffix_of_a_unit(prefix: Seq<char>, suffix: Seq<char>, bits: bool)
    requires
        counts(suffix, bits),
        suffix.len() == 0 ==> prefix.len() == 0 || prefix.last() != 'B' && prefix.last() != 'b',
        suffix.len() == 0 && prefix.len() >= 3 ==> !counts(prefix.skip(prefix.len() - 3), true),
    ensures
        prefix_and_bits(prefix + suffix) == (prefix, bits),
{
    let unit = prefix + suffix;
    let n = unit.len() as int;
    if suffix.len() == 3 {
        assert(unit[n - 3] == suffix[0] && unit[n - 2] == suffix[1] && unit[n - 1] == suffix[2]);
        assert(ends_in_bit(unit));
        assert(unit.take(n - 3) =~= prefix);
    } else if suffix.len() == 1 {
        assert(unit[n - 1] == suffix[0]);
        assert(!ends_in_bit(unit));
        assert(unit.drop_last() =~= prefix);
    } else {
        assert(unit =~= prefix);
        if n >= 3 {
            let end = prefix.skip(n - 3);
            assert(end[0] == unit[n - 3] && end[1] == unit[n - 2] && end[2] == unit[n - 1]);
        }
        assert(!ends_in_bit(unit));
    }
}

/// A prefix stands for its factor, and nothing else is a prefix.
pub proof fn law_factor_of_a_prefix(prefix: Seq<char>, factor: nat)
    ensures
        multiplier(prefix) == Some(factor) <==> stands_for(prefix, factor),
{
    reveal_with_fuel(power, 7);
}

/// What is known of a unit that is made up of a prefix and a suffix.
proof fn lemma_known_unit(prefix: Seq<char>, suffix: Seq<char>, factor: nat, bits: bool)
    requires
        stands_for(prefix, factor),
        counts(suffix, bits),
    ensures
        prefix_and_bits(prefix + suffix) == (prefix, bits),
        multiplier(prefix) == Some(factor),
        ({
            let unit = prefix + suffix;
            unit.len() > 0 ==> {
                &&& !in_number(unit[0])
                &&& !is_white_space(unit[0])
                &&& !is_white_space(unit.last())
            }
        }),
{
    law_suffix_of_a_unit(prefix, suffix, bits);
    law_factor_of_a_prefix(prefix, factor);
    let unit = prefix + suffix;
    if unit.len() > 0 {
        if prefix.len() > 0 {
            assert(unit[0] == prefix[0]);
        } else {
            assert(unit[0] == suffix[0]);
        }
        if suffix.len() > 0 {
            assert(unit.last() == suffix.last());
        } else {
            assert(unit.last() == prefix.last());
        }
    }
}

/// The least number that is not below a quotient is the quotient rounded up.
proof fn lemma_rounded_up(numerator: nat, divisor: nat, size: nat)
    requires
        divisor > 0,
        numerator <= size * divisor,
        size * divisor < numerator + divisor,
    ensures
        (numerator + divisor - 1) / divisor as int == size,
{
    let rest = numerator + divisor - 1 - size * divisor;
    assert(numerator + divisor - 1 == size * divisor + rest);
    lemma_fundamental_div_mod_converse(
        numerator + divisor - 1,
        divisor as int,
        size as int,
        rest as int,
    );
}

/// What is read from a number with a unit, with white space or without, in any case: the least
/// number of bytes that holds the number times the factor of the unit, an eighth of that for bits.
/// There are errors where that does not fit.
pub proof fn law_size_is_number_times_unit(
    src: &str,
    left: Seq<char>,
    number: Seq<char>,
    before: Seq<char>,
    point: bool,
    decimals: Seq<char>,
    blank: Seq<char>,
    prefix: Seq<char>,
    factor: nat,
    suffix: Seq<char>,
    bits: bool,
    right: Seq<char>,
    size: nat,
    r: Result<u64, ConfigError>,
)
    requires
        is_size_text(src@, left, number, blank, prefix + suffix, right),
        is_decimal(number, before, point, decimals),
        stands_for(prefix, factor),
        counts(suffix, bits),
        power(10, decimals.len()) <= u128::MAX,
        decimal_value(before) * power(10, decimals.len()) + decimal_value(decimals) <= u128::MAX,
        ({
            let scale = power(10, decimals.len());
            let exact = (decimal_value(before) * scale + decimal_value(decimals)) * factor;
            let divisor = if bits {
                8 * scale
            } else {
                scale
            };
            exact <= size * divisor && size * divisor < exact + divisor
        }),
        call_ensures(parse_bytes_with_unit, (src,), r),
    ensures
        ({
            let scale = power(10, decimals.len());
            let exact = (decimal_value(before) * scale + decimal_value(decimals)) * factor;
            let divisor = if bits {
                8 * scale
            } else {
                scale
            };
            if divisor > u128::MAX || exact + divisor - 1 > u128::MAX {
                is_error(r, src@, "byte size is too large"@)
            } else if size > u64::MAX {
                is_error(r, src@, "out of range integral type conversion attempted"@)
            } else {
                r == Ok::<u64, ConfigError>(size as u64)
            }
        }),
{
    lemma_parts_of_size_text(src@, left, number, blank, prefix + suffix, right);
    lemma_known_unit(prefix, suffix, factor, bits);
    law_bounds_of_a_number(number, before, point, decimals);
    lemma_power_grows(0, decimals.len());
    let scale = power(10, decimals.len());
    let mantissa = decimal_value(before) * scale + decimal_value(decimals);
    assert(decimal_value(before) <= decimal_value(before) * scale) by (nonlinear_arith)
        requires
            scale >= 1,
    ;
    let divisor = if bits {
        8 * scale
    } else {
        scale
    };
    lemma_rounded_up(mantissa * factor, divisor, size);
}

/// The result is the error for a text without a number, for this text and this reason.
pub open spec fn is_error(r: Result<u64, ConfigError>, src: Seq<char>, reason: Seq<char>) -> bool {
    &&& r is Err
    &&& r->Err_0 is InvalidNumber
    &&& r->Err_0->InvalidNumber_invalid@ == src
    &&& r->Err_0->reason@ == reason
}

/// A unit that is not made up of a known prefix and suffix is refused, whatever the number.
pub proof fn law_other_units_are_refused(
    src: &str,
    left: Seq<char>,
    number: Seq<char>,
    before: Seq<char>,
    point: bool,
    decimals: Seq<char>,
    blank: Seq<char>,
    unit: Seq<char>,
    right: Seq<char>,
    r: Result<u64, ConfigError>,
)
    requires
        is_size_text(src@, left, number, blank, unit, right),
        is_decimal(number, before, point, decimals),
        power(10, decimals.len()) <= u128::MAX,
        decimal_value(before) * power(10, decimals.len()) + decimal_value(decimals) <= u128::MAX,
        forall|prefix: Seq<char>, factor: nat, suffix: Seq<char>, bits: bool|
            #[trigger] stands_for(prefix, factor) && #[trigger] counts(suffix, bits) ==> unit
                != prefix + suffix,
        call_ensures(parse_bytes_with_unit, (src,), r),
    ensures
        is_error(r, src@, "unknown byte unit"@),
{
    lemma_parts_of_size_text(src@, left, number, blank, unit, right);
    law_bounds_of_a_number(number, before, point, decimals);
    lemma_power_grows(0, decimals.len());
    let scale = power(10, decimals.len());
    assert(decimal_value(before) <= decimal_value(before) * scale) by (nonlinear_arith)
        requires
            scale >= 1,
    ;
    let (prefix, bits) = prefix_and_bits(unit);
    if let Some(factor) = multiplier(prefix) {
        law_factor_of_a_prefix(prefix, factor);
        let suffix = unit.skip(prefix.len() as int);
        assert(unit =~= prefix + suffix);
        assert(counts(suffix, bits));
    }
}

/// A number that is out of bounds is refused, whatever the unit.
pub proof fn law_large_numbers_are_refused(
    src: &str,
    left: Seq<char>,
    number: Seq<char>,
    before: Seq<char>,
    point: bool,
    decimals: Seq<char>,
    blank: Seq<char>,
    unit: Seq<char>,
    right: Seq<char>,
    r: Result<u64, ConfigError>,
)
    requires
        is_size_text(src@, left, number, blank, unit, right),
        is_decimal(number, before, point, decimals),
        call_ensures(parse_bytes_with_unit, (src,), r),
    ensures
        ({
            let scale = power(10, decimals.len());
            let mantissa = decimal_value(before) * scale + decimal_value(decimals);
            if scale > u128::MAX {
                is_error(r, src@, "number has too many fractional digits"@)
            } else if decimal_value(before) > u128::MAX {
                is_error(r, src@, "number too large to fit in target type"@)
            } else if mantissa > u128::MAX {
                is_error(r, src@, "number is too large"@)
            } else {
                true
            }
        }),
{
    lemma_parts_of_size_text(src@, left, number, blank, unit, right);
    law_bounds_of_a_number(number, before, point, decimals);
}

/// The number has no digit, or it has two points.
pub open spec fn is_no_number(number: Seq<char>) -> bool {
    ||| number.len() == 0
    ||| number == seq!['.']
    ||| exists|i: int, j: int|
        0 <= i < j < number.len() && (#[trigger] number[i]) == '.' && (#[trigger] number[j]) == '.'
}

/// A text without a digit in its number, or with two points in it, is refused, whatever the unit.
pub proof fn law_texts_without_number_are_refused(
    src: &str,
    left: Seq<char>,
    number: Seq<char>,
    blank: Seq<char>,
    unit: Seq<char>,
    right: Seq<char>,
    r: Result<u64, ConfigError>,
)
    requires
        is_size_text(src@, left, number, blank, unit, right),
        is_no_number(number),
        call_ensures(parse_bytes_with_unit, (src,), r),
    ensures
        is_error(r, src@, "expected a non-negative number with an optional unit"@),
{
    lemma_parts_of_size_text(src@, left, number, blank, unit, right);
    lemma_no_number(number);
}

proof fn lemma_no_number(number: Seq<char>)
    requires
        is_no_number(number),
    ensures
        amount(number) == Err::<(nat, nat), Seq<char>>(
            "expected a non-negative number with an optional unit"@,
        ),
{
    if number.len() > 0 && number != seq!['.'] {
        let (i, j) = choose|i: int, j: int|
            0 <= i < j < number.len() && (#[trigger] number[i]) == '.' && (#[trigger] number[j])
                == '.';
        let p = |c: char| c != '.';
        let n = run_length(number, p) as int;
        lemma_run_length(number, p);
        if n > i {
            assert(p(number[i]));
        }
        assert(fraction(number)[j - n - 1] == '.');
        assert(fraction(number).contains('.'));
    }
}

/// The width of a character is the length of its UTF-8 encoding.
proof fn lemma_width_is_encoded_length(c: char)
    ensures
        utf8_width(c) == encode_scalar(c as u32).len(),
{
    char_is_scalar(c);
    let v = c as u32;
    assert(c <= '\u{7f}' <==> has_width_1_encoding(v));
    assert('\u{7f}' < c <= '\u{7ff}' <==> has_width_2_encoding(v));
    assert('\u{7ff}' < c <= '\u{ffff}' <==> has_width_3_encoding(v));
}

/// The length of a text is that of its UTF-8 encoding.
proof fn lemma_length_is_encoded_length(s: Seq<char>)
    ensures
        utf8_length(s) == encode_utf8(s).len(),
    decreases s.len(),
{
    if s.len() > 0 {
        lemma_width_is_encoded_length(s[0]);
        lemma_length_is_encoded_length(s.drop_first());
    }
}

/// A position in the encoding of a text is a character boundary exactly if some end of the text
/// starts there.
proof fn lemma_boundaries(s: Seq<char>, at: int)
    ensures
        is_char_boundary(encode_utf8(s), at) <==> exists|k: int|
            0 <= k <= s.len() && utf8_length(#[trigger] s.skip(k)) == utf8_length(s) - at,
    decreases s.len(),
{
    let bytes = encode_utf8(s);
    encode_utf8_valid_utf8(s);
    lemma_length_is_encoded_length(s);
    assert(s.skip(0) =~= s);
    if s.len() == 0 {
        if at == 0 {
            assert(utf8_length(s.skip(0)) == utf8_length(s) - at);
        }
    } else if at == 0 {
        assert(utf8_length(s.skip(0)) == utf8_length(s) - at);
    } else {
        let rest = s.drop_first();
        encode_utf8_first_scalar(s);
        assert(pop_first_scalar(bytes) =~= encode_utf8(rest));
        let width = utf8_width(s[0]);
        lemma_width_is_encoded_length(s[0]);
        assert(length_of_first_scalar(bytes) == width);
        lemma_boundaries(rest, at - width);
        assert forall|k: int| 0 <= k <= rest.len() implies rest.skip(k) == #[trigger] s.skip(
            k + 1,
        ) by {
            assert(rest.skip(k) =~= s.skip(k + 1));
        }
        if exists|k: int|
            0 <= k <= rest.len() && utf8_length(#[trigger] rest.skip(k)) == utf8_length(rest) - (at
                - width) {
            let k = choose|k: int|
                0 <= k <= rest.len() && utf8_length(#[trigger] rest.skip(k)) == utf8_length(rest)
                    - (at - width);
            assert(utf8_length(s.skip(k + 1)) == utf8_length(s) - at);
        }
        if exists|k: int|
            0 <= k <= s.len() && utf8_length(#[trigger] s.skip(k)) == utf8_length(s) - at {
            let k = choose|k: int|
                0 <= k <= s.len() && utf8_length(#[trigger] s.skip(k)) == utf8_length(s) - at;
            assert(k > 0);
            assert(rest.skip(k - 1) == s.skip(k));
            assert(utf8_length(rest.skip(k - 1)) == utf8_length(rest) - (at - width));
        }
        if at < 0 || bytes.len() < at {
            lemma_length_is_encoded_length(rest);
        }
    }
}

/// The last three bytes of a unit can be looked at exactly if they start at a character boundary of
/// its UTF-8 encoding, or if there are not three.
pub proof fn law_cut_is_inside_a_character(unit: Seq<char>)
    ensures
        ({
            let bytes = encode_utf8(unit);
            cuts_character(unit) <==> bytes.len() >= 3 && !is_char_boundary(bytes, bytes.len() - 3)
        }),
{
    lemma_length_is_encoded_length(unit);
    lemma_boundaries(unit, utf8_length(unit) - 3);
    assert(unit.skip(0) =~= unit);
}

/// A text with a valid number can be read exactly if the last three bytes of its unit are whole
/// characters, or if there are not three. Any other text can be read, to be refused.
pub proof fn law_which_texts_can_be_read(
    src: &str,
    left: Seq<char>,
    number: Seq<char>,
    before: Seq<char>,
    point: bool,
    decimals: Seq<char>,
    blank: Seq<char>,
    unit: Seq<char>,
    right: Seq<char>,
    r: bool,
)
    requires
        is_size_text(src@, left, number, blank, unit, right),
        is_decimal(number, before, point, decimals),
        call_ensures(can_read_unit, (src,), r),
    ensures
        ({
            let scale = power(10, decimals.len());
            let mantissa = decimal_value(before) * scale + decimal_value(decimals);
            let bytes = encode_utf8(unit);
            r <==> scale > u128::MAX || mantissa > u128::MAX || bytes.len() < 3 || is_char_boundary(
                bytes,
                bytes.len() - 3,
            )
        }),
{
    lemma_parts_of_size_text(src@, left, number, blank, unit, right);
    law_bounds_of_a_number(number, before, point, decimals);
    law_cut_is_inside_a_character(unit);
    lemma_power_grows(0, decimals.len());
    let scale = power(10, decimals.len());
    assert(decimal_value(before) <= decimal_value(before) * scale) by (nonlinear_arith)
        requires
            scale >= 1,
    ;
}

/// A text without a number can be read, to be refused.
pub proof fn law_texts_without_number_can_be_read(
    src: &str,
    left: Seq<char>,
    number: Seq<char>,
    blank: Seq<char>,
    unit: Seq<char>,
    right: Seq<char>,
    r: bool,
)
    requires
        is_size_text(src@, left, number, blank, unit, right),
        is_no_number(number),
        call_ensures(can_read_unit, (src,), r),
    ensures
        r,
{
    lemma_parts_of_size_text(src@, left, number, blank, unit, right);
    lemma_no_number(number);
}

/// Digits and points are a decimal number, or there is no digit, or there are two points.
proof fn lemma_kinds_of_number(number: Seq<char>)
    requires
        forall|i: int|
            0 <= i < number.len() ==> '0' <= (#[trigger] number[i]) <= '9' || number[i] == '.',
    ensures
        is_no_number(number) || exists|before: Seq<char>, point: bool, decimals: Seq<char>|
            #[trigger] is_decimal(number, before, point, decimals),
{
    if !is_no_number(number) {
        let p = |c: char| c != '.';
        let n = run_length(number, p) as int;
        lemma_run_length(number, p);
        let before = number.take(n);
        assert forall|i: int| 0 <= i < before.len() implies '0' <= (#[trigger] before[i])
            <= '9' by {
            assert(p(number[i]));
        }
        if n == number.len() {
            let decimals = Seq::<char>::empty();
            assert(number =~= before + Seq::<char>::empty() + decimals);
            assert(is_decimal(number, before, false, decimals));
        } else {
            assert(number[n] == '.') by {
                assert(!p(number[n]));
            }
            let decimals = number.skip(n + 1);
            assert forall|i: int| 0 <= i < decimals.len() implies '0' <= (#[trigger] decimals[i])
                <= '9' by {
                assert(decimals[i] == number[n + 1 + i]);
            }
            assert(number =~= before + seq!['.'] + decimals);
            if before.len() + decimals.len() == 0 {
                assert(number =~= seq!['.']);
            }
            assert(is_decimal(number, before, true, decimals));
        }
    }
}

/// Every text is made up of a number and a unit, with white space around them and in between, and
/// the number is a decimal number, or it has no digit, or it has two points.
pub proof fn law_every_text_has_parts(src: Seq<char>)
    ensures
        exists|
            left: Seq<char>,
            number: Seq<char>,
            blank: Seq<char>,
            unit: Seq<char>,
            right: Seq<char>,
        |
            {
                &&& #[trigger] is_size_text(src, left, number, blank, unit, right)
                &&& is_no_number(number) || exists|
                    before: Seq<char>,
                    point: bool,
                    decimals: Seq<char>,
                |
                    #[trigger] is_decimal(number, before, point, decimals)
            },
{
    let (i, j) = lemma_core_of(src);
    let value = trimmed(src);
    let p = |c: char| in_number(c);
    let n = run_length(value, p) as int;
    lemma_run_length(value, p);
    let number = value.take(n);
    let tail = value.skip(n);
    let ws = |c: char| is_white_space(c);
    let m = run_length(tail, ws) as int;
    lemma_run_length(tail, ws);
    let left = src.take(i);
    let right = src.skip(j);
    let blank = tail.take(m);
    let unit = tail.skip(m);
    assert(src =~= left + number + blank + unit + right);
    assert forall|x: int| 0 <= x < left.len() implies is_white_space(#[trigger] left[x]) by {
        assert(left[x] == src[x]);
    }
    assert forall|x: int| 0 <= x < right.len() implies is_white_space(#[trigger] right[x]) by {
        assert(right[x] == src[j + x]);
    }
    assert forall|x: int| 0 <= x < number.len() implies '0' <= (#[trigger] number[x]) <= '9'
        || number[x] == '.' by {
        assert(p(value[x]));
    }
    assert forall|x: int| 0 <= x < blank.len() implies is_white_space(#[trigger] blank[x]) by {
        assert(ws(tail[x]));
    }
    if n == 0 && m > 0 {
        assert(tail[0] == src[i]);
        assert(ws(tail[0]));
    }
    if unit.len() > 0 {
        assert(!ws(tail[m]));
        assert(unit.last() == src[j - 1]);
        if m == 0 {
            assert(!p(value[n]));
        }
    }
    lemma_kinds_of_number(number);
    assert(is_size_text(src, left, number, blank, unit, right));
}

} // verus!
