//! Reading byte sizes, such as `204`, `3MiB`, `50.84 MB` or `16 kbit`.

use vstd::prelude::*;
use vstd::slice::slice_subrange;

use crate::error::ConfigError;
use crate::text::all_digits;
use crate::text::chars_of;
use crate::text::decimal_value;
use crate::text::digit;
use crate::text::is_digit;
use crate::text::lemma_run_length;
use crate::text::lemma_run_length_is;
use crate::text::parse_digits;
use crate::text::run_length;
use crate::text::trim;
use crate::text::trimmed;

verus! {

/// A character of a number: a digit or the point.
pub open spec fn in_number(c: char) -> bool {
    is_digit(c) || c == '.'
}

/// The number at the start of a byte size.
pub open spec fn number_text(src: Seq<char>) -> Seq<char> {
    trimmed(src).take(run_length(trimmed(src), |c: char| in_number(c)) as int)
}

/// The unit behind the number of a byte size.
pub open spec fn unit_text(src: Seq<char>) -> Seq<char> {
    trimmed(trimmed(src).skip(run_length(trimmed(src), |c: char| in_number(c)) as int))
}

/// The digits of a number in front of its first point.
pub open spec fn whole(number: Seq<char>) -> Seq<char> {
    number.take(run_length(number, |c: char| c != '.') as int)
}

/// What stands behind the first point of a number.
pub open spec fn fraction(number: Seq<char>) -> Seq<char> {
    let point = run_length(number, |c: char| c != '.') as int;
    if point < number.len() {
        number.skip(point + 1)
    } else {
        Seq::empty()
    }
}

/// The `n`th power of `base`.
pub open spec fn power(base: nat, n: nat) -> nat
    decreases n,
{
    if n == 0 {
        1
    } else {
        base * power(base, (n - 1) as nat)
    }
}

/// The value of a number, as a mantissa and the power of ten by which to divide it. Where it has
/// none, or where the value is out of bounds, the reason for the error.
pub open spec fn amount(number: Seq<char>) -> Result<(nat, nat), Seq<char>> {
    let scale = power(10, fraction(number).len());
    let mantissa = decimal_value(whole(number)) * scale + decimal_value(fraction(number));
    if number.len() == 0 || number == seq!['.'] || fraction(number).contains('.') {
        Err("expected a non-negative number with an optional unit"@)
    } else if scale > u128::MAX {
        Err("number has too many fractional digits"@)
    } else if decimal_value(whole(number)) > u128::MAX {
        Err("number too large to fit in target type"@)
    } else if mantissa > u128::MAX {
        Err("number is too large"@)
    } else {
        Ok((mantissa, scale))
    }
}

/// The lower case of an ASCII letter. Other characters stay as they are.
pub open spec fn ascii_lower(c: char) -> char {
    if 'A' <= c <= 'Z' {
        (c as u32 + 32) as char
    } else {
        c
    }
}

/// The unit ends in `bit`, whatever the case of the letters.
pub open spec fn ends_in_bit(unit: Seq<char>) -> bool {
    let n = unit.len();
    &&& n >= 3
    &&& ascii_lower(unit[n - 3]) == 'b'
    &&& ascii_lower(unit[n - 2]) == 'i'
    &&& ascii_lower(unit[n - 1]) == 't'
}

/// The prefix of a unit, and whether the unit counts bits: `bit` and `b` are for bits, `B` or
/// nothing for bytes.
pub open spec fn prefix_and_bits(unit: Seq<char>) -> (Seq<char>, bool) {
    let n = unit.len();
    if ends_in_bit(unit) {
        (unit.take(n - 3), true)
    } else if n >= 1 && unit.last() == 'B' {
        (unit.drop_last(), false)
    } else if n >= 1 && unit.last() == 'b' {
        (unit.drop_last(), true)
    } else {
        (unit, false)
    }
}

/// Which power of 1000 or 1024 a letter stands for, whatever its case.
pub open spec fn rank(letter: char) -> Option<nat> {
    match ascii_lower(letter) {
        'k' => Some(1),
        'm' => Some(2),
        'g' => Some(3),
        't' => Some(4),
        'p' => Some(5),
        'e' => Some(6),
        _ => None,
    }
}

/// The factor that a prefix stands for: a power of 1000, or of 1024 if an `i` follows the letter.
/// The case of the letters does not matter.
pub open spec fn multiplier(prefix: Seq<char>) -> Option<nat> {
    if prefix.len() == 0 {
        Some(1)
    } else if rank(prefix[0]) is Some && prefix.len() == 1 {
        Some(power(1000, rank(prefix[0])->0))
    } else if rank(prefix[0]) is Some && prefix.len() == 2 && ascii_lower(prefix[1]) == 'i' {
        Some(power(1024, rank(prefix[0])->0))
    } else {
        None
    }
}

/// The number of bytes that `src` stands for, rounded up. Where it does not stand for a number of
/// bytes, the reason for the error.
pub open spec fn byte_size(src: Seq<char>) -> Result<u64, Seq<char>> {
    let (prefix, bits) = prefix_and_bits(unit_text(src));
    match (amount(number_text(src)), multiplier(prefix)) {
        (Err(reason), _) => Err(reason),
        (Ok(_), None) => Err("unknown byte unit"@),
        (Ok((mantissa, scale)), Some(factor)) => {
            let numerator = mantissa * factor;
            let divisor = if bits {
                8 * scale
            } else {
                scale
            };
            let rounded = (numerator + divisor - 1) / divisor as int;
            if divisor > u128::MAX || numerator + divisor - 1 > u128::MAX {
                Err("byte size is too large"@)
            } else if rounded > u64::MAX {
                Err("out of range integral type conversion attempted"@)
            } else {
                Ok(rounded as u64)
            }
        },
    }
}

/// The number of bytes of a character in UTF-8.
pub open spec fn utf8_width(c: char) -> nat {
    if c <= '\u{7f}' {
        1
    } else if c <= '\u{7ff}' {
        2
    } else if c <= '\u{ffff}' {
        3
    } else {
        4
    }
}

/// The number of bytes of a text in UTF-8.
pub open spec fn utf8_length(s: Seq<char>) -> nat
    decreases s.len(),
{
    if s.len() == 0 {
        0
    } else {
        utf8_width(s[0]) + utf8_length(s.drop_first())
    }
}

/// Three bytes before the end of the text is the middle of a character.
pub open spec fn cuts_character(s: Seq<char>) -> bool {
    &&& utf8_length(s) > 3
    &&& forall|k: int| 0 <= k <= s.len() ==> utf8_length(#[trigger] s.skip(k)) != 3
}

/// Whether the end of the unit can be looked at: the last three bytes of it are whole characters.
/// Of a text without a valid number the unit does not matter.
pub open spec fn has_whole_suffix(src: Seq<char>) -> bool {
    amount(number_text(src)) is Ok ==> !cuts_character(unit_text(src))
}

/// Powers of ten grow with their exponent.
pub(crate) proof fn lemma_power_grows(m: nat, n: nat)
    requires
        m <= n,
    ensures
        1 <= power(10, m) <= power(10, n),
    decreases n,
{
    if m < n {
        lemma_power_grows(m, (n - 1) as nat);
    } else if n > 0 {
        lemma_power_grows((n - 1) as nat, (n - 1) as nat);
    }
}

/// A number of `n` digits is below the `n`th power of ten.
proof fn lemma_decimal_value_bound(s: Seq<char>)
    requires
        all_digits(s),
    ensures
        decimal_value(s) < power(10, s.len()),
    decreases s.len(),
{
    if s.len() > 0 {
        assert(is_digit(s[s.len() - 1]));
        assert(all_digits(s.drop_last())) by {
            assert forall|i: int| 0 <= i < s.drop_last().len() implies is_digit(
                #[trigger] s.drop_last()[i],
            ) by {
                assert(is_digit(s[i]));
            }
        }
        lemma_decimal_value_bound(s.drop_last());
    }
}

/// A power of ten. `None` if it does not fit.
fn power_of_ten(n: usize) -> (r: Option<u128>)
    ensures
        match r {
            Some(v) => v == power(10, n as nat),
            None => power(10, n as nat) > u128::MAX,
        },
{
    let mut value: u128 = 1;
    for i in 0..n
        invariant
            value == power(10, i as nat),
    {
        proof {
            lemma_power_grows((i + 1) as nat, n as nat);
        }
        value = match value.checked_mul(10) {
            Some(next) => next,
            None => return None,
        };
    }
    Some(value)
}

/// The lower case of an ASCII letter. Other characters stay as they are.
fn to_ascii_lower(c: char) -> (r: char)
    ensures
        r == ascii_lower(c),
{
    if 'A' <= c && c <= 'Z' {
        (c as u8 + 32) as char
    } else {
        c
    }
}

/// The factor that a prefix stands for.
fn parse_prefix(prefix: &[char]) -> (r: Option<u128>)
    ensures
        match r {
            Some(factor) => multiplier(prefix@) == Some(factor as nat),
            None => multiplier(prefix@) is None,
        },
{
    proof {
        reveal_with_fuel(power, 7);
    }
    if prefix.len() == 0 {
        return Some(1);
    }
    let letter: char = to_ascii_lower(prefix[0]);
    if prefix.len() == 1 {
        match letter {
            'k' => Some(1_000),
            'm' => Some(1_000_000),
            'g' => Some(1_000_000_000),
            't' => Some(1_000_000_000_000),
            'p' => Some(1_000_000_000_000_000),
            'e' => Some(1_000_000_000_000_000_000),
            _ => None,
        }
    } else if prefix.len() == 2 && to_ascii_lower(prefix[1]) == 'i' {
        match letter {
            'k' => Some(1_024),
            'm' => Some(1_048_576),
            'g' => Some(1_073_741_824),
            't' => Some(1_099_511_627_776),
            'p' => Some(1_125_899_906_842_624),
            'e' => Some(1_152_921_504_606_846_976),
            _ => None,
        }
    } else {
        None
    }
}

/// The prefix of a unit, and whether the unit counts bits.
fn split_unit(unit: &[char]) -> (r: (&[char], bool))
    ensures
        (r.0@, r.1) == prefix_and_bits(unit@),
{
    let n: usize = unit.len();
    if n >= 3 && to_ascii_lower(unit[n - 3]) == 'b' && to_ascii_lower(unit[n - 2]) == 'i'
        && to_ascii_lower(unit[n - 1]) == 't' {
        assert(unit@.subrange(0, n - 3) =~= unit@.take(n - 3));
        (slice_subrange(unit, 0, n - 3), true)
    } else if n >= 1 && unit[n - 1] == 'B' {
        assert(unit@.subrange(0, n - 1) =~= unit@.drop_last());
        (slice_subrange(unit, 0, n - 1), false)
    } else if n >= 1 && unit[n - 1] == 'b' {
        assert(unit@.subrange(0, n - 1) =~= unit@.drop_last());
        (slice_subrange(unit, 0, n - 1), true)
    } else {
        (unit, false)
    }
}

/// Where the first point of a number stands, or its length if there is none.
fn find_point(number: &[char]) -> (r: usize)
    ensures
        r == run_length(number@, |c: char| c != '.'),
        r <= number@.len(),
{
    let ghost p = |c: char| c != '.';
    let mut i: usize = 0;
    while i < number.len() && number[i] != '.'
        invariant
            i <= number.len(),
            p == |c: char| c != '.',
            forall|k: int| 0 <= k < i ==> p(#[trigger] number@[k]),
        decreases number.len() - i,
    {
        i += 1;
    }
    proof {
        lemma_run_length_is(number@, p, i as int);
    }
    i
}

/// Split a byte size into its number and its unit.
fn split_number(value: &[char]) -> (r: (&[char], &[char]))
    ensures
        r.0@ == value@.take(run_length(value@, |c: char| in_number(c)) as int),
        r.1@ == trimmed(value@.skip(run_length(value@, |c: char| in_number(c)) as int)),
{
    let ghost p = |c: char| in_number(c);
    let mut i: usize = 0;
    while i < value.len() && (digit(value[i]) || value[i] == '.')
        invariant
            i <= value.len(),
            p == |c: char| in_number(c),
            forall|k: int| 0 <= k < i ==> p(#[trigger] value@[k]),
        decreases value.len() - i,
    {
        i += 1;
    }
    proof {
        lemma_run_length_is(value@, p, i as int);
        assert(value@.subrange(0, i as int) =~= value@.take(i as int));
        assert(value@.subrange(i as int, value@.len() as int) =~= value@.skip(i as int));
    }
    (slice_subrange(value, 0, i), trim(slice_subrange(value, i, value.len())))
}

/// The value of a number, as a mantissa and the power of ten by which to divide it.
fn parse_amount(number: &[char]) -> (r: Result<(u128, u128), String>)
    requires
        forall|i: int| 0 <= i < number@.len() ==> in_number(#[trigger] number@[i]),
    ensures
        match r {
            Ok((mantissa, scale)) => amount(number@) == Ok::<(nat, nat), Seq<char>>(
                (mantissa as nat, scale as nat),
            ),
            Err(reason) => amount(number@) == Err::<(nat, nat), Seq<char>>(reason@),
        },
{
    let point: usize = find_point(number);
    let whole_digits: &[char] = slice_subrange(number, 0, point);
    let fraction_digits: &[char] = if point < number.len() {
        slice_subrange(number, point + 1, number.len())
    } else {
        slice_subrange(number, point, point)
    };
    proof {
        lemma_run_length(number@, |c: char| c != '.');
        assert(whole_digits@ =~= whole(number@));
        assert(fraction_digits@ =~= fraction(number@));
        if number@.len() == 1 && number@[0] == '.' {
            assert(number@ =~= seq!['.']);
        }
    }
    let second_point: usize = find_point(fraction_digits);
    proof {
        lemma_run_length(fraction_digits@, |c: char| c != '.');
        assert(second_point < fraction_digits@.len() <==> fraction(number@).contains('.'));
    }
    if number.len() == 0 || (number.len() == 1 && point == 0) || second_point
        < fraction_digits.len() {
        return Err("expected a non-negative number with an optional unit".to_owned());
    }
    proof {
        assert forall|i: int| 0 <= i < whole_digits@.len() implies is_digit(
            #[trigger] whole_digits@[i],
        ) by {
            assert(in_number(number@[i]));
        }
        assert forall|i: int| 0 <= i < fraction_digits@.len() implies is_digit(
            #[trigger] fraction_digits@[i],
        ) by {
            assert(in_number(number@[point + 1 + i]));
        }
        lemma_decimal_value_bound(fraction_digits@);
    }
    let scale: u128 = match power_of_ten(fraction_digits.len()) {
        Some(scale) => scale,
        None => return Err("number has too many fractional digits".to_owned()),
    };
    let whole_value: u128 = match parse_digits(whole_digits) {
        Some(value) => value,
        None => return Err("number too large to fit in target type".to_owned()),
    };
    let fraction_value: u128 = match parse_digits(fraction_digits) {
        Some(value) => value,
        None => return Err("number too large to fit in target type".to_owned()),
    };
    match whole_value.checked_mul(scale) {
        Some(scaled) => match scaled.checked_add(fraction_value) {
            Some(mantissa) => Ok((mantissa, scale)),
            None => Err("number is too large".to_owned()),
        },
        None => Err("number is too large".to_owned()),
    }
}

/// Read a byte size: a number, with or without a point and decimals, and a unit behind it.
///
/// Without a unit the number counts bytes. The unit `B` counts bytes as well, `b` and `bit` count
/// bits. In front of it stand a letter for a power of 1000, or that letter and an `i` for a power
/// of 1024. What does not make up whole bytes is rounded up.
pub fn parse_bytes_with_unit(src: &str) -> (r: Result<u64, ConfigError>)
    requires
        has_whole_suffix(src@),
    ensures
        match r {
            Ok(size) => byte_size(src@) == Ok::<u64, Seq<char>>(size),
            Err(error) => byte_size(src@) is Err && error.is_invalid_number(
                src@,
                byte_size(src@)->Err_0,
            ),
        },
{
    match read_bytes_with_unit(src) {
        Ok(size) => Ok(size),
        Err(reason) => Err(ConfigError::InvalidNumber { invalid: src.to_owned(), reason }),
    }
}

/// Read a byte size. The error is the reason why there is none.
fn read_bytes_with_unit(src: &str) -> (r: Result<u64, String>)
    ensures
        match r {
            Ok(size) => byte_size(src@) == Ok::<u64, Seq<char>>(size),
            Err(reason) => byte_size(src@) == Err::<u64, Seq<char>>(reason@),
        },
{
    let chars: Vec<char> = chars_of(src);
    let value: &[char] = trim(chars.as_slice());
    let (number, unit): (&[char], &[char]) = split_number(value);
    proof {
        lemma_run_length(value@, |c: char| in_number(c));
    }
    let (mantissa, scale): (u128, u128) = parse_amount(number)?;
    let (prefix, bits): (&[char], bool) = split_unit(unit);
    let factor: u128 = match parse_prefix(prefix) {
        Some(factor) => factor,
        None => return Err("unknown byte unit".to_owned()),
    };
    proof {
        lemma_power_grows(0, fraction(number@).len());
    }
    let numerator: u128 = match mantissa.checked_mul(factor) {
        Some(numerator) => numerator,
        None => return Err("byte size is too large".to_owned()),
    };
    let divisor: u128 = if bits {
        match scale.checked_mul(8) {
            Some(divisor) => divisor,
            None => return Err("byte size is too large".to_owned()),
        }
    } else {
        scale
    };
    let rounded: u128 = match numerator.checked_add(divisor - 1) {
        Some(sum) => sum / divisor,
        None => return Err("byte size is too large".to_owned()),
    };
    if rounded > 0xffff_ffff_ffff_ffff {
        return Err("out of range integral type conversion attempted".to_owned());
    }
    Ok(rounded as u64)
}

/// A shorter end of a text takes fewer bytes.
proof fn lemma_utf8_length_of_end(s: Seq<char>, j: int, k: int)
    requires
        0 <= j < k <= s.len(),
    ensures
        utf8_length(s.skip(j)) > utf8_length(s.skip(k)),
    decreases k - j,
{
    assert(s.skip(j).drop_first() =~= s.skip(j + 1));
    if j + 1 < k {
        lemma_utf8_length_of_end(s, j + 1, k);
    }
}

/// Whether three bytes before the end of the text is the middle of a character.
fn is_cut(s: &[char]) -> (r: bool)
    ensures
        r == cuts_character(s@),
{
    let mut from: usize = s.len();
    let mut length: usize = 0;
    assert(s@.skip(s@.len() as int) =~= seq![]);
    while from > 0 && length < 3
        invariant
            from <= s.len(),
            length <= 6,
            length == utf8_length(s@.skip(from as int)),
            forall|k: int| from < k <= s.len() ==> utf8_length(#[trigger] s@.skip(k)) < 3,
        decreases from,
    {
        from -= 1;
        let c: char = s[from];
        assert(s@.skip(from as int).drop_first() =~= s@.skip(from + 1));
        length = length + (if c <= '\u{7f}' {
            1
        } else if c <= '\u{7ff}' {
            2
        } else if c <= '\u{ffff}' {
            3
        } else {
            4
        });
    }
    proof {
        assert(s@.skip(0) =~= s@);
        if length > 3 {
            assert forall|k: int| 0 <= k <= s.len() implies utf8_length(#[trigger] s@.skip(k))
                != 3 by {
                if k < from {
                    lemma_utf8_length_of_end(s@, k, from as int);
                }
            }
            if from > 0 {
                lemma_utf8_length_of_end(s@, 0, from as int);
            }
        } else {
            assert(utf8_length(s@.skip(from as int)) == length);
        }
    }
    length > 3
}

/// Whether `parse_bytes_with_unit` can read `src`. It cannot if the text has a valid number, and
/// three bytes before the end of the unit is the middle of a character.
pub fn can_read_unit(src: &str) -> (r: bool)
    ensures
        r == has_whole_suffix(src@),
{
    let chars: Vec<char> = chars_of(src);
    let value: &[char] = trim(chars.as_slice());
    let (number, unit): (&[char], &[char]) = split_number(value);
    proof {
        lemma_run_length(value@, |c: char| in_number(c));
    }
    match parse_amount(number) {
        Ok(_) => !is_cut(unit),
        Err(_) => true,
    }
}

} // verus!
