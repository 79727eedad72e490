//! Reading white space and decimal numbers.

use vstd::prelude::*;
use vstd::slice::slice_subrange;

verus! {

/// The length of the longest prefix of `s` of which all characters satisfy `p`.
pub open spec fn run_length(s: Seq<char>, p: spec_fn(char) -> bool) -> nat
    decreases s.len(),
{
    if s.len() > 0 && p(s[0]) {
        1 + run_length(s.drop_first(), p)
    } else {
        0
    }
}

/// Whether Unicode counts `c` as white space.
pub open spec fn is_white_space(c: char) -> bool {
    ||| '\u{9}' <= c <= '\u{d}'
    ||| c == ' '
    ||| c == '\u{85}'
    ||| c == '\u{a0}'
    ||| c == '\u{1680}'
    ||| '\u{2000}' <= c <= '\u{200a}'
    ||| c == '\u{2028}'
    ||| c == '\u{2029}'
    ||| c == '\u{202f}'
    ||| c == '\u{205f}'
    ||| c == '\u{3000}'
}

/// `s` without the white space at its start and at its end.
pub open spec fn trimmed(s: Seq<char>) -> Seq<char> {
    let rest = s.skip(run_length(s, |c: char| is_white_space(c)) as int);
    rest.take(rest.len() - run_length(rest.reverse(), |c: char| is_white_space(c)))
}

/// A decimal digit.
pub open spec fn is_digit(c: char) -> bool {
    '0' <= c <= '9'
}

/// The characters are decimal digits.
pub open spec fn all_digits(s: Seq<char>) -> bool {
    forall|i: int| 0 <= i < s.len() ==> is_digit(#[trigger] s[i])
}

/// The number that a sequence of decimal digits stands for.
pub open spec fn decimal_value(s: Seq<char>) -> nat
    decreases s.len(),
{
    if s.len() == 0 {
        0
    } else {
        10 * decimal_value(s.drop_last()) + (s.last() as nat - '0' as nat) as nat
    }
}

/// The decimal digits of a number.
pub open spec fn decimal(n: nat) -> Seq<char>
    decreases n,
{
    let last = (n % 10 + '0' as nat) as char;
    if n < 10 {
        seq![last]
    } else {
        decimal(n / 10).push(last)
    }
}

/// The number in `s`: decimal digits, with or without a plus sign in front. Where it does not hold
/// such a number, the reason that is given for the first fault from the left.
pub open spec fn unsigned(s: Seq<char>) -> Result<u64, Seq<char>> {
    let digits = if s.len() > 1 && s[0] == '+' {
        s.drop_first()
    } else {
        s
    };
    let n = run_length(digits, |c: char| is_digit(c)) as int;
    let value = decimal_value(digits.take(n));
    if s.len() == 0 {
        Err("cannot parse integer from empty string"@)
    } else if value > u64::MAX {
        Err("number too large to fit in target type"@)
    } else if n < digits.len() {
        Err("invalid digit found in string"@)
    } else {
        Ok(value as u64)
    }
}

/// The length of the longest prefix is where the first character that does not satisfy `p` stands.
pub(crate) proof fn lemma_run_length(s: Seq<char>, p: spec_fn(char) -> bool)
    ensures
        run_length(s, p) <= s.len(),
        forall|i: int| 0 <= i < run_length(s, p) ==> p(#[trigger] s[i]),
        run_length(s, p) < s.len() ==> !p(s[run_length(s, p) as int]),
    decreases s.len(),
{
    if s.len() > 0 && p(s[0]) {
        let rest = s.drop_first();
        lemma_run_length(rest, p);
        assert forall|i: int| 0 <= i < run_length(s, p) implies p(#[trigger] s[i]) by {
            if i > 0 {
                assert(p(rest[i - 1]));
            }
        }
    }
}

/// Where all characters before `n` satisfy `p` and the one at `n`, if any, does not, the longest
/// prefix is of length `n`.
pub(crate) proof fn lemma_run_length_is(s: Seq<char>, p: spec_fn(char) -> bool, n: int)
    requires
        0 <= n <= s.len(),
        forall|i: int| 0 <= i < n ==> p(#[trigger] s[i]),
        n < s.len() ==> !p(s[n]),
    ensures
        run_length(s, p) == n,
{
    lemma_run_length(s, p);
    let m = run_length(s, p) as int;
    if m < n {
        assert(p(s[m]));
    }
}

/// More digits do not make a number smaller.
pub(crate) proof fn lemma_decimal_value_grows(s: Seq<char>, n: int)
    requires
        0 <= n <= s.len(),
    ensures
        decimal_value(s.take(n)) <= decimal_value(s),
    decreases s.len(),
{
    if n == s.len() {
        assert(s.take(n) =~= s);
    } else {
        lemma_decimal_value_grows(s.drop_last(), n);
        assert(s.drop_last().take(n) =~= s.take(n));
    }
}

/// The decimal digits of a number stand for that number.
pub(crate) proof fn lemma_decimal(n: nat)
    ensures
        decimal(n).len() > 0,
        all_digits(decimal(n)),
        decimal_value(decimal(n)) == n,
    decreases n,
{
    let last = (n % 10 + '0' as nat) as char;
    assert(is_digit(last) && last as nat - '0' as nat == n % 10);
    if n < 10 {
        assert(decimal(n).drop_last() =~= seq![]);
        reveal_with_fuel(decimal_value, 2);
    } else {
        lemma_decimal(n / 10);
        assert(decimal(n).drop_last() =~= decimal(n / 10));
        assert forall|i: int| 0 <= i < decimal(n).len() implies is_digit(
            #[trigger] decimal(n)[i],
        ) by {
            if i < decimal(n / 10).len() {
                assert(is_digit(decimal(n / 10)[i]));
            }
        }
    }
}

/// A text of digits is a number, if that fits.
pub(crate) proof fn lemma_unsigned_of_digits(s: Seq<char>)
    requires
        s.len() > 0,
        all_digits(s),
        decimal_value(s) <= u64::MAX,
    ensures
        unsigned(s) == Ok::<u64, Seq<char>>(decimal_value(s) as u64),
{
    let p = |c: char| is_digit(c);
    assert(is_digit(s[0]));
    assert forall|i: int| 0 <= i < s.len() implies p(#[trigger] s[i]) by {
        assert(is_digit(s[i]));
    }
    lemma_run_length_is(s, p, s.len() as int);
    assert(s.take(s.len() as int) =~= s);
}

/// How digits make up a number: nothing is 0, and each further digit makes ten times the number,
/// plus the digit.
pub proof fn law_digits_make_up_number(digits: Seq<char>, last: char)
    requires
        '0' <= last <= '9',
    ensures
        decimal_value(Seq::<char>::empty()) == 0,
        decimal_value(digits.push(last)) == 10 * decimal_value(digits) + (last as nat - '0' as nat),
{
    assert(digits.push(last).drop_last() =~= digits);
}

/// A number in a text: digits, of which `rest` does not start with another one, behind a plus sign
/// or not. A single plus sign has no number behind it and is part of `rest`.
pub open spec fn is_number_text(s: Seq<char>, plus: bool, digits: Seq<char>, rest: Seq<char>) -> bool {
    &&& s == (if plus {
        seq!['+']
    } else {
        seq![]
    }) + digits + rest
    &&& forall|i: int| 0 <= i < digits.len() ==> '0' <= (#[trigger] digits[i]) <= '9'
    &&& rest.len() > 0 ==> !('0' <= rest[0] <= '9')
    &&& plus ==> digits.len() + rest.len() > 0
    &&& !plus && digits.len() == 0 && rest.len() > 1 ==> rest[0] != '+'
}

/// What is read from a text that is split like that.
pub(crate) proof fn lemma_unsigned_of(s: Seq<char>, plus: bool, digits: Seq<char>, rest: Seq<char>)
    requires
        is_number_text(s, plus, digits, rest),
    ensures
        unsigned(s) == (if s.len() == 0 {
            Err::<u64, Seq<char>>("cannot parse integer from empty string"@)
        } else if decimal_value(digits) > u64::MAX {
            Err("number too large to fit in target type"@)
        } else if rest.len() > 0 {
            Err("invalid digit found in string"@)
        } else {
            Ok(decimal_value(digits) as u64)
        }),
{
    let body = digits + rest;
    if plus {
        assert(s.drop_first() =~= body);
        assert(s[0] == '+');
    } else {
        assert(s =~= body);
        if s.len() > 1 {
            if digits.len() > 0 {
                assert(s[0] == digits[0]);
            } else {
                assert(s[0] == rest[0]);
            }
        }
    }
    let p = |c: char| is_digit(c);
    assert forall|i: int| 0 <= i < digits.len() implies p(#[trigger] body[i]) by {
        assert(body[i] == digits[i]);
    }
    lemma_run_length_is(body, p, digits.len() as int);
    assert(body.take(digits.len() as int) =~= digits);
}

/// The characters of a string.
pub(crate) fn chars_of(s: &str) -> (r: Vec<char>)
    ensures
        r@ == s@,
{
    let mut chars: Vec<char> = Vec::new();
    for c in iter: s.chars()
        invariant
            iter.seq() == s@,
            chars@ == s@.take(iter.index() as int),
    {
        chars.push(c);
    }
    assert(s@.take(s@.len() as int) =~= s@);
    chars
}

/// Whether two sequences of characters are the same.
pub(crate) fn same_chars(a: &[char], b: &[char]) -> (r: bool)
    ensures
        r == (a@ == b@),
{
    if a.len() != b.len() {
        return false;
    }
    for i in 0..a.len()
        invariant
            a@.len() == b@.len(),
            forall|k: int| 0 <= k < i ==> a@[k] == b@[k],
    {
        if a[i] != b[i] {
            return false;
        }
    }
    assert(a@ =~= b@);
    true
}

/// Whether Unicode counts `c` as white space.
pub(crate) fn white_space(c: char) -> (r: bool)
    ensures
        r == is_white_space(c),
{
    ('\u{9}' <= c && c <= '\u{d}') || c == ' ' || c == '\u{85}' || c == '\u{a0}' || c == '\u{1680}'
        || ('\u{2000}' <= c && c <= '\u{200a}') || c == '\u{2028}' || c == '\u{2029}' || c
        == '\u{202f}' || c == '\u{205f}' || c == '\u{3000}'
}

/// Whether `c` is a decimal digit.
pub(crate) fn digit(c: char) -> (r: bool)
    ensures
        r == is_digit(c),
{
    '0' <= c && c <= '9'
}

/// Remove the white space at the start and at the end.
pub(crate) fn trim(s: &[char]) -> (r: &[char])
    ensures
        r@ == trimmed(s@),
{
    let ghost p = |c: char| is_white_space(c);
    let mut from: usize = 0;
    while from < s.len() && white_space(s[from])
        invariant
            from <= s.len(),
            p == |c: char| is_white_space(c),
            forall|i: int| 0 <= i < from ==> p(#[trigger] s@[i]),
        decreases s.len() - from,
    {
        from += 1;
    }
    proof {
        lemma_run_length_is(s@, p, from as int);
    }
    let ghost rest = s@.skip(from as int);
    let mut to: usize = s.len();
    while to > from && white_space(s[to - 1])
        invariant
            from <= to <= s.len(),
            p == |c: char| is_white_space(c),
            rest == s@.skip(from as int),
            forall|i: int| 0 <= i < s.len() - to ==> p(#[trigger] rest.reverse()[i]),
        decreases to,
    {
        assert(rest.reverse()[s.len() - to] == s@[to - 1]);
        to -= 1;
    }
    proof {
        if to > from {
            assert(rest.reverse()[s.len() - to] == s@[to - 1]);
        }
        lemma_run_length_is(rest.reverse(), p, s.len() - to);
        assert(s@.subrange(from as int, to as int) =~= rest.take(to - from));
    }
    slice_subrange(s, from, to)
}

/// Read a decimal number. `None` if it does not fit.
pub(crate) fn parse_digits(s: &[char]) -> (r: Option<u128>)
    requires
        all_digits(s@),
    ensures
        match r {
            Some(v) => v == decimal_value(s@),
            None => decimal_value(s@) > u128::MAX,
        },
{
    let mut value: u128 = 0;
    for i in 0..s.len()
        invariant
            all_digits(s@),
            value == decimal_value(s@.take(i as int)),
    {
        assert(is_digit(s@[i as int]));
        let d: u128 = (s[i] as u32 - '0' as u32) as u128;
        proof {
            assert(s@.take(i + 1).drop_last() =~= s@.take(i as int));
            lemma_decimal_value_grows(s@, i + 1);
        }
        value = match value.checked_mul(10) {
            Some(tens) => match tens.checked_add(d) {
                Some(sum) => sum,
                None => return None,
            },
            None => return None,
        };
    }
    assert(s@.take(s@.len() as int) =~= s@);
    Some(value)
}

/// Read an unsigned number: decimal digits, with or without a plus sign in front. The error is the
/// reason why there is no such number.
pub(crate) fn parse_unsigned(s: &[char]) -> (r: Result<u64, String>)
    ensures
        match r {
            Ok(value) => unsigned(s@) == Ok::<u64, Seq<char>>(value),
            Err(reason) => unsigned(s@) == Err::<u64, Seq<char>>(reason@),
        },
{
    if s.len() == 0 {
        return Err("cannot parse integer from empty string".to_owned());
    }
    let digits: &[char] = if s.len() > 1 && s[0] == '+' {
        assert(s@.subrange(1, s@.len() as int) =~= s@.drop_first());
        slice_subrange(s, 1, s.len())
    } else {
        s
    };
    let ghost p = |c: char| is_digit(c);
    let mut n: usize = 0;
    while n < digits.len() && digit(digits[n])
        invariant
            n <= digits.len(),
            p == |c: char| is_digit(c),
            forall|i: int| 0 <= i < n ==> p(#[trigger] digits@[i]),
        decreases digits.len() - n,
    {
        n += 1;
    }
    proof {
        lemma_run_length_is(digits@, p, n as int);
        assert(all_digits(digits@.take(n as int))) by {
            assert forall|i: int| 0 <= i < n implies is_digit(#[trigger] digits@.take(n as int)[i]) by {
                assert(p(digits@[i]));
            }
        }
        assert(digits@.subrange(0, n as int) =~= digits@.take(n as int));
    }
    match parse_digits(slice_subrange(digits, 0, n)) {
        Some(value) if value <= 0xffff_ffff_ffff_ffff => {
            if n < digits.len() {
                Err("invalid digit found in string".to_owned())
            } else {
                Ok(value as u64)
            }
        },
        _ => Err("number too large to fit in target type".to_owned()),
    }
}

} // verus!
