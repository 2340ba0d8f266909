//! The grammar of numeric literals: which texts denote a 64-bit signed
//! integer, and which follow the syntax of a decimal floating-point number.

use vstd::prelude::*;
use crate::lexer::is_digit;
use crate::text::{decimal, decimal_digits, digit_char};

verus! {

pub open spec fn is_sign(c: char) -> bool {
    c == '+' || c == '-'
}

/// The number that a decimal digit stands for.
pub open spec fn digit_value(c: char) -> int {
    c as int - '0' as int
}

/// The number written by a sequence of decimal digits; zero for none.
pub open spec fn digits_value(s: Seq<char>) -> int
    decreases s.len(),
{
    if s.len() == 0 {
        0
    } else {
        digits_value(s.drop_last()) * 10 + digit_value(s.last())
    }
}

/// Every character from `from` on is a decimal digit.
pub open spec fn digits_from(s: Seq<char>, from: int) -> bool {
    forall|k: int| from <= k < s.len() ==> is_digit(#[trigger] s[k])
}

/// Where the digits that begin at `from` end: the first position at or
/// after `from` that holds no digit.
pub open spec fn digit_run(s: Seq<char>, from: int) -> int
    decreases s.len() - from,
{
    if 0 <= from < s.len() && is_digit(s[from]) {
        digit_run(s, from + 1)
    } else {
        from
    }
}

/// How many characters a leading sign takes: one or none.
pub open spec fn sign_len(s: Seq<char>) -> int {
    if s.len() > 0 && is_sign(s[0]) {
        1
    } else {
        0
    }
}

/// The integer that `s` writes: an optional sign, then one or more decimal
/// digits and nothing else.
pub open spec fn integer_text_value(s: Seq<char>) -> Option<int> {
    let start = sign_len(s);
    if start < s.len() && digits_from(s, start) {
        let magnitude = digits_value(s.skip(start));
        Some(
            if s[0] == '-' {
                -magnitude
            } else {
                magnitude
            },
        )
    } else {
        None
    }
}

/// The 64-bit signed integer that `s` writes, if it writes an integer and
/// that integer fits.
pub open spec fn i64_text_value(s: Seq<char>) -> Option<i64> {
    match integer_text_value(s) {
        Some(v) => if i64::MIN <= v <= i64::MAX {
            Some(v as i64)
        } else {
            None
        },
        None => None,
    }
}

/// `c` is the letter given in its two cases.
pub open spec fn is_letter_of(c: char, lower: char, upper: char) -> bool {
    c == lower || c == upper
}

/// From `from` on, `s` spells `inf`, `infinity` or `nan`, in any mix of
/// cases.
pub open spec fn is_special_float_at(s: Seq<char>, from: int) -> bool {
    let n = s.len() - from;
    ||| (n == 3 && is_letter_of(s[from], 'i', 'I') && is_letter_of(s[from + 1], 'n', 'N')
        && is_letter_of(s[from + 2], 'f', 'F'))
    ||| (n == 3 && is_letter_of(s[from], 'n', 'N') && is_letter_of(s[from + 1], 'a', 'A')
        && is_letter_of(s[from + 2], 'n', 'N'))
    ||| (n == 8 && is_letter_of(s[from], 'i', 'I') && is_letter_of(s[from + 1], 'n', 'N')
        && is_letter_of(s[from + 2], 'f', 'F') && is_letter_of(s[from + 3], 'i', 'I')
        && is_letter_of(s[from + 4], 'n', 'N') && is_letter_of(s[from + 5], 'i', 'I')
        && is_letter_of(s[from + 6], 't', 'T') && is_letter_of(s[from + 7], 'y', 'Y'))
}

/// From `from` on, `s` is an exponent: `e` or `E`, an optional sign, then
/// one or more digits up to the end.
pub open spec fn is_exponent_at(s: Seq<char>, from: int) -> bool {
    &&& from + 1 < s.len()
    &&& (s[from] == 'e' || s[from] == 'E')
    &&& ({
        let digits = if is_sign(s[from + 1]) {
            from + 2
        } else {
            from + 1
        };
        digits < s.len() && digit_run(s, digits) == s.len()
    })
}

/// From `from` on, `s` is a decimal number: digits, optionally a point and
/// more digits, with at least one digit on either side of the point, then
/// optionally an exponent.
pub open spec fn is_decimal_float_at(s: Seq<char>, from: int) -> bool {
    let int_end = digit_run(s, from);
    let frac_start = if int_end < s.len() && s[int_end] == '.' {
        int_end + 1
    } else {
        int_end
    };
    let frac_end = digit_run(s, frac_start);
    &&& (int_end - from) + (frac_end - frac_start) > 0
    &&& (frac_end == s.len() || is_exponent_at(s, frac_end))
}

/// `s` follows the syntax of a floating-point literal: an optional sign,
/// then `inf`, `infinity`, `nan` or a decimal number.
pub open spec fn is_float_text(s: Seq<char>) -> bool {
    let from = sign_len(s);
    from < s.len() && (is_special_float_at(s, from) || is_decimal_float_at(s, from))
}

/// The characters of `s`, in a vector.
pub fn chars_of(s: &str) -> (v: Vec<char>)
    ensures
        v@ == s@,
{
    let mut v: Vec<char> = Vec::new();
    for c in it: s.chars()
        invariant
            it.seq() == s@,
            v@ == s@.take(it.index() as int),
    {
        assert(s@.take(it.index() + 1) =~= s@.take(it.index() as int).push(c));
        v.push(c);
    }
    assert(s@.take(s@.len() as int) =~= s@);
    v
}

fn char_is_digit(c: char) -> (r: bool)
    ensures
        r == is_digit(c),
{
    '0' <= c && c <= '9'
}

fn char_is_sign(c: char) -> (r: bool)
    ensures
        r == is_sign(c),
{
    c == '+' || c == '-'
}

fn char_is_letter_of(c: char, lower: char, upper: char) -> (r: bool)
    ensures
        r == is_letter_of(c, lower, upper),
{
    c == lower || c == upper
}

/// A longer run of digits writes no smaller a number than any of its
/// prefixes.
pub proof fn lemma_digits_value_prefix(s: Seq<char>, n: int)
    requires
        0 <= n <= s.len(),
        digits_from(s, 0),
    ensures
        0 <= digits_value(s.take(n)) <= digits_value(s),
    decreases s.len(),
{
    if n == s.len() {
        assert(s.take(n) =~= s);
        if s.len() > 0 {
            assert(is_digit(s[s.len() - 1]));
            assert(digits_from(s.drop_last(), 0)) by {
                assert forall|k: int| 0 <= k < s.drop_last().len() implies is_digit(
                    #[trigger] s.drop_last()[k],
                ) by {
                    assert(is_digit(s[k]));
                }
            }
            lemma_digits_value_prefix(s.drop_last(), n - 1);
        }
    } else {
        assert(is_digit(s[s.len() - 1]));
        assert(digits_from(s.drop_last(), 0)) by {
            assert forall|k: int| 0 <= k < s.drop_last().len() implies is_digit(
                #[trigger] s.drop_last()[k],
            ) by {
                assert(is_digit(s[k]));
            }
        }
        assert(s.drop_last().take(n) =~= s.take(n));
        lemma_digits_value_prefix(s.drop_last(), n);
    }
}

/// Reads `s` as a 64-bit signed integer: an optional sign and decimal
/// digits, nothing else, and no overflow.
pub fn parse_i64(s: &str) -> (r: Option<i64>)
    ensures
        r == i64_text_value(s@),
{
    let v = chars_of(s);
    let n = v.len();
    if n == 0 {
        return None;
    }
    let negative = v[0] == '-';
    let start: usize = if char_is_sign(v[0]) {
        1
    } else {
        0
    };
    if start == n {
        return None;
    }
    let ghost body = s@.skip(start as int);
    let mut acc: u64 = 0;
    let mut i: usize = start;
    while i < n
        invariant
            start <= i <= n,
            n == v.len(),
            v@ == s@,
            start as int == sign_len(s@),
            body == s@.skip(start as int),
            forall|k: int| start <= k < i ==> is_digit(#[trigger] s@[k]),
            acc as int == digits_value(body.take(i - start)),
            acc <= 0x8000_0000_0000_0000,
        decreases n - i,
    {
        let c = v[i];
        if !char_is_digit(c) {
            return None;
        }
        let d: u64 = (c as u32 - '0' as u32) as u64;
        let next: u128 = acc as u128 * 10 + d as u128;
        assert(body.take(i + 1 - start).drop_last() =~= body.take(i - start));
        assert(body.take(i + 1 - start).last() == c);
        if next > 0x8000_0000_0000_0000 {
            proof {
                if digits_from(s@, start as int) {
                    assert(digits_from(body, 0)) by {
                        assert forall|k: int| 0 <= k < body.len() implies is_digit(
                            #[trigger] body[k],
                        ) by {
                            assert(is_digit(s@[k + start]));
                        }
                    }
                    lemma_digits_value_prefix(body, i + 1 - start);
                }
            }
            return None;
        }
        acc = next as u64;
        i += 1;
    }
    assert(body.take(n - start) =~= body);
    if negative {
        if acc == 0x8000_0000_0000_0000 {
            Some(i64::MIN)
        } else {
            Some(-(acc as i64))
        }
    } else {
        if acc == 0x8000_0000_0000_0000 {
            None
        } else {
            Some(acc as i64)
        }
    }
}

fn skip_digits(v: &Vec<char>, from: usize) -> (end: usize)
    requires
        from <= v.len(),
    ensures
        from <= end <= v.len(),
        end as int == digit_run(v@, from as int),
    decreases v.len() - from,
{
    if from < v.len() && char_is_digit(v[from]) {
        skip_digits(v, from + 1)
    } else {
        from
    }
}

fn special_float_at(v: &Vec<char>, from: usize) -> (r: bool)
    requires
        from <= v.len(),
    ensures
        r == is_special_float_at(v@, from as int),
{
    let n = v.len() - from;
    if n == 3 {
        (char_is_letter_of(v[from], 'i', 'I') && char_is_letter_of(v[from + 1], 'n', 'N')
            && char_is_letter_of(v[from + 2], 'f', 'F')) || (char_is_letter_of(v[from], 'n', 'N')
            && char_is_letter_of(v[from + 1], 'a', 'A') && char_is_letter_of(
            v[from + 2],
            'n',
            'N',
        ))
    } else if n == 8 {
        char_is_letter_of(v[from], 'i', 'I') && char_is_letter_of(v[from + 1], 'n', 'N')
            && char_is_letter_of(v[from + 2], 'f', 'F') && char_is_letter_of(v[from + 3], 'i', 'I')
            && char_is_letter_of(v[from + 4], 'n', 'N') && char_is_letter_of(v[from + 5], 'i', 'I')
            && char_is_letter_of(v[from + 6], 't', 'T') && char_is_letter_of(v[from + 7], 'y', 'Y')
    } else {
        false
    }
}

fn exponent_at(v: &Vec<char>, from: usize) -> (r: bool)
    requires
        from <= v.len(),
    ensures
        r == is_exponent_at(v@, from as int),
{
    let n = v.len();
    if n - from < 2 {
        return false;
    }
    if !(v[from] == 'e' || v[from] == 'E') {
        return false;
    }
    let digits: usize = if char_is_sign(v[from + 1]) {
        from + 2
    } else {
        from + 1
    };
    digits < n && skip_digits(v, digits) == n
}

fn decimal_float_at(v: &Vec<char>, from: usize) -> (r: bool)
    requires
        from <= v.len(),
    ensures
        r == is_decimal_float_at(v@, from as int),
{
    let n = v.len();
    let int_end = skip_digits(v, from);
    let frac_start: usize = if int_end < n && v[int_end] == '.' {
        int_end + 1
    } else {
        int_end
    };
    let frac_end = skip_digits(v, frac_start);
    if (int_end - from) + (frac_end - frac_start) == 0 {
        return false;
    }
    frac_end == n || exponent_at(v, frac_end)
}

/// Whether `s` follows the syntax of a floating-point literal.
pub fn is_float_literal(s: &str) -> (r: bool)
    ensures
        r == is_float_text(s@),
{
    let v = chars_of(s);
    let n = v.len();
    if n == 0 {
        return false;
    }
    let from: usize = if char_is_sign(v[0]) {
        1
    } else {
        0
    };
    from < n && (special_float_at(&v, from) || decimal_float_at(&v, from))
}

/// The decimal digits of a number are digits, and write that number.
pub proof fn lemma_decimal_digits_value(n: nat)
    ensures
        decimal_digits(n).len() > 0,
        digits_from(decimal_digits(n), 0),
        digits_value(decimal_digits(n)) == n,
    decreases n,
{
    if n < 10 {
        let s = decimal_digits(n);
        assert(s.drop_last() =~= Seq::<char>::empty());
        assert(digits_value(s.drop_last()) == 0);
    } else {
        lemma_decimal_digits_value(n / 10);
        let s = decimal_digits(n);
        let head = decimal_digits(n / 10);
        assert(s.drop_last() =~= head);
        assert(s.last() == digit_char((n % 10) as int));
        assert forall|k: int| 0 <= k < s.len() implies is_digit(#[trigger] s[k]) by {
            if k < head.len() {
                assert(s[k] == head[k]);
            }
        }
    }
}

/// Reading the decimal rendering of an integer gives the integer back.
pub proof fn lemma_integer_text_round_trip(i: int)
    ensures
        integer_text_value(decimal(i)) == Some(i),
{
    if i < 0 {
        let digits = decimal_digits((-i) as nat);
        lemma_decimal_digits_value((-i) as nat);
        let s = decimal(i);
        assert(s.skip(1) =~= digits);
        assert forall|k: int| 1 <= k < s.len() implies is_digit(#[trigger] s[k]) by {
            assert(s[k] == digits[k - 1]);
        }
    } else {
        lemma_decimal_digits_value(i as nat);
        let s = decimal(i);
        assert(is_digit(s[0]));
        assert(s.skip(0) =~= s);
    }
}

} // verus!
