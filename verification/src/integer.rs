//! Integer fields: an optional sign and decimal digits.

use vstd::prelude::*;
use vstd::slice::slice_subrange;
use crate::text::{char_is_digit, is_digit, is_sign, trim, trim_slice};

verus! {

/// The number that a decimal digit stands for.
pub open spec fn digit_value(c: char) -> int {
    c as int - '0' as int
}

/// Every character is a decimal digit.
pub open spec fn all_digits(s: Seq<char>) -> bool {
    forall|i: int| 0 <= i < s.len() ==> is_digit(#[trigger] s[i])
}

/// The number that a run of decimal digits denotes, most significant first.
pub open spec fn digits_value(s: Seq<char>) -> int
    decreases s.len(),
{
    if s.len() == 0 {
        0
    } else {
        10 * digits_value(s.drop_last()) + digit_value(s.last())
    }
}

/// `s` without its leading sign, if it has one.
pub open spec fn unsigned_part(s: Seq<char>) -> Seq<char> {
    if s.len() > 0 && is_sign(s[0]) {
        s.skip(1)
    } else {
        s
    }
}

/// An optional sign followed by one or more decimal digits.
pub open spec fn is_int_literal(s: Seq<char>) -> bool {
    unsigned_part(s).len() > 0 && all_digits(unsigned_part(s))
}

/// The number that an integer literal denotes.
pub open spec fn int_literal_value(s: Seq<char>) -> int {
    let magnitude = digits_value(unsigned_part(s));
    if s.len() > 0 && s[0] == '-' {
        -magnitude
    } else {
        magnitude
    }
}

/// The 32-bit integer that `s` denotes: `None` unless `s` is an integer
/// literal whose value fits.
pub open spec fn int_value(s: Seq<char>) -> Option<i32> {
    if is_int_literal(s) && i32::MIN <= int_literal_value(s) <= i32::MAX {
        Some(int_literal_value(s) as i32)
    } else {
        None
    }
}

/// The integer held by a field: the value of what is left after trimming.
pub open spec fn int_field(s: Seq<char>) -> Option<i32> {
    int_value(trim(s))
}

/// A run of digits denotes no negative number.
pub proof fn lemma_digits_value_nonneg(s: Seq<char>)
    requires
        all_digits(s),
    ensures
        0 <= digits_value(s),
    decreases s.len(),
{
    if s.len() > 0 {
        lemma_digits_value_nonneg(s.drop_last());
    }
}

/// Whether every character of `s` is a decimal digit.
pub fn is_all_digits(s: &[char]) -> (b: bool)
    ensures
        b == all_digits(s@),
{
    let n = s.len();
    let mut i: usize = 0;
    while i < n
        invariant
            i <= n == s.len(),
            forall|k: int| 0 <= k < i ==> is_digit(#[trigger] s@[k]),
        decreases n - i,
    {
        if !char_is_digit(s[i]) {
            return false;
        }
        i += 1;
    }
    true
}

/// Whether `s` is an optional sign followed by one or more decimal digits.
pub fn is_integer(s: &[char]) -> (b: bool)
    ensures
        b == is_int_literal(s@),
{
    let n = s.len();
    let start: usize = if n > 0 && (s[0] == '+' || s[0] == '-') {
        1
    } else {
        0
    };
    let digits = slice_subrange(s, start, n);
    assert(digits@ == unsigned_part(s@));
    digits.len() > 0 && is_all_digits(digits)
}

/// The 32-bit integer that `s` denotes, if it denotes one.
pub fn parse_int(s: &[char]) -> (r: Option<i32>)
    ensures
        r == int_value(s@),
{
    let n = s.len();
    let signed = n > 0 && (s[0] == '+' || s[0] == '-');
    let negative = n > 0 && s[0] == '-';
    let start: usize = if signed {
        1
    } else {
        0
    };
    if start == n {
        return None;
    }
    let ghost digits = unsigned_part(s@);
    let limit: i64 = 0x8000_0000;
    let mut magnitude: i64 = 0;
    let mut too_large = false;
    let mut i: usize = start;
    while i < n
        invariant
            start <= i <= n == s.len(),
            digits == s@.skip(start as int),
            digits == unsigned_part(s@),
            negative == (s@[0] == '-'),
            limit == 0x8000_0000,
            all_digits(digits.take(i - start)),
            !too_large ==> magnitude == digits_value(digits.take(i - start)) && 0 <= magnitude
                <= limit,
            too_large ==> digits_value(digits.take(i - start)) > limit,
        decreases n - i,
    {
        let c = s[i];
        if !char_is_digit(c) {
            assert(!is_digit(digits[i - start]));
            return None;
        }
        let d: i64 = (c as u32 - '0' as u32) as i64;
        proof {
            let now = digits.take(i - start + 1);
            assert(now.drop_last() == digits.take(i - start));
            lemma_digits_value_nonneg(digits.take(i - start));
        }
        if !too_large {
            magnitude = magnitude * 10 + d;
            if magnitude > limit {
                too_large = true;
            }
        }
        i += 1;
    }
    proof {
        assert(digits.take(n - start) == digits);
    }
    if too_large {
        None
    } else if negative {
        Some((-magnitude) as i32)
    } else if magnitude == limit {
        None
    } else {
        Some(magnitude as i32)
    }
}

/// The integer held by a field, if it holds one.
pub fn parse_int_field(s: &[char]) -> (r: Option<i32>)
    ensures
        r == int_field(s@),
{
    parse_int(trim_slice(s))
}

} // verus!
