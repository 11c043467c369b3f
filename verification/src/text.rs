//! Characters and fixed-width columns.
//!
//! A record is a sequence of characters, one per column. Everything here is
//! stated over `Seq<char>`, the view of a string.

use vstd::prelude::*;
use vstd::slice::slice_subrange;

verus! {

/// Width of a numeric field, in columns.
pub const FIELD_WIDTH: usize = 11;

/// Number of numeric fields in the payload of a record.
pub const FIELDS_PER_RECORD: usize = 6;

/// Width of the payload of a record, in columns.
pub const PAYLOAD_WIDTH: usize = 66;

/// Width of a whole record, payload and identifier, in columns.
pub const RECORD_WIDTH: usize = 80;

/// The characters that trimming removes: those that Unicode marks as
/// `White_Space`.
pub open spec fn is_space(c: char) -> bool {
    let u = c as u32;
    ||| 0x09 <= u <= 0x0D
    ||| u == 0x20
    ||| u == 0x85
    ||| u == 0xA0
    ||| u == 0x1680
    ||| 0x2000 <= u <= 0x200A
    ||| u == 0x2028
    ||| u == 0x2029
    ||| u == 0x202F
    ||| u == 0x205F
    ||| u == 0x3000
}

/// A decimal digit, `0` to `9`.
pub open spec fn is_digit(c: char) -> bool {
    '0' <= c <= '9'
}

/// A sign character, `+` or `-`.
pub open spec fn is_sign(c: char) -> bool {
    c == '+' || c == '-'
}

/// The first index at or after `i` that holds no space (the length, if there is none).
pub open spec fn skip_spaces(s: Seq<char>, i: int) -> int
    decreases s.len() - i,
{
    if 0 <= i < s.len() && is_space(s[i]) {
        skip_spaces(s, i + 1)
    } else {
        i
    }
}

/// The least `j` at or below `end` such that only spaces lie between `j` and `end`.
pub open spec fn skip_spaces_back(s: Seq<char>, end: int) -> int
    decreases end,
{
    if 0 < end <= s.len() && is_space(s[end - 1]) {
        skip_spaces_back(s, end - 1)
    } else {
        end
    }
}

/// Where the trimmed part of `s` starts.
pub open spec fn trim_start(s: Seq<char>) -> int {
    skip_spaces(s, 0)
}

/// Where the trimmed part of `s` ends; equal to `trim_start(s)` when `s` is blank.
pub open spec fn trim_end(s: Seq<char>) -> int {
    let a = trim_start(s);
    let b = skip_spaces_back(s, s.len() as int);
    if b < a {
        a
    } else {
        b
    }
}

/// `s` without its leading and trailing spaces.
pub open spec fn trim(s: Seq<char>) -> Seq<char> {
    s.subrange(trim_start(s), trim_end(s))
}

/// Only spaces, or nothing at all.
pub open spec fn is_blank(s: Seq<char>) -> bool {
    forall|i: int| 0 <= i < s.len() ==> is_space(#[trigger] s[i])
}

/// The first index at or after `i` that holds `c` (the length, if there is none).
pub open spec fn find_char(s: Seq<char>, c: char, i: int) -> int
    decreases s.len() - i,
{
    if 0 <= i < s.len() && s[i] != c {
        find_char(s, c, i + 1)
    } else {
        i
    }
}

/// The first index at or after `i` that holds a sign (the length, if there is none).
pub open spec fn find_sign(s: Seq<char>, i: int) -> int
    decreases s.len() - i,
{
    if 0 <= i < s.len() && !is_sign(s[i]) {
        find_sign(s, i + 1)
    } else {
        i
    }
}

/// The `k`-th numeric field of a record: columns `11k + 1` to `11k + 11`.
pub open spec fn field(line: Seq<char>, k: int) -> Seq<char> {
    line.subrange(FIELD_WIDTH * k, FIELD_WIDTH * k + FIELD_WIDTH)
}

/// `skip_spaces` stays in range, passes only spaces and stops at a non-space.
pub proof fn lemma_skip_spaces(s: Seq<char>, i: int)
    requires
        0 <= i <= s.len(),
    ensures
        i <= skip_spaces(s, i) <= s.len(),
        forall|k: int| i <= k < skip_spaces(s, i) ==> is_space(#[trigger] s[k]),
        skip_spaces(s, i) < s.len() ==> !is_space(s[skip_spaces(s, i)]),
    decreases s.len() - i,
{
    if i < s.len() && is_space(s[i]) {
        lemma_skip_spaces(s, i + 1);
    }
}

/// `skip_spaces_back` stays in range, passes only spaces and stops behind a non-space.
pub proof fn lemma_skip_spaces_back(s: Seq<char>, end: int)
    requires
        0 <= end <= s.len(),
    ensures
        0 <= skip_spaces_back(s, end) <= end,
        forall|k: int| skip_spaces_back(s, end) <= k < end ==> is_space(#[trigger] s[k]),
        skip_spaces_back(s, end) > 0 ==> !is_space(s[skip_spaces_back(s, end) - 1]),
    decreases end,
{
    if 0 < end && is_space(s[end - 1]) {
        lemma_skip_spaces_back(s, end - 1);
    }
}

/// `find_char` stays in range and stops at the character.
pub proof fn lemma_find_char(s: Seq<char>, c: char, i: int)
    requires
        0 <= i <= s.len(),
    ensures
        i <= find_char(s, c, i) <= s.len(),
        forall|k: int| i <= k < find_char(s, c, i) ==> #[trigger] s[k] != c,
        find_char(s, c, i) < s.len() ==> s[find_char(s, c, i)] == c,
    decreases s.len() - i,
{
    if i < s.len() && s[i] != c {
        lemma_find_char(s, c, i + 1);
    }
}

/// `find_sign` stays in range and stops at a sign.
pub proof fn lemma_find_sign(s: Seq<char>, i: int)
    requires
        0 <= i <= s.len(),
    ensures
        i <= find_sign(s, i) <= s.len(),
        forall|k: int| i <= k < find_sign(s, i) ==> !is_sign(#[trigger] s[k]),
        find_sign(s, i) < s.len() ==> is_sign(s[find_sign(s, i)]),
    decreases s.len() - i,
{
    if i < s.len() && !is_sign(s[i]) {
        lemma_find_sign(s, i + 1);
    }
}

/// `find_sign` from `a` is `b` where no sign stands from `a` up to `b` and
/// one stands at `b`, or the characters end there.
pub proof fn lemma_find_sign_at(s: Seq<char>, a: int, b: int)
    requires
        0 <= a <= b <= s.len(),
        forall|j: int| a <= j < b ==> !is_sign(#[trigger] s[j]),
        b < s.len() ==> is_sign(s[b]),
    ensures
        find_sign(s, a) == b,
    decreases b - a,
{
    if a < b {
        lemma_find_sign_at(s, a + 1, b);
    }
}

/// The bounds of the trimmed part are ordered and in range, and the trimmed
/// part is empty exactly when the whole is blank.
pub proof fn lemma_trim_bounds(s: Seq<char>)
    ensures
        0 <= trim_start(s) <= trim_end(s) <= s.len(),
        trim(s).len() == trim_end(s) - trim_start(s),
        is_blank(s) <==> trim(s).len() == 0,
        trim(s).len() > 0 ==> !is_space(trim(s)[0]) && !is_space(trim(s).last()),
{
    lemma_skip_spaces(s, 0);
    lemma_skip_spaces_back(s, s.len() as int);
}

/// Whether `c` is a space.
pub fn char_is_space(c: char) -> (b: bool)
    ensures
        b == is_space(c),
{
    let u: u32 = c as u32;
    (0x09 <= u && u <= 0x0D) || u == 0x20 || u == 0x85 || u == 0xA0 || u == 0x1680 || (0x2000 <= u
        && u <= 0x200A) || u == 0x2028 || u == 0x2029 || u == 0x202F || u == 0x205F || u == 0x3000
}

/// Whether `c` is a decimal digit.
pub fn char_is_digit(c: char) -> (b: bool)
    ensures
        b == is_digit(c),
{
    '0' <= c && c <= '9'
}

/// The characters of `s`, in order.
pub fn to_chars(s: &str) -> (v: Vec<char>)
    ensures
        v@ == s@,
{
    let mut v: Vec<char> = Vec::new();
    for c in it: s.chars()
        invariant
            v@ == it.seq().take(it.index() as int),
            it.seq() == s@,
    {
        v.push(c);
    }
    v
}

/// The bounds of the trimmed part of `s`.
pub fn trim_bounds(s: &[char]) -> (r: (usize, usize))
    ensures
        r.0 == trim_start(s@),
        r.1 == trim_end(s@),
        r.0 <= r.1 <= s.len(),
{
    let n = s.len();
    let mut a: usize = 0;
    while a < n && char_is_space(s[a])
        invariant
            a <= n == s.len(),
            skip_spaces(s@, a as int) == skip_spaces(s@, 0),
        decreases n - a,
    {
        a += 1;
    }
    let mut b: usize = n;
    while b > a && char_is_space(s[b - 1])
        invariant
            a <= b <= n == s.len(),
            skip_spaces_back(s@, b as int) == skip_spaces_back(s@, n as int),
        decreases b,
    {
        b -= 1;
    }
    proof {
        lemma_skip_spaces_back(s@, b as int);
        lemma_trim_bounds(s@);
    }
    (a, b)
}

/// `s` without its leading and trailing spaces.
pub fn trim_slice(s: &[char]) -> (t: &[char])
    ensures
        t@ == trim(s@),
{
    let (a, b) = trim_bounds(s);
    slice_subrange(s, a, b)
}

} // verus!
