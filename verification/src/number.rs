//! Real-number fields.
//!
//! The format writes a real number in eleven columns as a mantissa followed
//! directly by a signed exponent, with no letter between them: `6.15077-10`
//! stands for 6.15077e-10. A field may also carry an ordinary literal with the
//! letter, `e` or `E`, which is taken as it stands. Decoding brings both to
//! one normal form, a decimal literal, and keeps that literal: it is the
//! exact value of the field.

use vstd::prelude::*;
use vstd::slice::slice_subrange;
use vstd::string::StrSliceExecFns;
use vstd::string::StringExecFns;
use crate::error::ReadError;
use crate::integer::{
    all_digits, digits_value, int_value, is_all_digits, is_int_literal, is_integer,
    lemma_digits_value_nonneg, parse_int, unsigned_part,
};
use crate::text::{
    find_char, find_sign, is_digit, is_sign, is_space, lemma_find_char, lemma_find_sign,
    lemma_find_sign_at, lemma_skip_spaces, lemma_skip_spaces_back, lemma_trim_bounds, to_chars,
    trim, trim_bounds, trim_start,
};

verus! {

/// `s` spells a word: each of its characters is the letter at its place in
/// `lower` or in `upper`, the word in lower and in upper case.
pub open spec fn spells(s: Seq<char>, lower: Seq<char>, upper: Seq<char>) -> bool {
    s.len() == lower.len() && forall|i: int|
        0 <= i < s.len() ==> #[trigger] s[i] == lower[i] || s[i] == upper[i]
}

/// One of the words for the special values: `inf`, `infinity`, `nan`, in
/// upper or lower case or any mixture.
pub open spec fn is_special(s: Seq<char>) -> bool {
    ||| spells(s, seq!['i', 'n', 'f'], seq!['I', 'N', 'F'])
    ||| spells(s, seq!['n', 'a', 'n'], seq!['N', 'A', 'N'])
    ||| spells(
        s,
        seq!['i', 'n', 'f', 'i', 'n', 'i', 't', 'y'],
        seq!['I', 'N', 'F', 'I', 'N', 'I', 'T', 'Y'],
    )
}

/// Digits, optionally a point and more digits, with at least one digit in all.
pub open spec fn is_mantissa(m: Seq<char>) -> bool {
    let point = find_char(m, '.', 0);
    let whole = m.take(point);
    let fraction = if point < m.len() {
        m.skip(point + 1)
    } else {
        Seq::empty()
    };
    all_digits(whole) && all_digits(fraction) && whole.len() + fraction.len() > 0
}

/// Where the exponent of `s` starts: the first `e` or `E` (the length, if there is none).
pub open spec fn exponent_start(s: Seq<char>, i: int) -> int
    decreases s.len() - i,
{
    if 0 <= i < s.len() && s[i] != 'e' && s[i] != 'E' {
        exponent_start(s, i + 1)
    } else {
        i
    }
}

/// A mantissa, optionally followed by `e` or `E` and an integer literal.
pub open spec fn is_number(s: Seq<char>) -> bool {
    let k = exponent_start(s, 0);
    is_mantissa(s.take(k)) && (k == s.len() || is_int_literal(s.skip(k + 1)))
}

/// A literal of a real number: an optional sign, then a number or one of the
/// special words.
pub open spec fn is_real_literal(s: Seq<char>) -> bool {
    is_number(unsigned_part(s)) || is_special(unsigned_part(s))
}

/// The digits of a mantissa: the mantissa without its point.
pub open spec fn mantissa_digits(m: Seq<char>) -> Seq<char> {
    let point = find_char(m, '.', 0);
    if point < m.len() {
        m.take(point) + m.skip(point + 1)
    } else {
        m
    }
}

/// How many digits of a mantissa stand behind its point.
pub open spec fn fraction_digits(m: Seq<char>) -> int {
    let point = find_char(m, '.', 0);
    if point < m.len() {
        m.len() - point - 1
    } else {
        0
    }
}

/// The number that a literal denotes, in decimal:
/// `digits × 10^(exponent − scale)`, negated where `negative` is set.
///
/// `digits` are the digits of the mantissa read as one integer, `scale` is
/// the number of them behind the point, and `exponent` is the exponent as
/// it is written.
#[derive(Debug, Clone, Copy, PartialEq, Eq, Structural)]
pub struct Decimal {
    pub negative: bool,
    pub digits: u64,
    pub exponent: i32,
    pub scale: usize,
}

/// The number that a literal denotes, in decimal. There is none for the
/// special words, for a mantissa whose digits exceed 64 bits, and for an
/// exponent that exceeds 32 bits.
pub open spec fn decimal_of(literal: Seq<char>) -> Option<Decimal> {
    let body = unsigned_part(literal);
    let k = exponent_start(body, 0);
    let mantissa = body.take(k);
    let digits = digits_value(mantissa_digits(mantissa));
    let exponent = if k < body.len() {
        int_value(body.skip(k + 1))
    } else {
        Some(0i32)
    };
    if is_number(body) && digits <= u64::MAX && exponent is Some {
        Some(
            Decimal {
                negative: literal.len() > 0 && literal[0] == '-',
                digits: digits as u64,
                exponent: exponent->0,
                scale: fraction_digits(mantissa) as usize,
            },
        )
    } else {
        None
    }
}

/// The field carries an exponent letter, `e` or `E`, and is taken as it
/// stands.
pub open spec fn has_marker(s: Seq<char>) -> bool {
    exponent_start(s, 0) < s.len()
}

/// Where the bare exponent of a trimmed field starts: the first sign after the
/// leading one (the length, if there is none).
pub open spec fn bare_exponent(t: Seq<char>) -> int {
    let first = if t.len() > 0 && is_sign(t[0]) {
        1int
    } else {
        0int
    };
    find_sign(t, first)
}

/// The normal form of a field: trimmed, and, where the field carries no
/// exponent letter, with the letter `e` put in front of a bare exponent.
pub open spec fn real_literal(s: Seq<char>) -> Seq<char> {
    let t = trim(s);
    let x = bare_exponent(t);
    if has_marker(s) || x >= t.len() {
        t
    } else {
        t.take(x) + seq!['e'] + t.skip(x)
    }
}

/// What decoding a field gives: its normal form, where that is a literal of
/// a real number.
pub open spec fn real_field(s: Seq<char>) -> Option<Seq<char>> {
    if is_real_literal(real_literal(s)) {
        Some(real_literal(s))
    } else {
        None
    }
}

/// What decoding a field returns: its normal form, or `BadFloat` where that
/// is no literal of a real number.
pub open spec fn real_result(s: Seq<char>) -> Result<Seq<char>, ReadError> {
    match real_field(s) {
        Some(literal) => Ok(literal),
        None => Err(ReadError::BadFloat),
    }
}

/// A field that carries an exponent letter, `e` or `E`, is taken as it
/// stands: its normal form is the field without the spaces around it,
/// whatever signs it holds.
pub proof fn lemma_marked_field_unchanged(s: Seq<char>)
    requires
        has_marker(s),
    ensures
        real_literal(s) == trim(s),
        real_field(s) is Some <==> is_real_literal(trim(s)),
{
}

/// A field without a sign after its first character is taken as it stands,
/// too.
pub proof fn lemma_plain_field_unchanged(s: Seq<char>)
    requires
        bare_exponent(trim(s)) >= trim(s).len(),
    ensures
        real_literal(s) == trim(s),
{
}

/// A bare exponent gets the letter `e` in front of its sign, and nothing else
/// changes: the normal form is one character longer than the trimmed field,
/// and the letter stands where the first sign after the leading one stood.
pub proof fn lemma_bare_exponent_marked(s: Seq<char>)
    requires
        !has_marker(s),
        bare_exponent(trim(s)) < trim(s).len(),
    ensures
        ({
            let t = trim(s);
            let x = bare_exponent(t);
            &&& real_literal(s).len() == t.len() + 1
            &&& real_literal(s)[x] == 'e'
            &&& is_sign(real_literal(s)[x + 1])
            &&& forall|i: int| 0 <= i < x ==> real_literal(s)[i] == t[i]
            &&& forall|i: int| x <= i < t.len() ==> real_literal(s)[i + 1] == t[i]
        }),
{
    let t = trim(s);
    lemma_find_sign(t, if t.len() > 0 && is_sign(t[0]) { 1 } else { 0 });
}

/// `exponent_start` from `a` is `b` where no exponent letter stands from `a`
/// up to `b` and one stands at `b`, or the characters end there.
pub proof fn lemma_exponent_start_at(s: Seq<char>, a: int, b: int)
    requires
        0 <= a <= b <= s.len(),
        forall|j: int| a <= j < b ==> #[trigger] s[j] != 'e' && s[j] != 'E',
        b < s.len() ==> s[b] == 'e' || s[b] == 'E',
    ensures
        exponent_start(s, a) == b,
    decreases b - a,
{
    if a < b {
        lemma_exponent_start_at(s, a + 1, b);
    }
}

/// A mantissa holds digits and at most a point: no sign and no exponent letter.
pub proof fn lemma_mantissa_chars(m: Seq<char>)
    requires
        is_mantissa(m),
    ensures
        m.len() > 0,
        forall|j: int| 0 <= j < m.len() ==> is_digit(#[trigger] m[j]) || m[j] == '.',
{
    let point = find_char(m, '.', 0);
    lemma_find_char(m, '.', 0);
    assert forall|j: int| 0 <= j < m.len() implies is_digit(#[trigger] m[j]) || m[j] == '.' by {
        if j < point {
            assert(m.take(point)[j] == m[j]);
        } else if j > point {
            assert(m.skip(point + 1)[j - point - 1] == m[j]);
        }
    }
}

/// The digits of a mantissa are digits, and denote no negative number.
pub proof fn lemma_mantissa_digits(m: Seq<char>)
    requires
        is_mantissa(m),
    ensures
        all_digits(mantissa_digits(m)),
        0 <= digits_value(mantissa_digits(m)),
        0 <= fraction_digits(m) < m.len(),
{
    let point = find_char(m, '.', 0);
    let digits = mantissa_digits(m);
    lemma_find_char(m, '.', 0);
    assert forall|j: int| 0 <= j < digits.len() implies is_digit(#[trigger] digits[j]) by {
        if j < point {
            assert(digits[j] == m.take(point)[j]);
        } else {
            assert(digits[j] == m.skip(point + 1)[j - point]);
        }
    }
    lemma_digits_value_nonneg(digits);
}

/// The notation without the letter means what it is meant to: a field that
/// holds, between spaces, an optional sign `lead`, a mantissa `m` and a
/// signed integer `exp` carries no exponent letter and has the normal form
/// `lead m e exp`, with the letter `e` between mantissa and exponent, which
/// is a literal; and the number it denotes has the digits and the scale of
/// `m` and the exponent `exp`.
pub proof fn lemma_bare_exponent_value(s: Seq<char>, lead: Seq<char>, m: Seq<char>, exp: Seq<char>)
    requires
        s.len() <= usize::MAX,
        trim(s) == lead + m + exp,
        lead.len() == 0 || (lead.len() == 1 && is_sign(lead[0])),
        is_mantissa(m),
        is_int_literal(exp),
        is_sign(exp[0]),
    ensures
        !has_marker(s),
        real_literal(s) == lead + m + seq!['e'] + exp,
        real_field(s) == Some(lead + m + seq!['e'] + exp),
        decimal_of(real_literal(s)) is Some <==> digits_value(mantissa_digits(m)) <= u64::MAX
            && int_value(exp) is Some,
        decimal_of(real_literal(s)) matches Some(d) ==> {
            &&& d.negative == (lead == seq!['-'])
            &&& d.digits == digits_value(mantissa_digits(m))
            &&& d.scale == fraction_digits(m)
            &&& Some(d.exponent) == int_value(exp)
        },
{
    let t = trim(s);
    let x = lead.len() + m.len();
    lemma_trim_bounds(s);
    lemma_mantissa_chars(m);
    lemma_mantissa_digits(m);
    // neither the spaces around the field nor its characters are a letter
    lemma_skip_spaces(s, 0);
    lemma_skip_spaces_back(s, s.len() as int);
    assert forall|j: int| 0 <= j < s.len() implies #[trigger] s[j] != 'e' && s[j] != 'E' by {
        let k = j - trim_start(s);
        if 0 <= k < t.len() {
            assert(s[j] == t[k]);
            if k < lead.len() {
                assert(t[k] == lead[k]);
            } else if k < x {
                assert(t[k] == m[k - lead.len()]);
            } else {
                assert(t[k] == exp[k - x]);
                if k > x {
                    assert(exp[k - x] == unsigned_part(exp)[k - x - 1]);
                }
            }
        } else {
            assert(is_space(s[j]));
        }
    }
    lemma_exponent_start_at(s, 0, s.len() as int);
    // the first sign after the leading one is the sign of `exp`
    assert forall|j: int| lead.len() <= j < x implies !is_sign(#[trigger] t[j]) by {
        assert(t[j] == m[j - lead.len()]);
    }
    assert(t[0] == if lead.len() == 0 { m[0] } else { lead[0] });
    assert(t[x as int] == exp[0]);
    lemma_find_sign_at(t, lead.len() as int, x as int);
    assert(t.take(x as int) == lead + m);
    assert(t.skip(x as int) == exp);
    // so the letter goes between `m` and `exp`
    let literal = lead + m + seq!['e'] + exp;
    assert(real_literal(s) == literal);
    // without its sign the literal is a mantissa, the letter and an integer
    let body = m + seq!['e'] + exp;
    assert(literal[0] == t[0]);
    assert(unsigned_part(literal) == body);
    assert forall|j: int| 0 <= j < m.len() implies #[trigger] body[j] != 'e' && body[j] != 'E' by {
        assert(body[j] == m[j]);
    }
    assert(body[m.len() as int] == 'e');
    lemma_exponent_start_at(body, 0, m.len() as int);
    assert(body.take(m.len() as int) == m);
    assert(body.skip(m.len() as int + 1) == exp);
    assert(lead == seq!['-'] <==> literal[0] == '-') by {
        if lead.len() == 1 && lead[0] == '-' {
            assert(lead == seq!['-']);
        }
    }
}

/// `exponent_start` stays in range, passes no exponent letter and stops at one.
pub proof fn lemma_exponent_start(s: Seq<char>, i: int)
    requires
        0 <= i <= s.len(),
    ensures
        i <= exponent_start(s, i) <= s.len(),
        forall|k: int| i <= k < exponent_start(s, i) ==> #[trigger] s[k] != 'e' && s[k] != 'E',
        exponent_start(s, i) < s.len() ==> s[exponent_start(s, i)] == 'e' || s[exponent_start(
            s,
            i,
        )] == 'E',
    decreases s.len() - i,
{
    if i < s.len() && s[i] != 'e' && s[i] != 'E' {
        lemma_exponent_start(s, i + 1);
    }
}

/// The notation with the letter means what it says, in either case of the
/// letter: a field that holds, between spaces, an optional sign `lead`, a
/// mantissa `m`, the letter `e` or `E` and an integer `exp`, is taken as it
/// stands, which is a literal; and the number it denotes has the digits and
/// the scale of `m` and the exponent `exp`.
pub proof fn lemma_marked_exponent_value(
    s: Seq<char>,
    lead: Seq<char>,
    m: Seq<char>,
    letter: char,
    exp: Seq<char>,
)
    requires
        s.len() <= usize::MAX,
        trim(s) == lead + m + seq![letter] + exp,
        lead.len() == 0 || (lead.len() == 1 && is_sign(lead[0])),
        is_mantissa(m),
        letter == 'e' || letter == 'E',
        is_int_literal(exp),
    ensures
        has_marker(s),
        real_field(s) == Some(trim(s)),
        decimal_of(real_literal(s)) is Some <==> digits_value(mantissa_digits(m)) <= u64::MAX
            && int_value(exp) is Some,
        decimal_of(real_literal(s)) matches Some(d) ==> {
            &&& d.negative == (lead == seq!['-'])
            &&& d.digits == digits_value(mantissa_digits(m))
            &&& d.scale == fraction_digits(m)
            &&& Some(d.exponent) == int_value(exp)
        },
{
    let t = trim(s);
    let x = lead.len() + m.len();
    lemma_trim_bounds(s);
    lemma_mantissa_chars(m);
    lemma_mantissa_digits(m);
    // the letter stands in the field
    assert(s[trim_start(s) + x] == t[x as int]);
    assert(t[x as int] == letter);
    lemma_exponent_start(s, 0);
    // without its sign the field is a mantissa, the letter and an integer
    let body = m + seq![letter] + exp;
    assert(t[0] == if lead.len() == 0 { m[0] } else { lead[0] });
    assert(unsigned_part(t) == body);
    assert forall|j: int| 0 <= j < m.len() implies #[trigger] body[j] != 'e' && body[j] != 'E' by {
        assert(body[j] == m[j]);
    }
    assert(body[m.len() as int] == letter);
    lemma_exponent_start_at(body, 0, m.len() as int);
    assert(body.take(m.len() as int) == m);
    assert(body.skip(m.len() as int + 1) == exp);
    assert(lead == seq!['-'] <==> t[0] == '-') by {
        if lead.len() == 1 && lead[0] == '-' {
            assert(lead == seq!['-']);
        }
    }
}

/// A real number, held as the decimal literal that denotes it.
#[derive(Debug, PartialEq, Eq)]
pub struct Real {
    text: String,
}

impl View for Real {
    type V = Seq<char>;

    closed spec fn view(&self) -> Seq<char> {
        self.text@
    }
}

impl Real {
    #[verifier::type_invariant]
    spec fn well_formed(self) -> bool {
        is_real_literal(self.text@)
    }

    /// The literal: an optional sign, then a number with an optional exponent,
    /// or `inf`, `infinity` or `nan`.
    pub fn as_str(&self) -> (s: &str)
        ensures
            s@ == self@,
            is_real_literal(s@),
    {
        proof {
            use_type_invariant(self);
        }
        self.text.as_str()
    }

    /// The number in decimal: its sign, the digits of its mantissa, how many
    /// of them stand behind the point, and its exponent as written. `None`
    /// for `inf`, `infinity` and `nan`, and where the digits exceed 64 bits
    /// or the exponent 32 bits.
    pub fn decimal(&self) -> (r: Option<Decimal>)
        ensures
            r == decimal_of(self@),
    {
        proof {
            use_type_invariant(self);
        }
        let chars = to_chars(self.text.as_str());
        let n = chars.len();
        let negative = n > 0 && chars[0] == '-';
        let start: usize = if n > 0 && (chars[0] == '+' || chars[0] == '-') {
            1
        } else {
            0
        };
        let body = slice_subrange(chars.as_slice(), start, n);
        assert(body@ == unsigned_part(self@));
        if !is_number_chars(body) {
            return None;
        }
        let k = index_of_exponent(body);
        let mantissa = slice_subrange(body, 0, k);
        let point = index_of(mantissa, '.', 0);
        let scale: usize = if point < mantissa.len() {
            mantissa.len() - point - 1
        } else {
            0
        };
        let digits = match mantissa_value(mantissa) {
            Some(digits) => digits,
            None => {
                return None;
            },
        };
        let exponent: i32 = if k < body.len() {
            match parse_int(slice_subrange(body, k + 1, body.len())) {
                Some(exponent) => exponent,
                None => {
                    return None;
                },
            }
        } else {
            0
        };
        Some(Decimal { negative, digits, exponent, scale })
    }
}

impl Clone for Real {
    fn clone(&self) -> (r: Self)
        ensures
            r@ == self@,
    {
        proof {
            use_type_invariant(self);
        }
        Real { text: self.text.clone() }
    }
}

/// A decoded real as its literal.
pub open spec fn real_view(r: Result<Real, ReadError>) -> Result<Seq<char>, ReadError> {
    match r {
        Ok(x) => Ok(x@),
        Err(e) => Err(e),
    }
}

/// What the views of a sequence of reals are, in order.
pub open spec fn literals(v: Seq<Real>) -> Seq<Seq<char>> {
    v.map_values(|r: Real| r@)
}

/// The first index at or after `from` that holds `c`.
pub fn index_of(s: &[char], c: char, from: usize) -> (i: usize)
    requires
        from <= s.len(),
    ensures
        i == find_char(s@, c, from as int),
        from <= i <= s.len(),
{
    let n = s.len();
    let mut i: usize = from;
    while i < n && s[i] != c
        invariant
            from <= i <= n == s.len(),
            find_char(s@, c, i as int) == find_char(s@, c, from as int),
        decreases n - i,
    {
        i += 1;
    }
    i
}

/// The first index at or after `from` that holds a sign.
pub fn index_of_sign(s: &[char], from: usize) -> (i: usize)
    requires
        from <= s.len(),
    ensures
        i == find_sign(s@, from as int),
        from <= i <= s.len(),
{
    let n = s.len();
    let mut i: usize = from;
    while i < n && s[i] != '+' && s[i] != '-'
        invariant
            from <= i <= n == s.len(),
            find_sign(s@, i as int) == find_sign(s@, from as int),
        decreases n - i,
    {
        i += 1;
    }
    i
}

/// The first index that holds `e` or `E`.
pub fn index_of_exponent(s: &[char]) -> (k: usize)
    ensures
        k == exponent_start(s@, 0),
        k <= s.len(),
{
    let n = s.len();
    let mut k: usize = 0;
    while k < n && s[k] != 'e' && s[k] != 'E'
        invariant
            k <= n == s.len(),
            exponent_start(s@, k as int) == exponent_start(s@, 0),
        decreases n - k,
    {
        k += 1;
    }
    k
}

/// The digits of a mantissa read as one integer, where that fits in 64 bits.
pub fn mantissa_value(m: &[char]) -> (r: Option<u64>)
    requires
        is_mantissa(m@),
    ensures
        r is Some <==> digits_value(mantissa_digits(m@)) <= u64::MAX,
        r matches Some(v) ==> v == digits_value(mantissa_digits(m@)),
{
    let n = m.len();
    let point = index_of(m, '.', 0);
    let ghost digits = mantissa_digits(m@);
    let mut value: u64 = 0;
    let mut too_large = false;
    let mut i: usize = 0;
    proof {
        lemma_mantissa_digits(m@);
    }
    while i < n
        invariant
            i <= n == m.len(),
            point == find_char(m@, '.', 0),
            point <= n,
            is_mantissa(m@),
            digits == mantissa_digits(m@),
            all_digits(digits),
            !too_large ==> value == digits_value(digits.take(taken(i as int, point as int))),
            too_large ==> digits_value(digits.take(taken(i as int, point as int))) > u64::MAX,
        decreases n - i,
    {
        if i != point {
            let c = m[i];
            proof {
                let j = taken(i as int, point as int);
                assert(digits[j] == c);
                assert(digits.take(j + 1).drop_last() == digits.take(j));
                lemma_digits_value_nonneg(digits.take(j));
            }
            let d: u64 = (c as u32 - '0' as u32) as u64;
            if !too_large {
                if value > (u64::MAX - d) / 10 {
                    too_large = true;
                } else {
                    value = value * 10 + d;
                }
            }
        }
        i += 1;
    }
    proof {
        assert(digits.take(taken(n as int, point as int)) == digits);
    }
    if too_large {
        None
    } else {
        Some(value)
    }
}

/// How many digits of a mantissa stand before index `i`, the point being at `point`.
pub open spec fn taken(i: int, point: int) -> int {
    if i <= point {
        i
    } else {
        i - 1
    }
}

/// Whether `m` is a mantissa.
pub fn is_mantissa_chars(m: &[char]) -> (b: bool)
    ensures
        b == is_mantissa(m@),
{
    let n = m.len();
    let point = index_of(m, '.', 0);
    let whole = slice_subrange(m, 0, point);
    if point < n {
        let fraction = slice_subrange(m, point + 1, n);
        is_all_digits(whole) && is_all_digits(fraction) && whole.len() + fraction.len() > 0
    } else {
        is_all_digits(whole) && whole.len() > 0
    }
}

/// Whether `s` is a number.
pub fn is_number_chars(s: &[char]) -> (b: bool)
    ensures
        b == is_number(s@),
{
    let n = s.len();
    let k = index_of_exponent(s);
    let mantissa = slice_subrange(s, 0, k);
    if !is_mantissa_chars(mantissa) {
        return false;
    }
    if k == n {
        return true;
    }
    let exponent = slice_subrange(s, k + 1, n);
    is_integer(exponent)
}

/// Whether `s` spells the word given in lower and in upper case.
fn spells_word(s: &[char], lower: &[char], upper: &[char]) -> (b: bool)
    requires
        lower.len() == upper.len(),
    ensures
        b == spells(s@, lower@, upper@),
{
    let n = s.len();
    if n != lower.len() {
        return false;
    }
    let mut i: usize = 0;
    while i < n
        invariant
            i <= n == s.len() == lower.len() == upper.len(),
            forall|k: int| 0 <= k < i ==> #[trigger] s@[k] == lower@[k] || s@[k] == upper@[k],
        decreases n - i,
    {
        if s[i] != lower[i] && s[i] != upper[i] {
            return false;
        }
        i += 1;
    }
    true
}

/// Whether `s` is one of the special words.
pub fn is_special_chars(s: &[char]) -> (b: bool)
    ensures
        b == is_special(s@),
{
    let inf: [char; 3] = ['i', 'n', 'f'];
    let inf_upper: [char; 3] = ['I', 'N', 'F'];
    let nan: [char; 3] = ['n', 'a', 'n'];
    let nan_upper: [char; 3] = ['N', 'A', 'N'];
    let infinity: [char; 8] = ['i', 'n', 'f', 'i', 'n', 'i', 't', 'y'];
    let infinity_upper: [char; 8] = ['I', 'N', 'F', 'I', 'N', 'I', 'T', 'Y'];
    spells_word(s, inf.as_slice(), inf_upper.as_slice()) || spells_word(
        s,
        nan.as_slice(),
        nan_upper.as_slice(),
    ) || spells_word(s, infinity.as_slice(), infinity_upper.as_slice())
}

/// Whether `s` is a literal of a real number.
pub fn is_real(s: &[char]) -> (b: bool)
    ensures
        b == is_real_literal(s@),
{
    let n = s.len();
    let start: usize = if n > 0 && (s[0] == '+' || s[0] == '-') {
        1
    } else {
        0
    };
    let body = slice_subrange(s, start, n);
    assert(body@ == unsigned_part(s@));
    is_number_chars(body) || is_special_chars(body)
}

/// What the scratch text holds after a field has been decoded with it: the
/// normal form that was built, or what it held before where the field carries
/// an exponent letter and nothing was built.
pub open spec fn scratch_after(s: Seq<char>, before: Seq<char>) -> Seq<char> {
    if has_marker(s) {
        before
    } else {
        real_literal(s)
    }
}

/// Decodes a real-number field, building its normal form in `buf`.
///
/// The result is the normal form of the field where that is a literal of a
/// real number, and `BadFloat` where it is not. A field that carries an
/// exponent letter is taken as it stands and leaves `buf` as it was.
pub fn parse_real_buf(s: &str, buf: &mut String) -> (r: Result<Real, ReadError>)
    ensures
        real_view(r) == real_result(s@),
        final(buf)@ == scratch_after(s@, old(buf)@),
{
    let chars = to_chars(s);
    let (a, b) = trim_bounds(chars.as_slice());
    let trimmed = slice_subrange(chars.as_slice(), a, b);
    if index_of_exponent(chars.as_slice()) < chars.len() {
        if !is_real(trimmed) {
            return Err(ReadError::BadFloat);
        }
        return Ok(Real { text: s.substring_char(a, b).to_owned() });
    }
    let first: usize = if trimmed.len() > 0 && (trimmed[0] == '+' || trimmed[0] == '-') {
        1
    } else {
        0
    };
    let x = index_of_sign(trimmed, first);
    *buf = String::new();
    if x < trimmed.len() {
        proof {
            reveal_strlit("e");
        }
        buf.append(s.substring_char(a, a + x));
        buf.append("e");
        buf.append(s.substring_char(a + x, b));
    } else {
        buf.append(s.substring_char(a, b));
    }
    assert(buf@ == real_literal(s@));
    let literal = to_chars(buf.as_str());
    if !is_real(literal.as_slice()) {
        return Err(ReadError::BadFloat);
    }
    Ok(Real { text: buf.clone() })
}

/// Decodes a real-number field.
///
/// The field is trimmed. If it carries an exponent letter, `e` or `E`, it is
/// taken as it stands; otherwise the first sign after the leading one starts
/// the exponent and the letter `e` is put in front of it. The result is that
/// normal form where it is a literal of a real number, and `BadFloat` where
/// it is not.
pub fn parse_real(s: &str) -> (r: Result<Real, ReadError>)
    ensures
        real_view(r) == real_result(s@),
{
    let mut buf = String::new();
    parse_real_buf(s, &mut buf)
}

} // verus!
