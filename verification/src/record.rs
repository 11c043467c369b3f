//! The shapes of a record: TEXT, CONT, rows of a LIST, and the identifier
//! that ends every record.

use vstd::prelude::*;
use vstd::slice::slice_subrange;
use vstd::string::StrSliceExecFns;
use crate::error::ReadError;
use crate::integer::{int_field, parse_int_field};
use crate::number::{literals, parse_real_buf, real_field, scratch_after, Real};
use crate::text::{
    field, is_blank, lemma_trim_bounds, to_chars, trim_bounds, FIELDS_PER_RECORD, FIELD_WIDTH,
    PAYLOAD_WIDTH, RECORD_WIDTH,
};

verus! {

/// The number of the first blank field at or after field `k` (6, if there is none).
pub open spec fn blank_field_from(line: Seq<char>, k: int) -> int
    decreases FIELDS_PER_RECORD - k,
{
    if 0 <= k < FIELDS_PER_RECORD && !is_blank(field(line, k)) {
        blank_field_from(line, k + 1)
    } else {
        k
    }
}

/// How many values a row carries: the fields before its first blank field.
pub open spec fn row_width(line: Seq<char>) -> int {
    blank_field_from(line, 0)
}

/// The number of the first field at or after field `k` and before field `end`
/// that holds no integer (`end`, if there is none).
pub open spec fn bad_int_from(line: Seq<char>, k: int, end: int) -> int
    decreases end - k,
{
    if 0 <= k < end && int_field(field(line, k)) is Some {
        bad_int_from(line, k + 1, end)
    } else {
        k
    }
}

/// How many integers are decoded from a row: those before the first field of
/// the row that holds no integer.
pub open spec fn ints_read(line: Seq<char>) -> int {
    bad_int_from(line, 0, row_width(line))
}

/// The integers decoded from a row, in order.
pub open spec fn int_row(line: Seq<char>) -> Seq<i32> {
    Seq::new(ints_read(line) as nat, |k: int| int_field(field(line, k))->0)
}

/// What decoding a row of integers returns.
pub open spec fn int_row_result(line: Seq<char>) -> Result<usize, ReadError> {
    if line.len() < PAYLOAD_WIDTH {
        Err(ReadError::RecordTooShort)
    } else if ints_read(line) < row_width(line) {
        Err(ReadError::BadInt)
    } else {
        Ok(row_width(line) as usize)
    }
}

/// What decoding a row of integers appends.
pub open spec fn int_row_values(line: Seq<char>) -> Seq<i32> {
    if line.len() < PAYLOAD_WIDTH {
        Seq::empty()
    } else {
        int_row(line)
    }
}

/// The number of the first field at or after field `k` and before field `end`
/// that holds no real number (`end`, if there is none).
pub open spec fn bad_real_from(line: Seq<char>, k: int, end: int) -> int
    decreases end - k,
{
    if 0 <= k < end && real_field(field(line, k)) is Some {
        bad_real_from(line, k + 1, end)
    } else {
        k
    }
}

/// How many reals are decoded from a row: those before the first field of the
/// row that holds no real number.
pub open spec fn reals_read(line: Seq<char>) -> int {
    bad_real_from(line, 0, row_width(line))
}

/// The reals decoded from a row, as literals, in order.
pub open spec fn real_row(line: Seq<char>) -> Seq<Seq<char>> {
    Seq::new(reals_read(line) as nat, |k: int| real_field(field(line, k))->0)
}

/// What decoding a row of reals returns.
pub open spec fn real_row_result(line: Seq<char>) -> Result<usize, ReadError> {
    if line.len() < PAYLOAD_WIDTH {
        Err(ReadError::RecordTooShort)
    } else if reals_read(line) < row_width(line) {
        Err(ReadError::BadFloat)
    } else {
        Ok(row_width(line) as usize)
    }
}

/// What decoding a row of reals appends, as literals.
pub open spec fn real_row_values(line: Seq<char>) -> Seq<Seq<char>> {
    if line.len() < PAYLOAD_WIDTH {
        Seq::empty()
    } else {
        real_row(line)
    }
}

/// How many fields of a row are handed to the decoder of reals: those that
/// decode, and the one that does not where there is one.
pub open spec fn reals_tried(line: Seq<char>) -> int {
    if line.len() < PAYLOAD_WIDTH {
        0
    } else if reals_read(line) < row_width(line) {
        reals_read(line) + 1
    } else {
        reals_read(line)
    }
}

/// The scratch text after the first `n` fields of a row have been decoded with it.
pub open spec fn row_scratch(line: Seq<char>, n: int, before: Seq<char>) -> Seq<char>
    decreases n,
{
    if n <= 0 {
        before
    } else {
        scratch_after(field(line, n - 1), row_scratch(line, n - 1, before))
    }
}

/// What the counts of a row say: the fields before the width of the row are
/// not blank and the field at the width is; the fields before the count of
/// decoded values hold values and the field at the count does not.
pub proof fn lemma_row_bounds(line: Seq<char>)
    ensures
        0 <= ints_read(line) <= row_width(line) <= FIELDS_PER_RECORD,
        0 <= reals_read(line) <= row_width(line),
        forall|k: int| 0 <= k < row_width(line) ==> !is_blank(#[trigger] field(line, k)),
        row_width(line) < FIELDS_PER_RECORD ==> is_blank(field(line, row_width(line))),
        forall|k: int| 0 <= k < ints_read(line) ==> int_field(#[trigger] field(line, k)) is Some,
        ints_read(line) < row_width(line) ==> int_field(field(line, ints_read(line))) is None,
        forall|k: int| 0 <= k < reals_read(line) ==> real_field(#[trigger] field(line, k)) is Some,
        reals_read(line) < row_width(line) ==> real_field(field(line, reals_read(line))) is None,
{
    lemma_blank_field_from(line, 0);
    lemma_bad_int_from(line, 0, row_width(line));
    lemma_bad_real_from(line, 0, row_width(line));
}

/// `blank_field_from` stays in range, passes no blank field and stops at one.
proof fn lemma_blank_field_from(line: Seq<char>, k: int)
    requires
        0 <= k <= FIELDS_PER_RECORD,
    ensures
        k <= blank_field_from(line, k) <= FIELDS_PER_RECORD,
        forall|j: int| k <= j < blank_field_from(line, k) ==> !is_blank(#[trigger] field(line, j)),
        blank_field_from(line, k) < FIELDS_PER_RECORD ==> is_blank(
            field(line, blank_field_from(line, k)),
        ),
    decreases FIELDS_PER_RECORD - k,
{
    if k < FIELDS_PER_RECORD && !is_blank(field(line, k)) {
        lemma_blank_field_from(line, k + 1);
    }
}

/// `bad_int_from` stays in range, passes only integers and stops at none.
proof fn lemma_bad_int_from(line: Seq<char>, k: int, end: int)
    requires
        0 <= k <= end,
    ensures
        k <= bad_int_from(line, k, end) <= end,
        forall|j: int|
            k <= j < bad_int_from(line, k, end) ==> int_field(#[trigger] field(line, j)) is Some,
        bad_int_from(line, k, end) < end ==> int_field(
            field(line, bad_int_from(line, k, end)),
        ) is None,
    decreases end - k,
{
    if k < end && int_field(field(line, k)) is Some {
        lemma_bad_int_from(line, k + 1, end);
    }
}

/// `bad_real_from` stays in range, passes only reals and stops at none.
proof fn lemma_bad_real_from(line: Seq<char>, k: int, end: int)
    requires
        0 <= k <= end,
    ensures
        k <= bad_real_from(line, k, end) <= end,
        forall|j: int|
            k <= j < bad_real_from(line, k, end) ==> real_field(#[trigger] field(line, j)) is Some,
        bad_real_from(line, k, end) < end ==> real_field(
            field(line, bad_real_from(line, k, end)),
        ) is None,
    decreases end - k,
{
    if k < end && real_field(field(line, k)) is Some {
        lemma_bad_real_from(line, k + 1, end);
    }
}

/// A row whose first `k` fields are neither blank nor bad has its width and
/// its count of integers at or after `k`, as counted from `k`.
proof fn lemma_int_row_step(line: Seq<char>, k: int)
    requires
        0 <= k <= FIELDS_PER_RECORD,
        forall|j: int| 0 <= j < k ==> !is_blank(#[trigger] field(line, j)),
        forall|j: int| 0 <= j < k ==> int_field(#[trigger] field(line, j)) is Some,
    ensures
        row_width(line) == blank_field_from(line, k),
        k <= row_width(line),
        ints_read(line) == bad_int_from(line, k, row_width(line)),
    decreases k,
{
    if k > 0 {
        lemma_int_row_step(line, k - 1);
        lemma_blank_field_from(line, k);
    } else {
        lemma_blank_field_from(line, 0);
    }
}

/// The same for a row of reals.
proof fn lemma_real_row_step(line: Seq<char>, k: int)
    requires
        0 <= k <= FIELDS_PER_RECORD,
        forall|j: int| 0 <= j < k ==> !is_blank(#[trigger] field(line, j)),
        forall|j: int| 0 <= j < k ==> real_field(#[trigger] field(line, j)) is Some,
    ensures
        row_width(line) == blank_field_from(line, k),
        k <= row_width(line),
        reals_read(line) == bad_real_from(line, k, row_width(line)),
    decreases k,
{
    if k > 0 {
        lemma_real_row_step(line, k - 1);
        lemma_blank_field_from(line, k);
    } else {
        lemma_blank_field_from(line, 0);
    }
}

/// Whether the field is blank: only spaces.
fn field_is_blank(s: &[char]) -> (b: bool)
    ensures
        b == is_blank(s@),
{
    let (a, b) = trim_bounds(s);
    proof {
        lemma_trim_bounds(s@);
    }
    a == b
}

/// Decodes a row of integers and appends them to `buf`.
///
/// A record of fewer than 66 columns is `RecordTooShort` and appends nothing.
/// Otherwise the fields are taken in order up to the first blank one. Each is
/// trimmed and decoded as an integer and appended; the first that is no
/// integer ends the decoding with `BadInt`, what came before it staying in
/// `buf`. The result is the number of fields before the first blank one.
pub fn parse_int_list(s: &str, buf: &mut Vec<i32>) -> (r: Result<usize, ReadError>)
    ensures
        r == int_row_result(s@),
        final(buf)@ == old(buf)@ + int_row_values(s@),
{
    let chars = to_chars(s);
    if chars.len() < PAYLOAD_WIDTH {
        return Err(ReadError::RecordTooShort);
    }
    let ghost line = s@;
    let mut n: usize = 0;
    while n < FIELDS_PER_RECORD
        invariant
            n <= FIELDS_PER_RECORD,
            chars@ == line,
            line == s@,
            line.len() >= PAYLOAD_WIDTH,
            forall|j: int| 0 <= j < n ==> !is_blank(#[trigger] field(line, j)),
            forall|j: int| 0 <= j < n ==> int_field(#[trigger] field(line, j)) is Some,
            buf@ == old(buf)@ + Seq::new(n as nat, |k: int| int_field(field(line, k))->0),
        decreases FIELDS_PER_RECORD - n,
    {
        let w = slice_subrange(chars.as_slice(), FIELD_WIDTH * n, FIELD_WIDTH * n + FIELD_WIDTH);
        proof {
            lemma_int_row_step(line, n as int);
            lemma_row_bounds(line);
        }
        if field_is_blank(w) {
            return Ok(n);
        }
        match parse_int_field(w) {
            Some(v) => {
                buf.push(v);
            },
            None => {
                return Err(ReadError::BadInt);
            },
        }
        n += 1;
    }
    proof {
        lemma_int_row_step(line, n as int);
        lemma_row_bounds(line);
    }
    Ok(n)
}

/// Decodes a row of reals and appends them to `buf`, building each normal
/// form in the scratch text `tmp`.
///
/// A record of fewer than 66 columns is `RecordTooShort` and appends nothing.
/// Otherwise the fields are taken in order up to the first blank one. Each is
/// decoded as a real and appended; the first that is no real ends the
/// decoding with `BadFloat`, what came before it staying in `buf`. The result
/// is the number of fields before the first blank one.
pub fn parse_real_row_buf(s: &str, buf: &mut Vec<Real>, tmp: &mut String) -> (r: Result<
    usize,
    ReadError,
>)
    ensures
        r == real_row_result(s@),
        old(buf)@.is_prefix_of(final(buf)@),
        literals(final(buf)@.skip(old(buf)@.len() as int)) == real_row_values(s@),
        final(tmp)@ == row_scratch(s@, reals_tried(s@), old(tmp)@),
{
    let chars = to_chars(s);
    if chars.len() < PAYLOAD_WIDTH {
        return Err(ReadError::RecordTooShort);
    }
    let ghost line = s@;
    let ghost start = buf@.len() as int;
    let mut n: usize = 0;
    while n < FIELDS_PER_RECORD
        invariant
            n <= FIELDS_PER_RECORD,
            chars@ == line,
            line == s@,
            line.len() >= PAYLOAD_WIDTH,
            start == old(buf)@.len(),
            forall|j: int| 0 <= j < n ==> !is_blank(#[trigger] field(line, j)),
            forall|j: int| 0 <= j < n ==> real_field(#[trigger] field(line, j)) is Some,
            old(buf)@.is_prefix_of(buf@),
            literals(buf@.skip(start)) == Seq::new(
                n as nat,
                |k: int| real_field(field(line, k))->0,
            ),
            tmp@ == row_scratch(line, n as int, old(tmp)@),
        decreases FIELDS_PER_RECORD - n,
    {
        let w = slice_subrange(chars.as_slice(), FIELD_WIDTH * n, FIELD_WIDTH * n + FIELD_WIDTH);
        proof {
            lemma_real_row_step(line, n as int);
            lemma_row_bounds(line);
        }
        if field_is_blank(w) {
            return Ok(n);
        }
        let text = s.substring_char(FIELD_WIDTH * n, FIELD_WIDTH * n + FIELD_WIDTH);
        let ghost grown = buf@;
        match parse_real_buf(text, tmp) {
            Ok(x) => {
                buf.push(x);
                assert(literals(buf@.skip(start)) == literals(grown.skip(start)).push(x@));
            },
            Err(_) => {
                return Err(ReadError::BadFloat);
            },
        }
        n += 1;
    }
    proof {
        lemma_real_row_step(line, n as int);
        lemma_row_bounds(line);
    }
    Ok(n)
}

/// Decodes a row of reals and appends them to `buf`.
///
/// A record of fewer than 66 columns is `RecordTooShort` and appends nothing.
/// Otherwise the fields are taken in order up to the first blank one. Each is
/// decoded as a real and appended; the first that is no real ends the
/// decoding with `BadFloat`, what came before it staying in `buf`. The result
/// is the number of fields before the first blank one.
pub fn parse_real_row(s: &str, buf: &mut Vec<Real>) -> (r: Result<usize, ReadError>)
    ensures
        r == real_row_result(s@),
        old(buf)@.is_prefix_of(final(buf)@),
        literals(final(buf)@.skip(old(buf)@.len() as int)) == real_row_values(s@),
{
    let mut tmp = String::new();
    parse_real_row_buf(s, buf, &mut tmp)
}

/// The identifier of a record: material, file, section and record index, from
/// columns 67 to 70, 71 to 72, 73 to 75 and 76 to 80, each trimmed.
pub open spec fn ident_result(line: Seq<char>) -> Result<(i32, i32, i32, i32), ReadError> {
    if line.len() < RECORD_WIDTH {
        Err(ReadError::RecordTooShort)
    } else {
        let material = int_field(line.subrange(66, 70));
        let file = int_field(line.subrange(70, 72));
        let section = int_field(line.subrange(72, 75));
        let index = int_field(line.subrange(75, 80));
        if material is Some && file is Some && section is Some && index is Some {
            Ok((material->0, file->0, section->0, index->0))
        } else {
            Err(ReadError::BadInt)
        }
    }
}

/// Decodes the identifier `(material, file, section, index)` of a record.
///
/// A record of fewer than 80 columns is `RecordTooShort`; one with an
/// identifier field that holds no integer is `BadInt`.
pub fn parse_record_ident(s: &str) -> (r: Result<(i32, i32, i32, i32), ReadError>)
    ensures
        r == ident_result(s@),
{
    let chars = to_chars(s);
    if chars.len() < RECORD_WIDTH {
        return Err(ReadError::RecordTooShort);
    }
    let material = parse_int_field(slice_subrange(chars.as_slice(), 66, 70));
    let file = parse_int_field(slice_subrange(chars.as_slice(), 70, 72));
    let section = parse_int_field(slice_subrange(chars.as_slice(), 72, 75));
    let index = parse_int_field(slice_subrange(chars.as_slice(), 75, 80));
    match (material, file, section, index) {
        (Some(mat), Some(mf), Some(mt), Some(ns)) => Ok((mat, mf, mt, ns)),
        _ => Err(ReadError::BadInt),
    }
}

/// What decoding a CONT record gives: two reals, as literals, and four integers.
pub open spec fn cont_result(line: Seq<char>) -> Result<
    (Seq<char>, Seq<char>, i32, i32, i32, i32),
    ReadError,
> {
    let c1 = real_field(field(line, 0));
    let c2 = real_field(field(line, 1));
    let l1 = int_field(field(line, 2));
    let l2 = int_field(field(line, 3));
    let n1 = int_field(field(line, 4));
    let n2 = int_field(field(line, 5));
    if line.len() < PAYLOAD_WIDTH {
        Err(ReadError::RecordTooShort)
    } else if c1 is None || c2 is None {
        Err(ReadError::BadFloat)
    } else if l1 is None || l2 is None || n1 is None || n2 is None {
        Err(ReadError::BadInt)
    } else {
        Ok((c1->0, c2->0, l1->0, l2->0, n1->0, n2->0))
    }
}

/// A decoded CONT record with its reals as literals.
pub open spec fn cont_view(r: Result<(Real, Real, i32, i32, i32, i32), ReadError>) -> Result<
    (Seq<char>, Seq<char>, i32, i32, i32, i32),
    ReadError,
> {
    match r {
        Ok(c) => Ok((c.0@, c.1@, c.2, c.3, c.4, c.5)),
        Err(e) => Err(e),
    }
}

/// Decodes a CONT record `(C1, C2, L1, L2, N1, N2)`: six fields of eleven
/// columns, two reals and four integers.
///
/// A record of fewer than 66 columns is `RecordTooShort`. Otherwise the first
/// field in order that does not decode gives the error: `BadFloat` for one of
/// the reals, `BadInt` for one of the integers.
pub fn parse_cont_record(s: &str) -> (r: Result<(Real, Real, i32, i32, i32, i32), ReadError>)
    ensures
        cont_view(r) == cont_result(s@),
{
    let chars = to_chars(s);
    if chars.len() < PAYLOAD_WIDTH {
        return Err(ReadError::RecordTooShort);
    }
    let mut tmp = String::new();
    let c1 = match parse_real_buf(s.substring_char(0, 11), &mut tmp) {
        Ok(x) => x,
        Err(e) => { return Err(e); },
    };
    let c2 = match parse_real_buf(s.substring_char(11, 22), &mut tmp) {
        Ok(x) => x,
        Err(e) => { return Err(e); },
    };
    let l1 = parse_int_field(slice_subrange(chars.as_slice(), 22, 33));
    let l2 = parse_int_field(slice_subrange(chars.as_slice(), 33, 44));
    let n1 = parse_int_field(slice_subrange(chars.as_slice(), 44, 55));
    let n2 = parse_int_field(slice_subrange(chars.as_slice(), 55, 66));
    match (l1, l2, n1, n2) {
        (Some(l1), Some(l2), Some(n1), Some(n2)) => Ok((c1, c2, l1, l2, n1, n2)),
        _ => Err(ReadError::BadInt),
    }
}

/// What decoding a TEXT record gives: its first 66 columns as they stand.
pub open spec fn text_result(line: Seq<char>) -> Result<Seq<char>, ReadError> {
    if line.len() < PAYLOAD_WIDTH {
        Err(ReadError::RecordTooShort)
    } else {
        Ok(line.take(PAYLOAD_WIDTH as int))
    }
}

/// A decoded text with the string as its characters.
pub open spec fn text_view(r: Result<String, ReadError>) -> Result<Seq<char>, ReadError> {
    match r {
        Ok(t) => Ok(t@),
        Err(e) => Err(e),
    }
}

/// Decodes a TEXT record: columns 1 to 66, spaces and all.
///
/// A record of fewer than 66 columns is `RecordTooShort`.
pub fn parse_text_record(s: &str) -> (r: Result<String, ReadError>)
    ensures
        text_view(r) == text_result(s@),
{
    if s.unicode_len() < PAYLOAD_WIDTH {
        return Err(ReadError::RecordTooShort);
    }
    Ok(s.substring_char(0, PAYLOAD_WIDTH).to_owned())
}

/// A record of fewer than 80 columns has no identifier: decoding it is
/// `RecordTooShort`, whatever the record holds.
pub proof fn lemma_ident_too_short(line: Seq<char>)
    requires
        line.len() < RECORD_WIDTH,
    ensures
        ident_result(line) == Err::<(i32, i32, i32, i32), _>(ReadError::RecordTooShort),
{
}

/// A row of reals ends at its first blank field: where the first `k` fields
/// hold reals and field `k` is blank, the row decodes to those `k` reals,
/// whatever the fields after the blank one hold.
pub proof fn lemma_real_row_ends_at_blank(line: Seq<char>, k: int)
    requires
        line.len() >= PAYLOAD_WIDTH,
        0 <= k < FIELDS_PER_RECORD,
        forall|j: int| 0 <= j < k ==> !is_blank(#[trigger] field(line, j)),
        forall|j: int| 0 <= j < k ==> real_field(#[trigger] field(line, j)) is Some,
        is_blank(field(line, k)),
    ensures
        real_row_result(line) == Ok::<usize, ReadError>(k as usize),
        real_row_values(line) == Seq::new(k as nat, |j: int| real_field(field(line, j))->0),
{
    lemma_real_row_step(line, k);
    lemma_row_bounds(line);
}

/// A row of integers ends at its first blank field: where the first `k`
/// fields hold integers and field `k` is blank, the row decodes to those `k`
/// integers, whatever the fields after the blank one hold.
pub proof fn lemma_int_row_ends_at_blank(line: Seq<char>, k: int)
    requires
        line.len() >= PAYLOAD_WIDTH,
        0 <= k < FIELDS_PER_RECORD,
        forall|j: int| 0 <= j < k ==> !is_blank(#[trigger] field(line, j)),
        forall|j: int| 0 <= j < k ==> int_field(#[trigger] field(line, j)) is Some,
        is_blank(field(line, k)),
    ensures
        int_row_result(line) == Ok::<usize, ReadError>(k as usize),
        int_row_values(line) == Seq::new(k as nat, |j: int| int_field(field(line, j))->0),
{
    lemma_int_row_step(line, k);
    lemma_row_bounds(line);
}

/// A row never carries more than six values.
pub proof fn lemma_row_at_most_six(line: Seq<char>)
    ensures
        int_row_values(line).len() <= FIELDS_PER_RECORD,
        real_row_values(line).len() <= FIELDS_PER_RECORD,
        int_row_result(line) matches Ok(n) ==> n == int_row_values(line).len(),
        real_row_result(line) matches Ok(n) ==> n == real_row_values(line).len(),
{
    lemma_row_bounds(line);
}

/// A record of fewer than 66 columns has no payload: decoding it as a CONT
/// record, as a TEXT record or as a row is `RecordTooShort`, and a row
/// appends nothing.
pub proof fn lemma_payload_too_short(line: Seq<char>)
    requires
        line.len() < PAYLOAD_WIDTH,
    ensures
        cont_result(line) is Err && cont_result(line)->Err_0 == ReadError::RecordTooShort,
        text_result(line) == Err::<Seq<char>, _>(ReadError::RecordTooShort),
        int_row_result(line) == Err::<usize, _>(ReadError::RecordTooShort),
        real_row_result(line) == Err::<usize, _>(ReadError::RecordTooShort),
        int_row_values(line).len() == 0,
        real_row_values(line).len() == 0,
        reals_tried(line) == 0,
{
}

} // verus!
