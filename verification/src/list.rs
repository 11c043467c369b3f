//! Lists that run over several records: rows of integers or of reals, read
//! one after another and joined.

use vstd::prelude::*;
use crate::error::ReadError;
use crate::number::{literals, Real};
use crate::record::{
    int_row, int_row_result, lemma_row_at_most_six, parse_int_list, parse_real_row_buf, real_row,
    real_row_result,
};
use crate::source::{after_read, lemma_same_from_step, line_at, same_from, Source};

verus! {

/// The number of rows of six that carry `n` values.
pub open spec fn rows_for(n: int) -> int {
    if n <= 0 {
        0
    } else {
        (n - 1) / 6 + 1
    }
}

/// What reading `count` rows of integers from position `i` gives, and where
/// it leaves the cursor.
///
/// The rows are read in order and their values joined. The first row that
/// does not decode ends the reading with its error, the cursor behind it.
pub open spec fn int_rows(lines: Seq<Seq<char>>, i: int, count: int) -> (
    Result<Seq<i32>, ReadError>,
    int,
)
    decreases count,
{
    if count <= 0 {
        (Ok(Seq::empty()), i)
    } else {
        let (before, p) = int_rows(lines, i, count - 1);
        match before {
            Err(e) => (Err(e), p),
            Ok(values) => match int_row_result(line_at(lines, p)) {
                Err(e) => (Err(e), after_read(lines, p)),
                Ok(_) => (Ok(values + int_row(line_at(lines, p))), after_read(lines, p)),
            },
        }
    }
}

/// What reading `count` rows of reals from position `i` gives, as literals,
/// and where it leaves the cursor.
///
/// The rows are read in order and their values joined. The first row that
/// does not decode ends the reading with its error, the cursor behind it.
pub open spec fn real_rows(lines: Seq<Seq<char>>, i: int, count: int) -> (
    Result<Seq<Seq<char>>, ReadError>,
    int,
)
    decreases count,
{
    if count <= 0 {
        (Ok(Seq::empty()), i)
    } else {
        let (before, p) = real_rows(lines, i, count - 1);
        match before {
            Err(e) => (Err(e), p),
            Ok(values) => match real_row_result(line_at(lines, p)) {
                Err(e) => (Err(e), after_read(lines, p)),
                Ok(_) => (Ok(values + real_row(line_at(lines, p))), after_read(lines, p)),
            },
        }
    }
}

/// Rows of integers that were all read took one line each.
pub proof fn lemma_int_rows_consumed(lines: Seq<Seq<char>>, i: int, count: int)
    requires
        0 <= i <= lines.len(),
        0 <= count,
    ensures
        i <= int_rows(lines, i, count).1 <= lines.len(),
        int_rows(lines, i, count).1 <= i + count,
        int_rows(lines, i, count).0 is Ok ==> int_rows(lines, i, count).1 == i + count,
    decreases count,
{
    if count > 0 {
        lemma_int_rows_consumed(lines, i, count - 1);
    }
}

/// Rows of reals that were all read took one line each.
pub proof fn lemma_real_rows_consumed(lines: Seq<Seq<char>>, i: int, count: int)
    requires
        0 <= i <= lines.len(),
        0 <= count,
    ensures
        i <= real_rows(lines, i, count).1 <= lines.len(),
        real_rows(lines, i, count).1 <= i + count,
        real_rows(lines, i, count).0 is Ok ==> real_rows(lines, i, count).1 == i + count,
    decreases count,
{
    if count > 0 {
        lemma_real_rows_consumed(lines, i, count - 1);
    }
}

/// Integers that were read, as a sequence.
pub open spec fn ints_view(r: Result<Vec<i32>, ReadError>) -> Result<Seq<i32>, ReadError> {
    match r {
        Ok(v) => Ok(v@),
        Err(e) => Err(e),
    }
}

/// Reals that were read, as literals.
pub open spec fn reals_view(r: Result<Vec<Real>, ReadError>) -> Result<Seq<Seq<char>>, ReadError> {
    match r {
        Ok(v) => Ok(literals(v@)),
        Err(e) => Err(e),
    }
}

/// The number of rows of six that carry `n` values.
pub fn row_count(n: usize) -> (rows: usize)
    ensures
        rows == rows_for(n as int),
{
    if n == 0 {
        0
    } else {
        (n - 1) / 6 + 1
    }
}

/// Reads `count` rows of integers and returns their values, joined.
///
/// The first row that does not decode ends the reading with its error.
pub fn read_int_rows(source: &mut Source, count: usize) -> (r: Result<Vec<i32>, ReadError>)
    ensures
        final(source).lines() == old(source).lines(),
        ints_view(r) == int_rows(old(source).lines(), old(source).position(), count as int).0,
        final(source).position() == int_rows(
            old(source).lines(),
            old(source).position(),
            count as int,
        ).1,
{
    let ghost lines = source.lines();
    let ghost start = source.position();
    let mut values: Vec<i32> = Vec::new();
    let mut done: usize = 0;
    while done < count
        invariant
            done <= count,
            source.lines() == lines,
            lines == old(source).lines(),
            start == old(source).position(),
            int_rows(lines, start, done as int) == (
                Ok::<Seq<i32>, ReadError>(values@),
                source.position(),
            ),
        decreases count - done,
    {
        let line = source.read_record();
        match parse_int_list(line.as_str(), &mut values) {
            Err(e) => {
                proof {
                    lemma_int_rows_error(lines, start, done + 1, count as int);
                }
                return Err(e);
            },
            Ok(_) => {},
        }
        done += 1;
    }
    Ok(values)
}

/// Reads `count` rows of reals and returns their values, joined.
///
/// The first row that does not decode ends the reading with its error.
pub fn read_real_rows(source: &mut Source, count: usize) -> (r: Result<Vec<Real>, ReadError>)
    ensures
        final(source).lines() == old(source).lines(),
        reals_view(r) == real_rows(old(source).lines(), old(source).position(), count as int).0,
        final(source).position() == real_rows(
            old(source).lines(),
            old(source).position(),
            count as int,
        ).1,
{
    let ghost lines = source.lines();
    let ghost start = source.position();
    let mut values: Vec<Real> = Vec::new();
    let mut scratch = String::new();
    let mut done: usize = 0;
    assert(literals(values@) == Seq::<Seq<char>>::empty());
    while done < count
        invariant
            done <= count,
            source.lines() == lines,
            lines == old(source).lines(),
            start == old(source).position(),
            real_rows(lines, start, done as int) == (
                Ok::<Seq<Seq<char>>, ReadError>(literals(values@)),
                source.position(),
            ),
        decreases count - done,
    {
        let line = source.read_record();
        let ghost before = values@;
        match parse_real_row_buf(line.as_str(), &mut values, &mut scratch) {
            Err(e) => {
                proof {
                    lemma_real_rows_error(lines, start, done + 1, count as int);
                }
                return Err(e);
            },
            Ok(_) => {
                assert(literals(values@) == literals(before) + literals(
                    values@.skip(before.len() as int),
                ));
            },
        }
        done += 1;
    }
    Ok(values)
}

/// Reads a list of `n` reals: as many rows as carry `n` values, joined.
///
/// The first row that does not decode ends the reading with its error. The
/// values that the rows hold are returned as they are, be they `n` or not.
pub fn read_real_list(source: &mut Source, n: usize) -> (r: Result<Vec<Real>, ReadError>)
    ensures
        final(source).lines() == old(source).lines(),
        reals_view(r) == real_rows(
            old(source).lines(),
            old(source).position(),
            rows_for(n as int),
        ).0,
        final(source).position() == real_rows(
            old(source).lines(),
            old(source).position(),
            rows_for(n as int),
        ).1,
{
    read_real_rows(source, row_count(n))
}

/// Once a row has failed, reading further rows changes nothing.
proof fn lemma_int_rows_error(lines: Seq<Seq<char>>, i: int, failed: int, count: int)
    requires
        0 < failed <= count,
        int_rows(lines, i, failed).0 is Err,
    ensures
        int_rows(lines, i, count) == int_rows(lines, i, failed),
    decreases count - failed,
{
    if failed < count {
        lemma_int_rows_error(lines, i, failed, count - 1);
    }
}

/// Once a row has failed, reading further rows changes nothing.
proof fn lemma_real_rows_error(lines: Seq<Seq<char>>, i: int, failed: int, count: int)
    requires
        0 < failed <= count,
        real_rows(lines, i, failed).0 is Err,
    ensures
        real_rows(lines, i, count) == real_rows(lines, i, failed),
    decreases count - failed,
{
    if failed < count {
        lemma_real_rows_error(lines, i, failed, count - 1);
    }
}

/// Reading rows of integers depends only on the lines from the cursor on:
/// sources that agree from their cursors on give the same result and move
/// their cursors by the same number of lines.
pub proof fn lemma_int_rows_same_from(
    lines1: Seq<Seq<char>>,
    i1: int,
    lines2: Seq<Seq<char>>,
    i2: int,
    count: int,
)
    requires
        same_from(lines1, i1, lines2, i2),
        0 <= count,
    ensures
        int_rows(lines1, i1, count).0 == int_rows(lines2, i2, count).0,
        int_rows(lines1, i1, count).1 - i1 == int_rows(lines2, i2, count).1 - i2,
        same_from(lines1, int_rows(lines1, i1, count).1, lines2, int_rows(lines2, i2, count).1),
    decreases count,
{
    if count > 0 {
        lemma_int_rows_same_from(lines1, i1, lines2, i2, count - 1);
        lemma_int_rows_consumed(lines1, i1, count - 1);
        let here1 = int_rows(lines1, i1, count - 1).1;
        lemma_same_from_step(lines1, i1, lines2, i2, here1 - i1);
        lemma_same_from_step(lines1, i1, lines2, i2, after_read(lines1, here1) - i1);
    } else {
        lemma_same_from_step(lines1, i1, lines2, i2, 0);
    }
}

/// Reading rows of reals depends only on the lines from the cursor on:
/// sources that agree from their cursors on give the same result and move
/// their cursors by the same number of lines.
pub proof fn lemma_real_rows_same_from(
    lines1: Seq<Seq<char>>,
    i1: int,
    lines2: Seq<Seq<char>>,
    i2: int,
    count: int,
)
    requires
        same_from(lines1, i1, lines2, i2),
        0 <= count,
    ensures
        real_rows(lines1, i1, count).0 == real_rows(lines2, i2, count).0,
        real_rows(lines1, i1, count).1 - i1 == real_rows(lines2, i2, count).1 - i2,
        same_from(lines1, real_rows(lines1, i1, count).1, lines2, real_rows(lines2, i2, count).1),
    decreases count,
{
    if count > 0 {
        lemma_real_rows_same_from(lines1, i1, lines2, i2, count - 1);
        lemma_real_rows_consumed(lines1, i1, count - 1);
        let here1 = real_rows(lines1, i1, count - 1).1;
        lemma_same_from_step(lines1, i1, lines2, i2, here1 - i1);
        lemma_same_from_step(lines1, i1, lines2, i2, after_read(lines1, here1) - i1);
    } else {
        lemma_same_from_step(lines1, i1, lines2, i2, 0);
    }
}

/// `rows_for(n)` is the least number of rows of six that hold `n` values:
/// `n / 6`, rounded up.
pub proof fn lemma_rows_for(n: int)
    requires
        0 <= n,
    ensures
        0 <= rows_for(n),
        6 * (rows_for(n) - 1) < n <= 6 * rows_for(n),
        n % 6 == 0 ==> 6 * rows_for(n) == n,
{
}

/// Rows of integers that all decode are all read, one line each, and their
/// values are joined in order.
pub proof fn lemma_int_rows_all(lines: Seq<Seq<char>>, i: int, count: int)
    requires
        0 <= i,
        0 <= count,
        forall|k: int| 0 <= k < count ==> int_row_result(#[trigger] line_at(lines, i + k)) is Ok,
    ensures
        int_rows(lines, i, count).0 is Ok,
        int_rows(lines, i, count).1 == i + count,
        count > 0 ==> int_rows(lines, i, count).0->Ok_0 == int_rows(lines, i, count - 1).0->Ok_0
            + int_row(line_at(lines, i + count - 1)),
    decreases count,
{
    if count > 0 {
        lemma_int_rows_all(lines, i, count - 1);
        assert(int_row_result(line_at(lines, i + (count - 1))) is Ok);
    }
}

/// The first row of integers that does not decode decides: where the rows
/// before row `j` decode and row `j` does not, the result is the error of
/// row `j`, and the cursor is left behind it.
pub proof fn lemma_int_rows_first_error(lines: Seq<Seq<char>>, i: int, count: int, j: int)
    requires
        0 <= i,
        0 <= j < count,
        forall|k: int| 0 <= k < j ==> int_row_result(#[trigger] line_at(lines, i + k)) is Ok,
        int_row_result(line_at(lines, i + j)) is Err,
    ensures
        int_rows(lines, i, count).0 is Err,
        int_rows(lines, i, count).0->Err_0 == int_row_result(line_at(lines, i + j))->Err_0,
        int_rows(lines, i, count).1 == after_read(lines, i + j),
{
    lemma_int_rows_all(lines, i, j);
    lemma_int_rows_error(lines, i, j + 1, count);
}

/// Rows of reals that all decode are all read, one line each, and their
/// values are joined in order.
pub proof fn lemma_real_rows_all(lines: Seq<Seq<char>>, i: int, count: int)
    requires
        0 <= i,
        0 <= count,
        forall|k: int| 0 <= k < count ==> real_row_result(#[trigger] line_at(lines, i + k)) is Ok,
    ensures
        real_rows(lines, i, count).0 is Ok,
        real_rows(lines, i, count).1 == i + count,
        count > 0 ==> real_rows(lines, i, count).0->Ok_0 == real_rows(lines, i, count - 1).0->Ok_0
            + real_row(line_at(lines, i + count - 1)),
    decreases count,
{
    if count > 0 {
        lemma_real_rows_all(lines, i, count - 1);
        assert(real_row_result(line_at(lines, i + (count - 1))) is Ok);
    }
}

/// The first row of reals that does not decode decides: where the rows
/// before row `j` decode and row `j` does not, the result is the error of
/// row `j`, and the cursor is left behind it.
pub proof fn lemma_real_rows_first_error(lines: Seq<Seq<char>>, i: int, count: int, j: int)
    requires
        0 <= i,
        0 <= j < count,
        forall|k: int| 0 <= k < j ==> real_row_result(#[trigger] line_at(lines, i + k)) is Ok,
        real_row_result(line_at(lines, i + j)) is Err,
    ensures
        real_rows(lines, i, count).0 is Err,
        real_rows(lines, i, count).0->Err_0 == real_row_result(line_at(lines, i + j))->Err_0,
        real_rows(lines, i, count).1 == after_read(lines, i + j),
{
    lemma_real_rows_all(lines, i, j);
    lemma_real_rows_error(lines, i, j + 1, count);
}

/// Rows hold six values at most each: what `count` rows give is no longer
/// than `6 * count`.
pub proof fn lemma_rows_at_most_six_each(lines: Seq<Seq<char>>, i: int, count: int)
    requires
        0 <= count,
    ensures
        int_rows(lines, i, count).0 matches Ok(values) ==> values.len() <= 6 * count,
        real_rows(lines, i, count).0 matches Ok(values) ==> values.len() <= 6 * count,
    decreases count,
{
    if count > 0 {
        lemma_rows_at_most_six_each(lines, i, count - 1);
        lemma_row_at_most_six(line_at(lines, int_rows(lines, i, count - 1).1));
        lemma_row_at_most_six(line_at(lines, real_rows(lines, i, count - 1).1));
    }
}

} // verus!
