//! Tables of pairs, kept in an `ndarray` matrix of two columns.

use vstd::prelude::*;
use crate::number::{literals, Real};

verus! {

/// Pairs of reals `(x, y)`: a matrix with one row for each pair and two columns.
#[verifier::external_body]
#[derive(Debug, PartialEq)]
pub struct PairTable {
    cells: ndarray::Array2<Real>,
}

/// The elements of the matrix, row after row: the element in row `i` and
/// column `j` stands at `2 * i + j`.
pub uninterp spec fn table_cells(t: PairTable) -> Seq<Real>;

/// The number of rows of the matrix.
pub uninterp spec fn table_rows(t: PairTable) -> nat;

/// The pairs that a flat sequence holds: the values at `2 * i` and `2 * i + 1`
/// make pair `i`.
pub open spec fn pairs_of(flat: Seq<Seq<char>>) -> Seq<(Seq<char>, Seq<char>)> {
    Seq::new(flat.len() / 2, |i: int| (flat[2 * i], flat[2 * i + 1]))
}

impl View for PairTable {
    type V = Seq<(Seq<char>, Seq<char>)>;

    open spec fn view(&self) -> Seq<(Seq<char>, Seq<char>)> {
        Seq::new(
            table_rows(*self),
            |i: int| (table_cells(*self)[2 * i]@, table_cells(*self)[2 * i + 1]@),
        )
    }
}

/// `ndarray::Array2::from_shape_vec` with the shape `(rows, 2)`: the vector
/// becomes a matrix of `rows` rows and two columns in row-major order, its
/// elements filling the matrix row after row without being copied. The shape
/// is refused exactly when the vector does not hold `2 * rows` elements.
#[verifier::external_body]
fn array_from_rows(raw: Vec<Real>, rows: usize) -> (r: Option<PairTable>)
    ensures
        r is Some <==> raw@.len() == 2 * rows,
        r matches Some(t) ==> table_cells(t) == raw@ && table_rows(t) == rows,
{
    match ndarray::Array2::from_shape_vec((rows, 2), raw) {
        Ok(cells) => Some(PairTable { cells }),
        Err(_) => None,
    }
}

/// `nrows` of the matrix: the length of its first axis.
#[verifier::external_body]
fn array_rows(t: &PairTable) -> (n: usize)
    ensures
        n == table_rows(*t),
{
    t.cells.nrows()
}

/// `get` of the matrix at `(row, column)`: the element there, or `None` where
/// the row is not one of its rows or the column not one of its two columns.
#[verifier::external_body]
fn array_get(t: &PairTable, row: usize, column: usize) -> (r: Option<&Real>)
    ensures
        r is Some <==> (row < table_rows(*t) && column < 2),
        r matches Some(x) ==> *x == table_cells(*t)[2 * row + column],
{
    t.cells.get((row, column))
}

impl PairTable {
    /// A table of `rows` pairs from their values in order, `x` before `y`;
    /// `None` unless there are `2 * rows` values.
    pub fn new(raw: Vec<Real>, rows: usize) -> (r: Option<PairTable>)
        ensures
            r is Some <==> raw@.len() == 2 * rows,
            r matches Some(t) ==> t@ == pairs_of(literals(raw@)) && t@.len() == rows,
    {
        array_from_rows(raw, rows)
    }

    /// The number of pairs.
    pub fn len(&self) -> (n: usize)
        ensures
            n == self@.len(),
    {
        array_rows(self)
    }

    /// The pair at `i`, or `None` where there are fewer pairs.
    pub fn point(&self, i: usize) -> (r: Option<(&Real, &Real)>)
        ensures
            r is Some <==> i < self@.len(),
            r matches Some(p) ==> p.0@ == self@[i as int].0 && p.1@ == self@[i as int].1,
    {
        match (array_get(self, i, 0), array_get(self, i, 1)) {
            (Some(x), Some(y)) => Some((x, y)),
            _ => None,
        }
    }
}

} // verus!
