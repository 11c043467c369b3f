//! Tabulated functions: TAB1, a function of one variable given by points and
//! interpolation intervals, and TAB2, a sequence of TAB1 with intervals of
//! its own.

use vstd::prelude::*;
use crate::error::ReadError;
use crate::list::{
    int_rows, lemma_int_rows_consumed, lemma_int_rows_same_from, lemma_real_rows_consumed,
    lemma_real_rows_same_from, lemma_rows_at_most_six_each, lemma_rows_for, read_int_rows,
    read_real_rows, real_rows, row_count, rows_for,
};
use crate::number::Real;
use crate::record::{cont_result, parse_cont_record};
use crate::source::{after_read, lemma_same_from_step, line_at, same_from, Source};
use crate::table::{pairs_of, PairTable};

verus! {

/// The interpolation schemes: how a function runs between two of its points.
#[derive(Debug, Clone, Copy, PartialEq, Eq, Structural)]
pub enum InterpolationScheme {
    /// y is constant in x
    ConstantHistogram,
    /// y is linear in x
    LinearLinear,
    /// y is linear in ln(x)
    LinearLog,
    /// ln(y) is linear in x
    LogLinear,
    /// ln(y) is linear in ln(x)
    LogLog,
    /// the law for charged-particle cross sections
    Special,
}

impl InterpolationScheme {
    /// The scheme that a code stands for: 1 to 6 stand for the six schemes in
    /// order, every other code for none.
    pub open spec fn of_code(x: int) -> Option<InterpolationScheme> {
        if x == 1 {
            Some(InterpolationScheme::ConstantHistogram)
        } else if x == 2 {
            Some(InterpolationScheme::LinearLinear)
        } else if x == 3 {
            Some(InterpolationScheme::LinearLog)
        } else if x == 4 {
            Some(InterpolationScheme::LogLinear)
        } else if x == 5 {
            Some(InterpolationScheme::LogLog)
        } else if x == 6 {
            Some(InterpolationScheme::Special)
        } else {
            None
        }
    }

    /// The code that stands for the scheme.
    pub open spec fn code(self) -> int {
        match self {
            InterpolationScheme::ConstantHistogram => 1,
            InterpolationScheme::LinearLinear => 2,
            InterpolationScheme::LinearLog => 3,
            InterpolationScheme::LogLinear => 4,
            InterpolationScheme::LogLog => 5,
            InterpolationScheme::Special => 6,
        }
    }

    /// What `try_from` returns for a code.
    pub open spec fn try_from_result(x: int) -> Result<InterpolationScheme, ReadError> {
        match Self::of_code(x) {
            Some(scheme) => Ok(scheme),
            None => Err(ReadError::InvalidInterpolation),
        }
    }

    /// The scheme that the code `x` stands for; `InvalidInterpolation` for a
    /// code that stands for none.
    pub fn try_from(x: i32) -> (r: Result<InterpolationScheme, ReadError>)
        ensures
            r == Self::try_from_result(x as int),
    {
        match x {
            1 => Ok(InterpolationScheme::ConstantHistogram),
            2 => Ok(InterpolationScheme::LinearLinear),
            3 => Ok(InterpolationScheme::LinearLog),
            4 => Ok(InterpolationScheme::LogLinear),
            5 => Ok(InterpolationScheme::LogLog),
            6 => Ok(InterpolationScheme::Special),
            _ => Err(ReadError::InvalidInterpolation),
        }
    }

    /// A scheme and its code stand for each other.
    pub proof fn lemma_code_round_trip(self)
        ensures
            Self::of_code(self.code()) == Some(self),
            1 <= self.code() <= 6,
    {
    }

    /// The scheme of a code has that code.
    pub proof fn lemma_of_code_code(x: int)
        requires
            Self::of_code(x) is Some,
        ensures
            Self::of_code(x)->0.code() == x,
    {
    }
}

impl From<InterpolationScheme> for i32 {
    fn from(scheme: InterpolationScheme) -> (code: i32) {
        match scheme {
            InterpolationScheme::ConstantHistogram => 1,
            InterpolationScheme::LinearLinear => 2,
            InterpolationScheme::LinearLog => 3,
            InterpolationScheme::LogLinear => 4,
            InterpolationScheme::LogLog => 5,
            InterpolationScheme::Special => 6,
        }
    }
}

impl vstd::std_specs::convert::FromSpecImpl<InterpolationScheme> for i32 {
    open spec fn obeys_from_spec() -> bool {
        true
    }

    open spec fn from_spec(scheme: InterpolationScheme) -> i32 {
        scheme.code() as i32
    }
}

/// A stretch of points, or of slices, with the scheme that holds on it.
#[derive(Debug, Clone, Copy, PartialEq, Eq, Structural)]
pub struct InterpolationInterval {
    /// Scheme used on the interval
    pub scheme: InterpolationScheme,
    /// Lower bound, inclusive
    pub start: usize,
    /// Upper bound, exclusive
    pub end: usize,
}

/// The bound that an integer of an interval header stands for. A negative
/// integer is no bound of well-formed data; it wraps around, as a cast does.
pub open spec fn bound_of(b: i32) -> usize {
    b as usize
}

/// An integer that is not negative stands for itself as a bound.
pub proof fn lemma_bound_of(b: i32)
    requires
        b >= 0,
    ensures
        bound_of(b) == b,
{
}

/// The boundary of pair `i` of a flat interval header.
pub open spec fn boundary_at(flat: Seq<i32>, i: int) -> i32 {
    flat[2 * i]
}

/// The scheme code of pair `i` of a flat interval header.
pub open spec fn code_at(flat: Seq<i32>, i: int) -> i32 {
    flat[2 * i + 1]
}

/// Interval `i` of a flat interval header: it ends at the boundary of pair
/// `i` and starts where the interval before it ends, the first at 0.
pub open spec fn interval_at(flat: Seq<i32>, i: int) -> InterpolationInterval {
    InterpolationInterval {
        scheme: InterpolationScheme::of_code(code_at(flat, i) as int)->0,
        start: if i == 0 {
            0
        } else {
            bound_of(boundary_at(flat, i - 1))
        },
        end: bound_of(boundary_at(flat, i)),
    }
}

/// The intervals of a flat interval header, one for each pair
/// `(boundary, scheme code)`.
pub open spec fn intervals_of(flat: Seq<i32>) -> Seq<InterpolationInterval> {
    Seq::new(flat.len() / 2, |i: int| interval_at(flat, i))
}

/// Every scheme code of a flat interval header stands for a scheme.
pub open spec fn codes_known(flat: Seq<i32>) -> bool {
    forall|i: int|
        0 <= i < flat.len() / 2 ==> InterpolationScheme::of_code(
            #[trigger] code_at(flat, i) as int,
        ) is Some
}

/// The intervals of a flat interval header lie one behind the other: the
/// first starts at 0, each of the others where the one before it ends, and
/// each ends at the boundary of its pair.
pub proof fn lemma_intervals_contiguous(flat: Seq<i32>)
    ensures
        intervals_of(flat).len() == flat.len() / 2,
        intervals_of(flat).len() > 0 ==> intervals_of(flat)[0].start == 0,
        forall|i: int, j: int|
            0 <= i && j == i + 1 && j < intervals_of(flat).len() ==> (
            #[trigger] intervals_of(flat)[j]).start == (#[trigger] intervals_of(flat)[i]).end,
        forall|i: int|
            0 <= i < intervals_of(flat).len() ==> (#[trigger] intervals_of(flat)[i]).end
                == bound_of(boundary_at(flat, i)),
        forall|i: int|
            0 <= i < intervals_of(flat).len() && codes_known(flat) ==> (
            #[trigger] intervals_of(flat)[i]).scheme.code() == code_at(flat, i),
{
}

/// What converting a flat interval header gives.
pub open spec fn intervals_result(flat: Seq<i32>) -> Result<Seq<InterpolationInterval>, ReadError> {
    if codes_known(flat) {
        Ok(intervals_of(flat))
    } else {
        Err(ReadError::InvalidInterpolation)
    }
}

/// Converted intervals as a sequence.
pub open spec fn intervals_view(r: Result<Vec<InterpolationInterval>, ReadError>) -> Result<
    Seq<InterpolationInterval>,
    ReadError,
> {
    match r {
        Ok(v) => Ok(v@),
        Err(e) => Err(e),
    }
}

impl InterpolationInterval {
    /// Converts a flat interval header, pairs `(boundary, scheme code)` one
    /// after another, into intervals.
    ///
    /// Each pair gives one interval, which ends at the boundary and starts
    /// where the one before it ends, the first at 0. A code that stands for
    /// no scheme is `InvalidInterpolation`. A last integer without a partner
    /// is left out.
    pub fn from_pairs(flat: &Vec<i32>) -> (r: Result<Vec<InterpolationInterval>, ReadError>)
        ensures
            intervals_view(r) == intervals_result(flat@),
    {
        let count = flat.len() / 2;
        let mut intervals: Vec<InterpolationInterval> = Vec::new();
        let mut prev: usize = 0;
        let mut i: usize = 0;
        while i < count
            invariant
                i <= count == flat.len() / 2,
                intervals@ == Seq::new(i as nat, |k: int| interval_at(flat@, k)),
                forall|k: int|
                    0 <= k < i ==> InterpolationScheme::of_code(
                        #[trigger] code_at(flat@, k) as int,
                    ) is Some,
                prev == if i == 0 {
                    0
                } else {
                    bound_of(boundary_at(flat@, i - 1))
                },
            decreases count - i,
        {
            let boundary = flat[2 * i];
            let code = flat[2 * i + 1];
            assert(code == code_at(flat@, i as int));
            let scheme = match InterpolationScheme::try_from(code) {
                Ok(scheme) => scheme,
                Err(e) => {
                    return Err(e);
                },
            };
            let end = #[verifier::truncate] (boundary as usize);
            intervals.push(InterpolationInterval { scheme, start: prev, end });
            prev = end;
            i += 1;
        }
        Ok(intervals)
    }
}

/// TAB1: a function of one variable, given by points `(x, y)` and the
/// intervals that say how to interpolate between them.
#[derive(Debug)]
pub struct Tab1 {
    /// The first four fields of the header `(C1, C2, L1, L2)`
    pub head: (Real, Real, i32, i32),
    /// The interpolation intervals, over the points
    pub intervals: Vec<InterpolationInterval>,
    /// The points, one pair `(x, y)` each
    pub data: PairTable,
}

/// What a `Tab1` holds, its reals as literals.
pub struct Tab1View {
    pub head: (Seq<char>, Seq<char>, i32, i32),
    pub intervals: Seq<InterpolationInterval>,
    pub data: Seq<(Seq<char>, Seq<char>)>,
}

impl View for Tab1 {
    type V = Tab1View;

    open spec fn view(&self) -> Tab1View {
        Tab1View {
            head: (self.head.0@, self.head.1@, self.head.2, self.head.3),
            intervals: self.intervals@,
            data: self.data@,
        }
    }
}

/// What decoding a TAB1 from position `i` gives, and where it leaves the
/// cursor.
///
/// The record at `i` is the header, a CONT record whose last two integers
/// are the number of intervals `NR` and the number of points `NP`; a negative
/// one is `InvalidElementCount`. The rows that carry `2 * NR` integers
/// follow; they must hold exactly `2 * NR`, else `InvalidElementCount`, and
/// every scheme code among them must be known, else `InvalidInterpolation`.
/// The rows that carry `2 * NP` reals follow; they must hold exactly
/// `2 * NP`, else `InvalidElementCount`. The first error ends the decoding,
/// the cursor behind the last record read.
pub open spec fn tab1_decode(lines: Seq<Seq<char>>, i: int) -> (Result<Tab1View, ReadError>, int) {
    let p = after_read(lines, i);
    match cont_result(line_at(lines, i)) {
        Err(e) => (Err(e), p),
        Ok(header) => {
            let nr = header.4 as int;
            let np = header.5 as int;
            let ranges = int_rows(lines, p, rows_for(2 * nr));
            let points = real_rows(lines, ranges.1, rows_for(2 * np));
            if nr < 0 || np < 0 {
                (Err(ReadError::InvalidElementCount), p)
            } else {
                match ranges.0 {
                    Err(e) => (Err(e), ranges.1),
                    Ok(flat) => if flat.len() != 2 * nr {
                        (Err(ReadError::InvalidElementCount), ranges.1)
                    } else if !codes_known(flat) {
                        (Err(ReadError::InvalidInterpolation), ranges.1)
                    } else {
                        match points.0 {
                            Err(e) => (Err(e), points.1),
                            Ok(reals) => if reals.len() != 2 * np {
                                (Err(ReadError::InvalidElementCount), points.1)
                            } else {
                                (
                                    Ok(
                                        Tab1View {
                                            head: (header.0, header.1, header.2, header.3),
                                            intervals: intervals_of(flat),
                                            data: pairs_of(reals),
                                        },
                                    ),
                                    points.1,
                                )
                            },
                        }
                    },
                }
            }
        },
    }
}

/// A decoded `Tab1` as what it holds.
pub open spec fn tab1_view(r: Result<Tab1, ReadError>) -> Result<Tab1View, ReadError> {
    match r {
        Ok(t) => Ok(t@),
        Err(e) => Err(e),
    }
}

impl Tab1 {
    /// Decodes a TAB1 whose header is the next record of the source.
    ///
    /// The header gives the number of intervals `NR` and of points `NP`. The
    /// intervals are read from the rows that carry `2 * NR` integers, the
    /// points from the rows that carry `2 * NP` reals. The first record that
    /// does not decode ends the decoding with its error. Rows that hold
    /// another number of values than the header says, or a negative number in
    /// the header, are `InvalidElementCount`; a scheme code that is not known
    /// is `InvalidInterpolation`.
    pub fn read_from(source: &mut Source) -> (r: Result<Tab1, ReadError>)
        ensures
            final(source).lines() == old(source).lines(),
            tab1_view(r) == tab1_decode(old(source).lines(), old(source).position()).0,
            final(source).position() == tab1_decode(
                old(source).lines(),
                old(source).position(),
            ).1,
    {
        let line = source.read_record();
        let (c1, c2, l1, l2, nr, np) = match parse_cont_record(line.as_str()) {
            Ok(header) => header,
            Err(e) => {
                return Err(e);
            },
        };
        if nr < 0 || np < 0 {
            return Err(ReadError::InvalidElementCount);
        }
        let range_count = nr as usize;
        let point_count = np as usize;
        let flat = match read_int_rows(source, row_count(2 * range_count)) {
            Ok(flat) => flat,
            Err(e) => {
                return Err(e);
            },
        };
        if flat.len() != 2 * range_count {
            return Err(ReadError::InvalidElementCount);
        }
        let intervals = match InterpolationInterval::from_pairs(&flat) {
            Ok(intervals) => intervals,
            Err(e) => {
                return Err(e);
            },
        };
        let raw = match read_real_rows(source, row_count(2 * point_count)) {
            Ok(raw) => raw,
            Err(e) => {
                return Err(e);
            },
        };
        if raw.len() != 2 * point_count {
            return Err(ReadError::InvalidElementCount);
        }
        match PairTable::new(raw, point_count) {
            Some(data) => Ok(Tab1 { head: (c1, c2, l1, l2), intervals, data }),
            None => Err(ReadError::InvalidElementCount),
        }
    }
}

/// What the `Tab1` of a sequence hold, in order.
pub open spec fn tab1_views(v: Seq<Tab1>) -> Seq<Tab1View> {
    v.map_values(|t: Tab1| t@)
}

/// What decoding `count` TAB1 one after another from position `i` gives, and
/// where it leaves the cursor. The first that does not decode ends the
/// decoding with its error.
pub open spec fn tab1_sequence(lines: Seq<Seq<char>>, i: int, count: int) -> (
    Result<Seq<Tab1View>, ReadError>,
    int,
)
    decreases count,
{
    if count <= 0 {
        (Ok(Seq::empty()), i)
    } else {
        let (before, p) = tab1_sequence(lines, i, count - 1);
        match before {
            Err(e) => (Err(e), p),
            Ok(tables) => match tab1_decode(lines, p).0 {
                Err(e) => (Err(e), tab1_decode(lines, p).1),
                Ok(t) => (Ok(tables.push(t)), tab1_decode(lines, p).1),
            },
        }
    }
}

/// TAB2: a function of two variables, given by TAB1 slices and the intervals
/// that say how to interpolate between them.
#[derive(Debug)]
pub struct Tab2 {
    /// The first four fields of the header `(C1, C2, L1, L2)`
    pub head: (Real, Real, i32, i32),
    /// The interpolation intervals, over the slices
    pub intervals: Vec<InterpolationInterval>,
    /// The slices
    pub data: Vec<Tab1>,
}

/// What a `Tab2` holds, its reals as literals.
pub struct Tab2View {
    pub head: (Seq<char>, Seq<char>, i32, i32),
    pub intervals: Seq<InterpolationInterval>,
    pub data: Seq<Tab1View>,
}

impl View for Tab2 {
    type V = Tab2View;

    open spec fn view(&self) -> Tab2View {
        Tab2View {
            head: (self.head.0@, self.head.1@, self.head.2, self.head.3),
            intervals: self.intervals@,
            data: tab1_views(self.data@),
        }
    }
}

/// What decoding a TAB2 from position `i` gives, and where it leaves the
/// cursor.
///
/// The record at `i` is the header, a CONT record whose last two integers
/// are the number of intervals `NR` and the number of slices `NZ`; a negative
/// one is `InvalidElementCount`. The rows that carry `NR` integers follow;
/// they must hold exactly `2 * NR`, else `InvalidElementCount`, and every
/// scheme code among them must be known, else `InvalidInterpolation`. Then
/// `NZ` TAB1 follow. The first error ends the decoding, the cursor behind the
/// last record read.
pub open spec fn tab2_decode(lines: Seq<Seq<char>>, i: int) -> (Result<Tab2View, ReadError>, int) {
    let p = after_read(lines, i);
    match cont_result(line_at(lines, i)) {
        Err(e) => (Err(e), p),
        Ok(header) => {
            let nr = header.4 as int;
            let nz = header.5 as int;
            let ranges = int_rows(lines, p, rows_for(nr));
            let slices = tab1_sequence(lines, ranges.1, nz);
            if nr < 0 || nz < 0 {
                (Err(ReadError::InvalidElementCount), p)
            } else {
                match ranges.0 {
                    Err(e) => (Err(e), ranges.1),
                    Ok(flat) => if flat.len() != 2 * nr {
                        (Err(ReadError::InvalidElementCount), ranges.1)
                    } else if !codes_known(flat) {
                        (Err(ReadError::InvalidInterpolation), ranges.1)
                    } else {
                        match slices.0 {
                            Err(e) => (Err(e), slices.1),
                            Ok(tables) => (
                                Ok(
                                    Tab2View {
                                        head: (header.0, header.1, header.2, header.3),
                                        intervals: intervals_of(flat),
                                        data: tables,
                                    },
                                ),
                                slices.1,
                            ),
                        }
                    },
                }
            }
        },
    }
}

/// A decoded `Tab2` as what it holds.
pub open spec fn tab2_view(r: Result<Tab2, ReadError>) -> Result<Tab2View, ReadError> {
    match r {
        Ok(t) => Ok(t@),
        Err(e) => Err(e),
    }
}

/// Decoded `Tab1` as what they hold.
pub open spec fn tab1_sequence_view(r: Result<Vec<Tab1>, ReadError>) -> Result<
    Seq<Tab1View>,
    ReadError,
> {
    match r {
        Ok(v) => Ok(tab1_views(v@)),
        Err(e) => Err(e),
    }
}

/// Once a TAB1 has failed, decoding further ones changes nothing.
proof fn lemma_tab1_sequence_error(lines: Seq<Seq<char>>, i: int, failed: int, count: int)
    requires
        0 < failed <= count,
        tab1_sequence(lines, i, failed).0 is Err,
    ensures
        tab1_sequence(lines, i, count) == tab1_sequence(lines, i, failed),
    decreases count - failed,
{
    if failed < count {
        lemma_tab1_sequence_error(lines, i, failed, count - 1);
    }
}

/// Decodes `count` TAB1 one after another. The first that does not decode
/// ends the decoding with its error.
pub fn read_tab1_sequence(source: &mut Source, count: usize) -> (r: Result<Vec<Tab1>, ReadError>)
    ensures
        final(source).lines() == old(source).lines(),
        tab1_sequence_view(r) == tab1_sequence(
            old(source).lines(),
            old(source).position(),
            count as int,
        ).0,
        final(source).position() == tab1_sequence(
            old(source).lines(),
            old(source).position(),
            count as int,
        ).1,
{
    let ghost lines = source.lines();
    let ghost start = source.position();
    let mut tables: Vec<Tab1> = Vec::new();
    let mut done: usize = 0;
    assert(tab1_views(tables@) == Seq::<Tab1View>::empty());
    while done < count
        invariant
            done <= count,
            source.lines() == lines,
            lines == old(source).lines(),
            start == old(source).position(),
            tab1_sequence(lines, start, done as int) == (
                Ok::<Seq<Tab1View>, ReadError>(tab1_views(tables@)),
                source.position(),
            ),
        decreases count - done,
    {
        let ghost before = tables@;
        match Tab1::read_from(source) {
            Err(e) => {
                proof {
                    lemma_tab1_sequence_error(lines, start, done + 1, count as int);
                }
                return Err(e);
            },
            Ok(t) => {
                tables.push(t);
                assert(tab1_views(tables@) == tab1_views(before).push(t@));
            },
        }
        done += 1;
    }
    Ok(tables)
}

impl Tab2 {
    /// Decodes a TAB2 whose header is the next record of the source.
    ///
    /// The header gives the number of intervals `NR` and of slices `NZ`. The
    /// intervals are read from the rows that carry `NR` integers, and must be
    /// `NR` pairs; then `NZ` TAB1 are decoded. The first record that does not
    /// decode ends the decoding with its error. Rows that hold another number
    /// of integers than `2 * NR`, or a negative number in the header, are
    /// `InvalidElementCount`; a scheme code that is not known is
    /// `InvalidInterpolation`.
    pub fn read_from(source: &mut Source) -> (r: Result<Tab2, ReadError>)
        ensures
            final(source).lines() == old(source).lines(),
            tab2_view(r) == tab2_decode(old(source).lines(), old(source).position()).0,
            final(source).position() == tab2_decode(
                old(source).lines(),
                old(source).position(),
            ).1,
    {
        let line = source.read_record();
        let (c1, c2, l1, l2, nr, nz) = match parse_cont_record(line.as_str()) {
            Ok(header) => header,
            Err(e) => {
                return Err(e);
            },
        };
        if nr < 0 || nz < 0 {
            return Err(ReadError::InvalidElementCount);
        }
        let range_count = nr as usize;
        let slice_count = nz as usize;
        let flat = match read_int_rows(source, row_count(range_count)) {
            Ok(flat) => flat,
            Err(e) => {
                return Err(e);
            },
        };
        if flat.len() != 2 * range_count {
            return Err(ReadError::InvalidElementCount);
        }
        let intervals = match InterpolationInterval::from_pairs(&flat) {
            Ok(intervals) => intervals,
            Err(e) => {
                return Err(e);
            },
        };
        match read_tab1_sequence(source, slice_count) {
            Ok(data) => Ok(Tab2 { head: (c1, c2, l1, l2), intervals, data }),
            Err(e) => Err(e),
        }
    }
}

/// The header of a table: what the CONT record at position `i` decodes to.
pub open spec fn header_at(lines: Seq<Seq<char>>, i: int) -> Result<
    (Seq<char>, Seq<char>, i32, i32, i32, i32),
    ReadError,
> {
    cont_result(line_at(lines, i))
}

/// A TAB1 that decodes has as many intervals and points as its header says,
/// and took one line for the header, the lines that carry `2 * NR` integers
/// and the lines that carry `2 * NP` reals. Decoded or not, the cursor stays
/// in range and never moves back.
pub proof fn lemma_tab1_consumed(lines: Seq<Seq<char>>, i: int)
    requires
        0 <= i <= lines.len(),
    ensures
        i <= tab1_decode(lines, i).1 <= lines.len(),
        tab1_decode(lines, i).0 matches Ok(t) ==> {
            let nr = header_at(lines, i)->Ok_0.4 as int;
            let np = header_at(lines, i)->Ok_0.5 as int;
            &&& header_at(lines, i) is Ok
            &&& 0 <= nr == t.intervals.len()
            &&& 0 <= np == t.data.len()
            &&& int_rows(lines, i + 1, rows_for(2 * nr)).1 == i + 1 + rows_for(2 * nr)
            &&& tab1_decode(lines, i).1 == i + 1 + rows_for(2 * nr) + rows_for(2 * np)
        },
{
    let p = after_read(lines, i);
    match cont_result(line_at(lines, i)) {
        Err(_) => {},
        Ok(header) => {
            let nr = header.4 as int;
            let np = header.5 as int;
            if nr >= 0 && np >= 0 {
                lemma_int_rows_consumed(lines, p, rows_for(2 * nr));
                let ranges = int_rows(lines, p, rows_for(2 * nr));
                lemma_real_rows_consumed(lines, ranges.1, rows_for(2 * np));
            }
        },
    }
}

/// Decoding a TAB1 depends only on the lines from the cursor on: sources
/// that agree from their cursors on give the same result, decoded as often
/// as one likes, and move their cursors by the same number of lines.
pub proof fn lemma_tab1_same_from(
    lines1: Seq<Seq<char>>,
    i1: int,
    lines2: Seq<Seq<char>>,
    i2: int,
)
    requires
        same_from(lines1, i1, lines2, i2),
    ensures
        tab1_decode(lines1, i1).0 == tab1_decode(lines2, i2).0,
        tab1_decode(lines1, i1).1 - i1 == tab1_decode(lines2, i2).1 - i2,
        same_from(lines1, tab1_decode(lines1, i1).1, lines2, tab1_decode(lines2, i2).1),
{
    lemma_same_from_step(lines1, i1, lines2, i2, 0);
    let here1 = after_read(lines1, i1);
    let here2 = after_read(lines2, i2);
    lemma_same_from_step(lines1, i1, lines2, i2, here1 - i1);
    match cont_result(line_at(lines1, i1)) {
        Err(_) => {},
        Ok(header) => {
            let nr = header.4 as int;
            let np = header.5 as int;
            if nr >= 0 && np >= 0 {
                lemma_int_rows_same_from(lines1, here1, lines2, here2, rows_for(2 * nr));
                let then1 = int_rows(lines1, here1, rows_for(2 * nr)).1;
                let then2 = int_rows(lines2, here2, rows_for(2 * nr)).1;
                lemma_real_rows_same_from(lines1, then1, lines2, then2, rows_for(2 * np));
            }
        },
    }
}

/// An interval header that holds another number of integers than twice the
/// number of intervals makes the TAB1 `InvalidElementCount`: no shorter list
/// of intervals is ever returned.
pub proof fn lemma_tab1_interval_count(
    lines: Seq<Seq<char>>,
    i: int,
    header: (Seq<char>, Seq<char>, i32, i32, i32, i32),
    flat: Seq<i32>,
)
    requires
        header_at(lines, i) == Ok::<_, ReadError>(header),
        header.4 >= 0,
        header.5 >= 0,
        int_rows(lines, after_read(lines, i), rows_for(2 * header.4)).0 == Ok::<_, ReadError>(flat),
        flat.len() != 2 * header.4,
    ensures
        tab1_decode(lines, i).0 == Err::<Tab1View, _>(ReadError::InvalidElementCount),
{
}

/// A scheme code that is not known, in an interval header that is otherwise
/// as the header of the table says, makes the TAB1 `InvalidInterpolation`.
pub proof fn lemma_tab1_unknown_code(
    lines: Seq<Seq<char>>,
    i: int,
    header: (Seq<char>, Seq<char>, i32, i32, i32, i32),
    flat: Seq<i32>,
    k: int,
)
    requires
        header_at(lines, i) == Ok::<_, ReadError>(header),
        header.4 >= 0,
        header.5 >= 0,
        int_rows(lines, after_read(lines, i), rows_for(2 * header.4)).0 == Ok::<_, ReadError>(flat),
        flat.len() == 2 * header.4,
        0 <= k < header.4,
        InterpolationScheme::of_code(code_at(flat, k) as int) is None,
    ensures
        tab1_decode(lines, i).0 == Err::<Tab1View, _>(ReadError::InvalidInterpolation),
{
}

/// The values of pairs, one after another: `x` then `y` of each.
pub open spec fn flat_of(pairs: Seq<(Seq<char>, Seq<char>)>) -> Seq<Seq<char>> {
    Seq::new(
        2 * pairs.len(),
        |j: int|
            if j % 2 == 0 {
                pairs[j / 2].0
            } else {
                pairs[j / 2].1
            },
    )
}

/// The pairs of the values of pairs are those pairs.
pub proof fn lemma_pairs_of_flat(pairs: Seq<(Seq<char>, Seq<char>)>)
    ensures
        pairs_of(flat_of(pairs)) == pairs,
{
}

/// A TAB1 with one linear-linear interval over all its points decodes to that
/// interval and to its points in order: where the header says one interval
/// and as many points as there are pairs, the interval header holds the
/// number of points and the code 2, and the rows of reals hold the values of
/// the pairs one after another, the result is the interval from 0 to the
/// number of points, and the pairs.
pub proof fn lemma_tab1_single_interval(
    lines: Seq<Seq<char>>,
    i: int,
    header: (Seq<char>, Seq<char>, i32, i32, i32, i32),
    pairs: Seq<(Seq<char>, Seq<char>)>,
)
    requires
        header_at(lines, i) == Ok::<_, ReadError>(header),
        header.4 == 1,
        header.5 == pairs.len(),
        int_rows(lines, after_read(lines, i), 1).0 == Ok::<_, ReadError>(seq![header.5, 2i32]),
        real_rows(
            lines,
            int_rows(lines, after_read(lines, i), 1).1,
            rows_for(2 * header.5),
        ).0 == Ok::<_, ReadError>(flat_of(pairs)),
    ensures
        tab1_decode(lines, i).0 == Ok::<_, ReadError>(
            Tab1View {
                head: (header.0, header.1, header.2, header.3),
                intervals: seq![
                    InterpolationInterval {
                        scheme: InterpolationScheme::LinearLinear,
                        start: 0,
                        end: header.5 as usize,
                    },
                ],
                data: pairs,
            },
        ),
{
    let flat = seq![header.5, 2i32];
    assert(intervals_of(flat) =~= seq![
        InterpolationInterval {
            scheme: InterpolationScheme::LinearLinear,
            start: 0,
            end: header.5 as usize,
        },
    ]);
    lemma_pairs_of_flat(pairs);
}

/// Decoding TAB1 one after another never moves the cursor out of range or
/// back.
pub proof fn lemma_tab1_sequence_consumed(lines: Seq<Seq<char>>, i: int, count: int)
    requires
        0 <= i <= lines.len(),
        0 <= count,
    ensures
        i <= tab1_sequence(lines, i, count).1 <= lines.len(),
        tab1_sequence(lines, i, count).0 matches Ok(tables) ==> tables.len() == count,
    decreases count,
{
    if count > 0 {
        lemma_tab1_sequence_consumed(lines, i, count - 1);
        lemma_tab1_consumed(lines, tab1_sequence(lines, i, count - 1).1);
    }
}

/// Decoding TAB1 one after another depends only on the lines from the cursor on.
pub proof fn lemma_tab1_sequence_same_from(
    lines1: Seq<Seq<char>>,
    i1: int,
    lines2: Seq<Seq<char>>,
    i2: int,
    count: int,
)
    requires
        same_from(lines1, i1, lines2, i2),
        0 <= count,
    ensures
        tab1_sequence(lines1, i1, count).0 == tab1_sequence(lines2, i2, count).0,
        tab1_sequence(lines1, i1, count).1 - i1 == tab1_sequence(lines2, i2, count).1 - i2,
        same_from(
            lines1,
            tab1_sequence(lines1, i1, count).1,
            lines2,
            tab1_sequence(lines2, i2, count).1,
        ),
    decreases count,
{
    if count > 0 {
        lemma_tab1_sequence_same_from(lines1, i1, lines2, i2, count - 1);
        lemma_tab1_same_from(
            lines1,
            tab1_sequence(lines1, i1, count - 1).1,
            lines2,
            tab1_sequence(lines2, i2, count - 1).1,
        );
    }
}

/// A TAB2 that decodes has as many intervals and slices as its header says.
/// Decoded or not, the cursor stays in range and never moves back.
pub proof fn lemma_tab2_consumed(lines: Seq<Seq<char>>, i: int)
    requires
        0 <= i <= lines.len(),
    ensures
        i <= tab2_decode(lines, i).1 <= lines.len(),
        tab2_decode(lines, i).0 matches Ok(t) ==> {
            let nr = header_at(lines, i)->Ok_0.4 as int;
            let nz = header_at(lines, i)->Ok_0.5 as int;
            &&& header_at(lines, i) is Ok
            &&& 0 <= nr == t.intervals.len()
            &&& 0 <= nz == t.data.len()
            &&& int_rows(lines, i + 1, rows_for(nr)).1 == i + 1 + rows_for(nr)
        },
{
    let p = after_read(lines, i);
    match cont_result(line_at(lines, i)) {
        Err(_) => {},
        Ok(header) => {
            let nr = header.4 as int;
            let nz = header.5 as int;
            if nr >= 0 && nz >= 0 {
                lemma_int_rows_consumed(lines, p, rows_for(nr));
                let ranges = int_rows(lines, p, rows_for(nr));
                lemma_tab1_sequence_consumed(lines, ranges.1, nz);
            }
        },
    }
}

/// Decoding a TAB2 depends only on the lines from the cursor on: sources
/// that agree from their cursors on give the same result, decoded as often
/// as one likes, and move their cursors by the same number of lines.
pub proof fn lemma_tab2_same_from(
    lines1: Seq<Seq<char>>,
    i1: int,
    lines2: Seq<Seq<char>>,
    i2: int,
)
    requires
        same_from(lines1, i1, lines2, i2),
    ensures
        tab2_decode(lines1, i1).0 == tab2_decode(lines2, i2).0,
        tab2_decode(lines1, i1).1 - i1 == tab2_decode(lines2, i2).1 - i2,
{
    lemma_same_from_step(lines1, i1, lines2, i2, 0);
    let here1 = after_read(lines1, i1);
    let here2 = after_read(lines2, i2);
    lemma_same_from_step(lines1, i1, lines2, i2, here1 - i1);
    match cont_result(line_at(lines1, i1)) {
        Err(_) => {},
        Ok(header) => {
            let nr = header.4 as int;
            let nz = header.5 as int;
            if nr >= 0 && nz >= 0 {
                lemma_int_rows_same_from(lines1, here1, lines2, here2, rows_for(nr));
                let then1 = int_rows(lines1, here1, rows_for(nr)).1;
                let then2 = int_rows(lines2, here2, rows_for(nr)).1;
                lemma_tab1_sequence_same_from(lines1, then1, lines2, then2, nz);
            }
        },
    }
}

/// A TAB2 that decodes holds what its records hold: the first four fields of
/// its header, the intervals of the integers read from the lines that carry
/// `NR` integers, which are `NR` pairs, and the `NZ` TAB1 that follow them,
/// in order.
pub proof fn lemma_tab2_contents(lines: Seq<Seq<char>>, i: int)
    requires
        0 <= i <= lines.len(),
        tab2_decode(lines, i).0 is Ok,
    ensures
        ({
            let t = tab2_decode(lines, i).0->Ok_0;
            let header = header_at(lines, i)->Ok_0;
            let ranges = int_rows(lines, i + 1, rows_for(header.4 as int));
            let slices = tab1_sequence(lines, ranges.1, header.5 as int);
            &&& header_at(lines, i) is Ok
            &&& t.head == (header.0, header.1, header.2, header.3)
            &&& ranges.0 is Ok
            &&& ranges.0->Ok_0.len() == 2 * header.4
            &&& t.intervals == intervals_of(ranges.0->Ok_0)
            &&& codes_known(ranges.0->Ok_0)
            &&& slices.0 is Ok
            &&& t.data == slices.0->Ok_0
            &&& tab2_decode(lines, i).1 == slices.1
        }),
{
}

/// An interval header that holds another number of integers than twice the
/// number of intervals makes the TAB2 `InvalidElementCount`.
pub proof fn lemma_tab2_interval_count(
    lines: Seq<Seq<char>>,
    i: int,
    header: (Seq<char>, Seq<char>, i32, i32, i32, i32),
    flat: Seq<i32>,
)
    requires
        header_at(lines, i) == Ok::<_, ReadError>(header),
        header.4 >= 0,
        header.5 >= 0,
        int_rows(lines, after_read(lines, i), rows_for(header.4 as int)).0 == Ok::<_, ReadError>(
            flat,
        ),
        flat.len() != 2 * header.4,
    ensures
        tab2_decode(lines, i).0 == Err::<Tab2View, _>(ReadError::InvalidElementCount),
{
}

/// A scheme code that is not known, in an interval header that is otherwise
/// as the header of the table says, makes the TAB2 `InvalidInterpolation`.
pub proof fn lemma_tab2_unknown_code(
    lines: Seq<Seq<char>>,
    i: int,
    header: (Seq<char>, Seq<char>, i32, i32, i32, i32),
    flat: Seq<i32>,
    k: int,
)
    requires
        header_at(lines, i) == Ok::<_, ReadError>(header),
        header.4 >= 0,
        header.5 >= 0,
        int_rows(lines, after_read(lines, i), rows_for(header.4 as int)).0 == Ok::<_, ReadError>(
            flat,
        ),
        flat.len() == 2 * header.4,
        0 <= k < header.4,
        InterpolationScheme::of_code(code_at(flat, k) as int) is None,
    ensures
        tab2_decode(lines, i).0 == Err::<Tab2View, _>(ReadError::InvalidInterpolation),
{
}

/// A slice that does not decode makes the TAB2 fail with the error of that
/// slice: no TAB2 is returned with fewer slices than its header says.
pub proof fn lemma_tab2_slice_error(lines: Seq<Seq<char>>, i: int)
    requires
        0 <= i <= lines.len(),
        header_at(lines, i) is Ok,
    ensures
        ({
            let header = header_at(lines, i)->Ok_0;
            let ranges = int_rows(lines, i + 1, rows_for(header.4 as int));
            let slices = tab1_sequence(lines, ranges.1, header.5 as int);
            header.4 >= 0 && header.5 >= 0 && ranges.0 is Ok && ranges.0->Ok_0.len() == 2 * header.4
                && codes_known(ranges.0->Ok_0) && slices.0 is Err ==> tab2_decode(lines, i).0
                is Err && tab2_decode(lines, i).0->Err_0 == slices.0->Err_0
        }),
{
}

/// The interval header of a TAB2 is read from the lines that carry `NR`
/// integers, and must hold `2 * NR`. Six integers at most stand on a line,
/// so a TAB2 with more than three intervals never decodes.
pub proof fn lemma_tab2_at_most_three_intervals(lines: Seq<Seq<char>>, i: int)
    requires
        header_at(lines, i) is Ok,
        header_at(lines, i)->Ok_0.4 > 3,
    ensures
        tab2_decode(lines, i).0 is Err,
{
    let nr = header_at(lines, i)->Ok_0.4 as int;
    lemma_rows_for(nr);
    lemma_rows_at_most_six_each(lines, after_read(lines, i), rows_for(nr));
}

} // verus!
