//! Delayed photon data (`MF=1, MT=460`).

use vstd::prelude::*;
use crate::error::ReadError;
use crate::list::{read_real_list, real_rows, rows_for};
use crate::number::{literals, Real};
use crate::record::{cont_result, parse_cont_record};
use crate::scan::{
    lemma_scan_absent, lemma_scan_match, names_other, scan_position, scan_result, seek_to_tuple,
    Target,
};
use crate::source::{after_read, line_at, Source};
use crate::tabular::{read_tab1_sequence, tab1_sequence, tab1_views, Tab1, Tab1View};

verus! {

/// Delayed photon data, in one of its two representations.
#[derive(Debug)]
pub enum DelayedPhotonData {
    /// Discrete representation (`LO=1`)
    Discrete(Vec<Tab1>),
    /// Continuous representation (`LO=2`)
    Continuous(Vec<Real>),
}

/// What a `DelayedPhotonData` holds, its reals as literals.
pub enum DelayedPhotonView {
    Discrete(Seq<Tab1View>),
    Continuous(Seq<Seq<char>>),
}

impl View for DelayedPhotonData {
    type V = DelayedPhotonView;

    open spec fn view(&self) -> DelayedPhotonView {
        match self {
            DelayedPhotonData::Discrete(tables) => DelayedPhotonView::Discrete(tab1_views(tables@)),
            DelayedPhotonData::Continuous(values) => DelayedPhotonView::Continuous(
                literals(values@),
            ),
        }
    }
}

/// The target of the scan for the delayed photon data: file 1, section 460.
pub open spec fn photon_target() -> Target {
    Target { material: None, file: 1, section: 460 }
}

/// The number of values that an integer of a header asks for. A negative
/// integer is no number of well-formed data; it wraps around, as a cast does.
pub open spec fn length_of(n: i32) -> usize {
    n as usize
}

/// What decoding the discrete representation from position `p` gives: `ng`
/// TAB1 one after another.
pub open spec fn discrete_decode(lines: Seq<Seq<char>>, p: int, ng: int) -> (
    Result<DelayedPhotonView, ReadError>,
    int,
) {
    let tables = tab1_sequence(lines, p, ng);
    match tables.0 {
        Err(e) => (Err(e), tables.1),
        Ok(t) => (Ok(DelayedPhotonView::Discrete(t)), tables.1),
    }
}

/// What decoding the continuous representation from position `p` gives: a
/// CONT record whose fifth field is the number of values, and the rows that
/// carry so many reals.
pub open spec fn continuous_decode(lines: Seq<Seq<char>>, p: int) -> (
    Result<DelayedPhotonView, ReadError>,
    int,
) {
    match cont_result(line_at(lines, p)) {
        Err(e) => (Err(e), after_read(lines, p)),
        Ok(header) => {
            let values = real_rows(
                lines,
                after_read(lines, p),
                rows_for(length_of(header.4) as int),
            );
            match values.0 {
                Err(e) => (Err(e), values.1),
                Ok(v) => (Ok(DelayedPhotonView::Continuous(v)), values.1),
            }
        },
    }
}

/// What decoding the delayed photon data from position `i` gives, and where
/// it leaves the cursor.
///
/// The source is scanned from `i` for file 1, section 460. The record found
/// is a CONT record whose third field `LO` names the representation: 1 for
/// the discrete one, with as many TAB1 as the fifth field says; 2 for the
/// continuous one; any other is `Eof`.
pub open spec fn photon_decode(lines: Seq<Seq<char>>, i: int) -> (
    Result<DelayedPhotonView, ReadError>,
    int,
) {
    let p = scan_position(lines, i, photon_target());
    match scan_result(lines, i, photon_target()) {
        Err(e) => (Err(e), p),
        Ok(found) => match cont_result(found) {
            Err(e) => (Err(e), p),
            Ok(header) => if header.2 == 1 {
                discrete_decode(lines, p, header.4 as int)
            } else if header.2 == 2 {
                continuous_decode(lines, p)
            } else {
                (Err(ReadError::Eof), p)
            },
        },
    }
}

/// Decoded delayed photon data as what they hold.
pub open spec fn photon_view(r: Result<DelayedPhotonData, ReadError>) -> Result<
    DelayedPhotonView,
    ReadError,
> {
    match r {
        Ok(d) => Ok(d@),
        Err(e) => Err(e),
    }
}

/// Decodes the discrete representation: `ng` TAB1 one after another.
fn read_discrete(source: &mut Source, ng: i32) -> (r: Result<DelayedPhotonData, ReadError>)
    ensures
        final(source).lines() == old(source).lines(),
        photon_view(r) == discrete_decode(
            old(source).lines(),
            old(source).position(),
            ng as int,
        ).0,
        final(source).position() == discrete_decode(
            old(source).lines(),
            old(source).position(),
            ng as int,
        ).1,
{
    let count: usize = if ng < 0 {
        0
    } else {
        ng as usize
    };
    match read_tab1_sequence(source, count) {
        Ok(tables) => Ok(DelayedPhotonData::Discrete(tables)),
        Err(e) => Err(e),
    }
}

/// Decodes the continuous representation: a CONT record and a list of reals.
fn read_continuous(source: &mut Source) -> (r: Result<DelayedPhotonData, ReadError>)
    ensures
        final(source).lines() == old(source).lines(),
        photon_view(r) == continuous_decode(old(source).lines(), old(source).position()).0,
        final(source).position() == continuous_decode(
            old(source).lines(),
            old(source).position(),
        ).1,
{
    let line = source.read_record();
    let (_, _, _, _, nnf, _) = match parse_cont_record(line.as_str()) {
        Ok(header) => header,
        Err(e) => {
            return Err(e);
        },
    };
    let n = #[verifier::truncate] (nnf as usize);
    match read_real_list(source, n) {
        Ok(values) => Ok(DelayedPhotonData::Continuous(values)),
        Err(e) => Err(e),
    }
}

impl DelayedPhotonData {
    /// Decodes the delayed photon data of a source.
    ///
    /// The source is scanned from the cursor on for file 1, section 460. The
    /// record found is a CONT record whose third field `LO` names the
    /// representation. For 1, as many TAB1 as its fifth field says are
    /// decoded. For 2, the next record is a CONT record whose fifth field is
    /// the number of values, and the rows that carry so many reals are read.
    /// Any other `LO` is `Eof`. The first record that does not decode ends
    /// the decoding with its error.
    pub fn read_from(source: &mut Source) -> (r: Result<DelayedPhotonData, ReadError>)
        ensures
            final(source).lines() == old(source).lines(),
            photon_view(r) == photon_decode(old(source).lines(), old(source).position()).0,
            final(source).position() == photon_decode(
                old(source).lines(),
                old(source).position(),
            ).1,
    {
        let line = match seek_to_tuple(source, 1, 460) {
            Ok(line) => line,
            Err(e) => {
                return Err(e);
            },
        };
        let (_, _, lo, _, ng, _) = match parse_cont_record(line.as_str()) {
            Ok(header) => header,
            Err(e) => {
                return Err(e);
            },
        };
        if lo == 1 {
            read_discrete(source, ng)
        } else if lo == 2 {
            read_continuous(source)
        } else {
            Err(ReadError::Eof)
        }
    }
}

/// Where no record from the cursor on names file 1, section 460, and the
/// identifiers of all of them decode, decoding the delayed photon data is
/// `Eof`, with every line consumed. A record whose identifier does not decode
/// ends the scan with its own error instead.
pub proof fn lemma_photon_absent(lines: Seq<Seq<char>>, i: int)
    requires
        0 <= i <= lines.len(),
        forall|k: int| i <= k < lines.len() ==> names_other(#[trigger] lines[k], photon_target()),
    ensures
        photon_decode(lines, i).0 == Err::<DelayedPhotonView, _>(ReadError::Eof),
        photon_decode(lines, i).1 == lines.len(),
{
    lemma_scan_absent(lines, i, photon_target());
}

/// The representation follows the third field of the record that the scan
/// finds: 1 gives the discrete one, with as many TAB1 as the fifth field
/// says and none where that is not positive, 2 the continuous one, and any
/// other `Eof`.
pub proof fn lemma_photon_representation(
    lines: Seq<Seq<char>>,
    i: int,
    header: (Seq<char>, Seq<char>, i32, i32, i32, i32),
)
    requires
        0 <= i <= lines.len(),
        scan_result(lines, i, photon_target()) is Ok,
        cont_result(scan_result(lines, i, photon_target())->Ok_0) == Ok::<_, ReadError>(header),
    ensures
        header.2 == 1 ==> photon_decode(lines, i) == discrete_decode(
            lines,
            scan_position(lines, i, photon_target()),
            header.4 as int,
        ),
        header.2 == 1 && header.4 <= 0 ==> photon_decode(lines, i).0 == Ok::<_, ReadError>(
            DelayedPhotonView::Discrete(Seq::empty()),
        ),
        header.2 == 2 ==> photon_decode(lines, i) == continuous_decode(
            lines,
            scan_position(lines, i, photon_target()),
        ),
        header.2 != 1 && header.2 != 2 ==> photon_decode(lines, i).0 == Err::<
            DelayedPhotonView,
            _,
        >(ReadError::Eof),
        photon_decode(lines, i).0 matches Ok(DelayedPhotonView::Discrete(_)) ==> header.2 == 1,
        photon_decode(lines, i).0 matches Ok(DelayedPhotonView::Continuous(_)) ==> header.2 == 2,
{
    lemma_scan_match(lines, i, photon_target());
}

} // verus!
