//! Descriptive data and directory (`MF=1, MT=451`): the section that opens a
//! material and says what it holds.

use vstd::prelude::*;
use vstd::slice::slice_subrange;
use vstd::string::StrSliceExecFns;
use vstd::string::StringExecFns;
use crate::error::ReadError;
use crate::integer::{int_field, parse_int_field};
use crate::number::Real;
use crate::record::{
    cont_result, ident_result, parse_cont_record, parse_record_ident, parse_text_record,
    text_result,
};
use crate::scan::{
    lemma_scan_absent, names_other, scan_position, scan_result, seek_to_tuple, Target,
};
use crate::source::{after_read, line_at, Source};
use crate::text::{field, to_chars, PAYLOAD_WIDTH};

verus! {

/// One entry of the directory: a section of the material and its size.
#[derive(Debug, Clone, Copy, PartialEq, Eq, Structural)]
pub struct DirectoryEntry {
    /// MF: File number.
    pub MF: i32,
    /// MT: Reaction type number, or, covariance file section identifier.
    pub MT: i32,
    /// NC: Number of records in the section.
    pub NC: i32,
    /// MOD: Modification indicator.
    pub MOD: i32,
}

/// The descriptive data of a material.
#[derive(Debug)]
pub struct DescriptionCard {
    /// `(Z, A)` Designation of the nuclide. `ZA = 1000 * Z + A`
    pub ZA: Real,
    /// AWR: Ratio of mass of atom (or molecule) to that of the neutron.
    pub AWR: Real,
    /// LRP: Indicates whether resolved and/or unresolved
    /// resonance parameters given in File 2.
    pub LRP: i32,
    /// LFI: Indicates whether this material is fissionable.
    pub LFI: i32,
    /// NLIB: Library identifier.
    pub NLIB: i32,
    /// NMOD: Modification number.
    pub NMOD: i32,
    /// ELIS: Excitation energy of the target nucleus.
    pub ELIS: Real,
    /// STA: Target stability flag.
    pub STA: Real,
    /// LIS: State number of the target nucleus
    /// (for materials that represent nuclides).
    pub LIS: i32,
    /// LISO: Isomeric state number of the target nucleus.
    pub LISO: i32,
    /// NFOR: Library format.
    pub NFOR: i32,
    /// AWI: Projectile mass in neutron units.
    pub AWI: Real,
    /// EMAX: Upper limit of energy range for evaluation.
    pub EMAX: Real,
    /// LREL: Release number
    pub LREL: i32,
    /// NSUB: Sub-library number
    pub NSUB: i32,
    /// NVER: Library version number.
    pub NVER: i32,
    /// TEMP: Target temperature.
    pub TEMP: Real,
    /// LDRV: Distinguishes between different evaluations
    /// with the same material keys
    pub LDRV: i32,
    /// NWD: Number of elements in the text section.
    pub NWD: i32,
    /// NXC: Number of the sections to be found in the dictionary
    pub NXC: i32,
    /// ZSYMAM: Text representation of material Z-chemical symbol-Astate.
    pub ZSYMAM: String,
    /// ALAB: Mnemonic of laboratory originating evaluation.
    pub ALAB: String,
    /// EDATE: Date of evaluation.
    pub EDATE: String,
    /// AUTH: Author of evaluation.
    pub AUTH: String,
    /// REF: Reference to evaluation.
    pub REF: String,
    /// DDATE: First distribution date of the evaluation.
    pub DDATE: String,
    /// RDATE: Date and number of last revision.
    pub RDATE: String,
    /// ENDATE: Master file entry date (yyyymmdd).
    pub ENDATE: i32,
    /// description: textual comments
    pub description: String,
    /// directory: list of sections in this file
    pub directory: Vec<DirectoryEntry>,
}

/// What the six records at the head of the descriptive data hold, record
/// by record, reals as literals and texts as characters.
pub struct HeadingView {
    /// `(ZA, AWR, LRP, LFI, NLIB, NMOD)`
    pub first: (Seq<char>, Seq<char>, i32, i32, i32, i32),
    /// `(ELIS, STA, LIS, LISO, NFOR)`
    pub second: (Seq<char>, Seq<char>, i32, i32, i32),
    /// `(AWI, EMAX, LREL, NSUB, NVER)`
    pub third: (Seq<char>, Seq<char>, i32, i32, i32),
    /// `(TEMP, LDRV, NWD, NXC)`
    pub fourth: (Seq<char>, i32, i32, i32),
    /// `(ZSYMAM, ALAB, EDATE, AUTH)`
    pub names: (Seq<char>, Seq<char>, Seq<char>, Seq<char>),
    /// `(REF, DDATE, RDATE, ENDATE)`
    pub reference: (Seq<char>, Seq<char>, Seq<char>, i32),
}

/// What a `DescriptionCard` holds.
pub struct DescriptionView {
    pub heading: HeadingView,
    pub description: Seq<char>,
    pub directory: Seq<DirectoryEntry>,
}

impl View for DescriptionCard {
    type V = DescriptionView;

    open spec fn view(&self) -> DescriptionView {
        DescriptionView {
            heading: HeadingView {
                first: (self.ZA@, self.AWR@, self.LRP, self.LFI, self.NLIB, self.NMOD),
                second: (self.ELIS@, self.STA@, self.LIS, self.LISO, self.NFOR),
                third: (self.AWI@, self.EMAX@, self.LREL, self.NSUB, self.NVER),
                fourth: (self.TEMP@, self.LDRV, self.NWD, self.NXC),
                names: (self.ZSYMAM@, self.ALAB@, self.EDATE@, self.AUTH@),
                reference: (self.REF@, self.DDATE@, self.RDATE@, self.ENDATE),
            },
            description: self.description@,
            directory: self.directory@,
        }
    }
}

/// What decoding the record of names gives: columns 1 to 11, 12 to 22, 23 to
/// 33 and 34 to 66, as they stand.
pub open spec fn names_result(line: Seq<char>) -> Result<
    (Seq<char>, Seq<char>, Seq<char>, Seq<char>),
    ReadError,
> {
    if line.len() < PAYLOAD_WIDTH {
        Err(ReadError::RecordTooShort)
    } else {
        Ok(
            (
                line.subrange(0, 11),
                line.subrange(11, 22),
                line.subrange(22, 33),
                line.subrange(33, 66),
            ),
        )
    }
}

/// Decoded names as characters.
pub open spec fn names_view(r: Result<(String, String, String, String), ReadError>) -> Result<
    (Seq<char>, Seq<char>, Seq<char>, Seq<char>),
    ReadError,
> {
    match r {
        Ok(n) => Ok((n.0@, n.1@, n.2@, n.3@)),
        Err(e) => Err(e),
    }
}

/// Decodes the record of names `(ZSYMAM, ALAB, EDATE, AUTH)`.
///
/// A record of fewer than 66 columns is `RecordTooShort`.
pub fn parse_zsym_row(s: &str) -> (r: Result<(String, String, String, String), ReadError>)
    ensures
        names_view(r) == names_result(s@),
{
    if s.unicode_len() < PAYLOAD_WIDTH {
        return Err(ReadError::RecordTooShort);
    }
    let zsymam = s.substring_char(0, 11).to_owned();
    let alab = s.substring_char(11, 22).to_owned();
    let edate = s.substring_char(22, 33).to_owned();
    let auth = s.substring_char(33, 66).to_owned();
    Ok((zsymam, alab, edate, auth))
}

/// What decoding the record of the reference gives: columns 1 to 22, 23 to
/// 33 and 34 to 44 as they stand, and the integer of columns 56 to 66.
pub open spec fn reference_result(line: Seq<char>) -> Result<
    (Seq<char>, Seq<char>, Seq<char>, i32),
    ReadError,
> {
    if line.len() < PAYLOAD_WIDTH {
        Err(ReadError::RecordTooShort)
    } else {
        match int_field(field(line, 5)) {
            Some(date) => Ok(
                (line.subrange(0, 22), line.subrange(22, 33), line.subrange(33, 44), date),
            ),
            None => Err(ReadError::BadInt),
        }
    }
}

/// A decoded reference as characters.
pub open spec fn reference_view(r: Result<(String, String, String, i32), ReadError>) -> Result<
    (Seq<char>, Seq<char>, Seq<char>, i32),
    ReadError,
> {
    match r {
        Ok(n) => Ok((n.0@, n.1@, n.2@, n.3)),
        Err(e) => Err(e),
    }
}

/// Decodes the record of the reference `(REF, DDATE, RDATE, ENDATE)`.
///
/// A record of fewer than 66 columns is `RecordTooShort`; one whose last
/// field holds no integer is `BadInt`.
pub fn parse_ref_row(s: &str) -> (r: Result<(String, String, String, i32), ReadError>)
    ensures
        reference_view(r) == reference_result(s@),
{
    let chars = to_chars(s);
    if chars.len() < PAYLOAD_WIDTH {
        return Err(ReadError::RecordTooShort);
    }
    let reference = s.substring_char(0, 22).to_owned();
    let ddate = s.substring_char(22, 33).to_owned();
    let rdate = s.substring_char(33, 44).to_owned();
    match parse_int_field(slice_subrange(chars.as_slice(), 55, 66)) {
        Some(endate) => Ok((reference, ddate, rdate, endate)),
        None => Err(ReadError::BadInt),
    }
}

/// What decoding a record of the directory gives: the integers of its last
/// four fields.
pub open spec fn entry_result(line: Seq<char>) -> Result<DirectoryEntry, ReadError> {
    let mf = int_field(field(line, 2));
    let mt = int_field(field(line, 3));
    let nc = int_field(field(line, 4));
    let modification = int_field(field(line, 5));
    if line.len() < PAYLOAD_WIDTH {
        Err(ReadError::RecordTooShort)
    } else if mf is None || mt is None || nc is None || modification is None {
        Err(ReadError::BadInt)
    } else {
        Ok(DirectoryEntry { MF: mf->0, MT: mt->0, NC: nc->0, MOD: modification->0 })
    }
}

/// Decodes a record of the directory `(MF, MT, NC, MOD)`.
///
/// A record of fewer than 66 columns is `RecordTooShort`; one with a field
/// that holds no integer is `BadInt`.
pub fn parse_directory_entry(s: &str) -> (r: Result<DirectoryEntry, ReadError>)
    ensures
        r == entry_result(s@),
{
    let chars = to_chars(s);
    if chars.len() < PAYLOAD_WIDTH {
        return Err(ReadError::RecordTooShort);
    }
    let mf = parse_int_field(slice_subrange(chars.as_slice(), 22, 33));
    let mt = parse_int_field(slice_subrange(chars.as_slice(), 33, 44));
    let nc = parse_int_field(slice_subrange(chars.as_slice(), 44, 55));
    let modification = parse_int_field(slice_subrange(chars.as_slice(), 55, 66));
    match (mf, mt, nc, modification) {
        (Some(mf), Some(mt), Some(nc), Some(modification)) => Ok(
            DirectoryEntry { MF: mf, MT: mt, NC: nc, MOD: modification },
        ),
        _ => Err(ReadError::BadInt),
    }
}

/// What reading `count` TEXT records from position `i` gives, each with a
/// line feed in front of it and all joined, and where it leaves the cursor.
/// The first record that does not decode ends the reading with its error.
pub open spec fn text_block(lines: Seq<Seq<char>>, i: int, count: int) -> (
    Result<Seq<char>, ReadError>,
    int,
)
    decreases count,
{
    if count <= 0 {
        (Ok(Seq::empty()), i)
    } else {
        let (before, p) = text_block(lines, i, count - 1);
        match before {
            Err(e) => (Err(e), p),
            Ok(text) => match text_result(line_at(lines, p)) {
                Err(e) => (Err(e), after_read(lines, p)),
                Ok(t) => (Ok(text + seq!['\n'] + t), after_read(lines, p)),
            },
        }
    }
}

/// What reading `count` records of the directory from position `i` gives, and
/// where it leaves the cursor. The first record that does not decode ends the
/// reading with its error.
pub open spec fn directory_rows(lines: Seq<Seq<char>>, i: int, count: int) -> (
    Result<Seq<DirectoryEntry>, ReadError>,
    int,
)
    decreases count,
{
    if count <= 0 {
        (Ok(Seq::empty()), i)
    } else {
        let (before, p) = directory_rows(lines, i, count - 1);
        match before {
            Err(e) => (Err(e), p),
            Ok(entries) => match entry_result(line_at(lines, p)) {
                Err(e) => (Err(e), after_read(lines, p)),
                Ok(entry) => (Ok(entries.push(entry)), after_read(lines, p)),
            },
        }
    }
}

/// Once a record has failed, reading further ones changes nothing.
proof fn lemma_text_block_error(lines: Seq<Seq<char>>, i: int, failed: int, count: int)
    requires
        0 < failed <= count,
        text_block(lines, i, failed).0 is Err,
    ensures
        text_block(lines, i, count) == text_block(lines, i, failed),
    decreases count - failed,
{
    if failed < count {
        lemma_text_block_error(lines, i, failed, count - 1);
    }
}

/// Once a record has failed, reading further ones changes nothing.
proof fn lemma_directory_rows_error(lines: Seq<Seq<char>>, i: int, failed: int, count: int)
    requires
        0 < failed <= count,
        directory_rows(lines, i, failed).0 is Err,
    ensures
        directory_rows(lines, i, count) == directory_rows(lines, i, failed),
    decreases count - failed,
{
    if failed < count {
        lemma_directory_rows_error(lines, i, failed, count - 1);
    }
}

/// A text as characters.
pub open spec fn block_view(r: Result<String, ReadError>) -> Result<Seq<char>, ReadError> {
    match r {
        Ok(t) => Ok(t@),
        Err(e) => Err(e),
    }
}

/// Reads `count` TEXT records and joins them, a line feed in front of each.
fn read_text_block(source: &mut Source, count: i32) -> (r: Result<String, ReadError>)
    ensures
        final(source).lines() == old(source).lines(),
        block_view(r) == text_block(old(source).lines(), old(source).position(), count as int).0,
        final(source).position() == text_block(
            old(source).lines(),
            old(source).position(),
            count as int,
        ).1,
{
    let ghost lines = source.lines();
    let ghost start = source.position();
    let mut text = String::new();
    let mut done: i32 = 0;
    while done < count
        invariant
            0 <= done,
            done <= count || done == 0,
            source.lines() == lines,
            lines == old(source).lines(),
            start == old(source).position(),
            text_block(lines, start, done as int) == (
                Ok::<Seq<char>, ReadError>(text@),
                source.position(),
            ),
        decreases count - done,
    {
        let line = source.read_record();
        match parse_text_record(line.as_str()) {
            Err(e) => {
                proof {
                    lemma_text_block_error(lines, start, done + 1, count as int);
                }
                return Err(e);
            },
            Ok(t) => {
                proof {
                    reveal_strlit("\n");
                    assert("\n"@ == seq!['\n']);
                }
                text.append("\n");
                text.append(t.as_str());
            },
        }
        done += 1;
    }
    Ok(text)
}

/// Directory entries as a sequence.
pub open spec fn directory_view(r: Result<Vec<DirectoryEntry>, ReadError>) -> Result<
    Seq<DirectoryEntry>,
    ReadError,
> {
    match r {
        Ok(v) => Ok(v@),
        Err(e) => Err(e),
    }
}

/// Reads `count` records of the directory.
fn read_directory(source: &mut Source, count: i32) -> (r: Result<Vec<DirectoryEntry>, ReadError>)
    ensures
        final(source).lines() == old(source).lines(),
        directory_view(r) == directory_rows(
            old(source).lines(),
            old(source).position(),
            count as int,
        ).0,
        final(source).position() == directory_rows(
            old(source).lines(),
            old(source).position(),
            count as int,
        ).1,
{
    let ghost lines = source.lines();
    let ghost start = source.position();
    let mut entries: Vec<DirectoryEntry> = Vec::new();
    let mut done: i32 = 0;
    while done < count
        invariant
            0 <= done,
            done <= count || done == 0,
            source.lines() == lines,
            lines == old(source).lines(),
            start == old(source).position(),
            directory_rows(lines, start, done as int) == (
                Ok::<Seq<DirectoryEntry>, ReadError>(entries@),
                source.position(),
            ),
        decreases count - done,
    {
        let line = source.read_record();
        match parse_directory_entry(line.as_str()) {
            Err(e) => {
                proof {
                    lemma_directory_rows_error(lines, start, done + 1, count as int);
                }
                return Err(e);
            },
            Ok(entry) => {
                entries.push(entry);
            },
        }
        done += 1;
    }
    Ok(entries)
}

/// The target of the scan for the descriptive data: file 1, section 451.
pub open spec fn description_target() -> Target {
    Target { material: None, file: 1, section: 451 }
}

/// The identifier says that a section ends here: section 0, record index 99999.
pub open spec fn is_section_end(id: (i32, i32, i32, i32)) -> bool {
    id.2 == 0 && id.3 == 99999
}

/// What decoding the four CONT records at the head gives, the first being
/// the record `found` and the others those from position `p` on, and where
/// it leaves the cursor. The first that does not decode ends the decoding
/// with its error, the cursor behind it.
pub open spec fn head_conts(lines: Seq<Seq<char>>, found: Seq<char>, p: int) -> (
    Result<
        (
            (Seq<char>, Seq<char>, i32, i32, i32, i32),
            (Seq<char>, Seq<char>, i32, i32, i32),
            (Seq<char>, Seq<char>, i32, i32, i32),
            (Seq<char>, i32, i32, i32),
        ),
        ReadError,
    >,
    int,
) {
    let c1 = cont_result(found);
    let c2 = cont_result(line_at(lines, p));
    let c3 = cont_result(line_at(lines, p + 1));
    let c4 = cont_result(line_at(lines, p + 2));
    if c1 is Err {
        (Err(c1->Err_0), p)
    } else if c2 is Err {
        (Err(c2->Err_0), after_read(lines, p))
    } else if c3 is Err {
        (Err(c3->Err_0), after_read(lines, p + 1))
    } else if c4 is Err {
        (Err(c4->Err_0), after_read(lines, p + 2))
    } else {
        (
            Ok(
                (
                    c1->Ok_0,
                    (c2->Ok_0.0, c2->Ok_0.1, c2->Ok_0.2, c2->Ok_0.3, c2->Ok_0.5),
                    (c3->Ok_0.0, c3->Ok_0.1, c3->Ok_0.2, c3->Ok_0.4, c3->Ok_0.5),
                    (c4->Ok_0.0, c4->Ok_0.2, c4->Ok_0.4, c4->Ok_0.5),
                ),
            ),
            p + 3,
        )
    }
}

/// What decoding the record of names and the record of the reference from
/// position `p` gives, and where it leaves the cursor.
pub open spec fn head_labels(lines: Seq<Seq<char>>, p: int) -> (
    Result<
        ((Seq<char>, Seq<char>, Seq<char>, Seq<char>), (Seq<char>, Seq<char>, Seq<char>, i32)),
        ReadError,
    >,
    int,
) {
    let names = names_result(line_at(lines, p));
    let reference = reference_result(line_at(lines, p + 1));
    if names is Err {
        (Err(names->Err_0), after_read(lines, p))
    } else if reference is Err {
        (Err(reference->Err_0), after_read(lines, p + 1))
    } else {
        (Ok((names->Ok_0, reference->Ok_0)), p + 2)
    }
}

/// What decoding the six records at the head of the descriptive data gives,
/// and where it leaves the cursor.
///
/// The source is scanned from its first line for file 1, section 451. The
/// record found and the three after it are CONT records; then come the
/// record of names and the record of the reference. The first record that
/// does not decode ends the decoding with its error, the cursor behind it.
pub open spec fn heading_decode(lines: Seq<Seq<char>>) -> (Result<HeadingView, ReadError>, int) {
    let p = scan_position(lines, 0, description_target());
    match scan_result(lines, 0, description_target()) {
        Err(e) => (Err(e), p),
        Ok(found) => {
            let conts = head_conts(lines, found, p);
            let labels = head_labels(lines, conts.1);
            if conts.0 is Err {
                (Err(conts.0->Err_0), conts.1)
            } else if labels.0 is Err {
                (Err(labels.0->Err_0), labels.1)
            } else {
                (
                    Ok(
                        HeadingView {
                            first: conts.0->Ok_0.0,
                            second: conts.0->Ok_0.1,
                            third: conts.0->Ok_0.2,
                            fourth: conts.0->Ok_0.3,
                            names: labels.0->Ok_0.0,
                            reference: labels.0->Ok_0.1,
                        },
                    ),
                    labels.1,
                )
            }
        },
    }
}

/// What decoding the description and the directory from position `i` gives,
/// and where it leaves the cursor: `words - 2` TEXT records, each with a line
/// feed in front of it and all joined; then `sections` records of the
/// directory; then a record whose identifier ends the section, else
/// `MissingSectionTerminator`. The first record that does not decode ends the
/// decoding with its error, the cursor behind it.
pub open spec fn contents_decode(lines: Seq<Seq<char>>, i: int, words: int, sections: int) -> (
    Result<(Seq<char>, Seq<DirectoryEntry>), ReadError>,
    int,
) {
    let text = text_block(lines, i, words - 2);
    let directory = directory_rows(lines, text.1, sections);
    let end = ident_result(line_at(lines, directory.1));
    if text.0 is Err {
        (Err(text.0->Err_0), text.1)
    } else if directory.0 is Err {
        (Err(directory.0->Err_0), directory.1)
    } else if end is Err {
        (Err(end->Err_0), after_read(lines, directory.1))
    } else if !is_section_end(end->Ok_0) {
        (Err(ReadError::MissingSectionTerminator), after_read(lines, directory.1))
    } else {
        (Ok((text.0->Ok_0, directory.0->Ok_0)), after_read(lines, directory.1))
    }
}

/// What decoding the descriptive data of a source gives, and where it leaves
/// the cursor: the six records at the head, then the description and the
/// directory with as many records as the head says.
pub open spec fn description_decode(lines: Seq<Seq<char>>) -> (
    Result<DescriptionView, ReadError>,
    int,
) {
    let head = heading_decode(lines);
    match head.0 {
        Err(e) => (Err(e), head.1),
        Ok(heading) => {
            let contents = contents_decode(
                lines,
                head.1,
                heading.fourth.2 as int,
                heading.fourth.3 as int,
            );
            match contents.0 {
                Err(e) => (Err(e), contents.1),
                Ok(c) => (
                    Ok(DescriptionView { heading, description: c.0, directory: c.1 }),
                    contents.1,
                ),
            }
        },
    }
}

/// A decoded `DescriptionCard` as what it holds.
pub open spec fn description_view(r: Result<DescriptionCard, ReadError>) -> Result<
    DescriptionView,
    ReadError,
> {
    match r {
        Ok(d) => Ok(d@),
        Err(e) => Err(e),
    }
}

/// The six records at the head of the descriptive data.
struct Heading {
    first: (Real, Real, i32, i32, i32, i32),
    second: (Real, Real, i32, i32, i32),
    third: (Real, Real, i32, i32, i32),
    fourth: (Real, i32, i32, i32),
    names: (String, String, String, String),
    reference: (String, String, String, i32),
}

/// What a heading holds.
spec fn heading_of(h: Heading) -> HeadingView {
    HeadingView {
        first: (h.first.0@, h.first.1@, h.first.2, h.first.3, h.first.4, h.first.5),
        second: (h.second.0@, h.second.1@, h.second.2, h.second.3, h.second.4),
        third: (h.third.0@, h.third.1@, h.third.2, h.third.3, h.third.4),
        fourth: (h.fourth.0@, h.fourth.1, h.fourth.2, h.fourth.3),
        names: (h.names.0@, h.names.1@, h.names.2@, h.names.3@),
        reference: (h.reference.0@, h.reference.1@, h.reference.2@, h.reference.3),
    }
}

/// A decoded heading as what it holds.
spec fn heading_view(r: Result<Heading, ReadError>) -> Result<HeadingView, ReadError> {
    match r {
        Ok(h) => Ok(heading_of(h)),
        Err(e) => Err(e),
    }
}

/// Decoded contents as characters and entries.
spec fn contents_view(r: Result<(String, Vec<DirectoryEntry>), ReadError>) -> Result<
    (Seq<char>, Seq<DirectoryEntry>),
    ReadError,
> {
    match r {
        Ok(c) => Ok((c.0@, c.1@)),
        Err(e) => Err(e),
    }
}

/// The four CONT records at the head with their reals as literals.
spec fn conts_view(
    r: Result<
        (
            (Real, Real, i32, i32, i32, i32),
            (Real, Real, i32, i32, i32),
            (Real, Real, i32, i32, i32),
            (Real, i32, i32, i32),
        ),
        ReadError,
    >,
) -> Result<
    (
        (Seq<char>, Seq<char>, i32, i32, i32, i32),
        (Seq<char>, Seq<char>, i32, i32, i32),
        (Seq<char>, Seq<char>, i32, i32, i32),
        (Seq<char>, i32, i32, i32),
    ),
    ReadError,
> {
    match r {
        Ok(c) => Ok(
            (
                (c.0.0@, c.0.1@, c.0.2, c.0.3, c.0.4, c.0.5),
                (c.1.0@, c.1.1@, c.1.2, c.1.3, c.1.4),
                (c.2.0@, c.2.1@, c.2.2, c.2.3, c.2.4),
                (c.3.0@, c.3.1, c.3.2, c.3.3),
            ),
        ),
        Err(e) => Err(e),
    }
}

/// Decodes the four CONT records at the head: `found`, and the next three
/// of the source.
fn read_head_conts(source: &mut Source, found: &str) -> (r: Result<
    (
        (Real, Real, i32, i32, i32, i32),
        (Real, Real, i32, i32, i32),
        (Real, Real, i32, i32, i32),
        (Real, i32, i32, i32),
    ),
    ReadError,
>)
    ensures
        final(source).lines() == old(source).lines(),
        conts_view(r) == head_conts(old(source).lines(), found@, old(source).position()).0,
        final(source).position() == head_conts(
            old(source).lines(),
            found@,
            old(source).position(),
        ).1,
{
    let first = match parse_cont_record(found) {
        Ok(c) => c,
        Err(e) => {
            return Err(e);
        },
    };
    let line = source.read_record();
    let (elis, sta, lis, liso, _, nfor) = match parse_cont_record(line.as_str()) {
        Ok(c) => c,
        Err(e) => {
            return Err(e);
        },
    };
    let line = source.read_record();
    let (awi, emax, lrel, _, nsub, nver) = match parse_cont_record(line.as_str()) {
        Ok(c) => c,
        Err(e) => {
            return Err(e);
        },
    };
    let line = source.read_record();
    let (temp, _, ldrv, _, nwd, nxc) = match parse_cont_record(line.as_str()) {
        Ok(c) => c,
        Err(e) => {
            return Err(e);
        },
    };
    Ok((first, (elis, sta, lis, liso, nfor), (awi, emax, lrel, nsub, nver), (temp, ldrv, nwd, nxc)))
}

/// The record of names and the record of the reference as characters.
spec fn labels_view(
    r: Result<((String, String, String, String), (String, String, String, i32)), ReadError>,
) -> Result<
    ((Seq<char>, Seq<char>, Seq<char>, Seq<char>), (Seq<char>, Seq<char>, Seq<char>, i32)),
    ReadError,
> {
    match r {
        Ok(l) => Ok(((l.0.0@, l.0.1@, l.0.2@, l.0.3@), (l.1.0@, l.1.1@, l.1.2@, l.1.3))),
        Err(e) => Err(e),
    }
}

/// Decodes the record of names and the record of the reference.
fn read_head_labels(source: &mut Source) -> (r: Result<
    ((String, String, String, String), (String, String, String, i32)),
    ReadError,
>)
    ensures
        final(source).lines() == old(source).lines(),
        labels_view(r) == head_labels(old(source).lines(), old(source).position()).0,
        final(source).position() == head_labels(old(source).lines(), old(source).position()).1,
{
    let line = source.read_record();
    let names = match parse_zsym_row(line.as_str()) {
        Ok(n) => n,
        Err(e) => {
            return Err(e);
        },
    };
    let line = source.read_record();
    let reference = match parse_ref_row(line.as_str()) {
        Ok(n) => n,
        Err(e) => {
            return Err(e);
        },
    };
    Ok((names, reference))
}

/// Rewinds the source, scans for the section and decodes the six records at
/// its head.
fn read_heading(source: &mut Source) -> (r: Result<Heading, ReadError>)
    ensures
        final(source).lines() == old(source).lines(),
        heading_view(r) == heading_decode(old(source).lines()).0,
        final(source).position() == heading_decode(old(source).lines()).1,
{
    source.rewind();
    let line = match seek_to_tuple(source, 1, 451) {
        Ok(line) => line,
        Err(e) => {
            return Err(e);
        },
    };
    let (first, second, third, fourth) = match read_head_conts(source, line.as_str()) {
        Ok(c) => c,
        Err(e) => {
            return Err(e);
        },
    };
    let (names, reference) = match read_head_labels(source) {
        Ok(l) => l,
        Err(e) => {
            return Err(e);
        },
    };
    Ok(Heading { first, second, third, fourth, names, reference })
}

/// Decodes the description, the directory and the end of the section.
fn read_contents(source: &mut Source, words: i32, sections: i32) -> (r: Result<
    (String, Vec<DirectoryEntry>),
    ReadError,
>)
    ensures
        final(source).lines() == old(source).lines(),
        contents_view(r) == contents_decode(
            old(source).lines(),
            old(source).position(),
            words as int,
            sections as int,
        ).0,
        final(source).position() == contents_decode(
            old(source).lines(),
            old(source).position(),
            words as int,
            sections as int,
        ).1,
{
    let count: i32 = if words < 2 {
        0
    } else {
        words - 2
    };
    let description = match read_text_block(source, count) {
        Ok(text) => text,
        Err(e) => {
            return Err(e);
        },
    };
    let directory = match read_directory(source, sections) {
        Ok(entries) => entries,
        Err(e) => {
            return Err(e);
        },
    };
    let line = source.read_record();
    let (_, _, section, index) = match parse_record_ident(line.as_str()) {
        Ok(id) => id,
        Err(e) => {
            return Err(e);
        },
    };
    if section != 0 || index != 99999 {
        return Err(ReadError::MissingSectionTerminator);
    }
    Ok((description, directory))
}

impl DescriptionCard {
    /// Decodes the descriptive data and directory of a source.
    ///
    /// The source is rewound and scanned for file 1, section 451. The record
    /// found and the three after it are CONT records; then come the record of
    /// names and the record of the reference; then `NWD - 2` TEXT records,
    /// which make the description, a line feed in front of each; then `NXC`
    /// records of the directory; then a record whose identifier must end the
    /// section, else the result is `MissingSectionTerminator`. The first
    /// record that does not decode ends the decoding with its error.
    pub fn read_from(source: &mut Source) -> (r: Result<DescriptionCard, ReadError>)
        ensures
            final(source).lines() == old(source).lines(),
            description_view(r) == description_decode(old(source).lines()).0,
            final(source).position() == description_decode(old(source).lines()).1,
    {
        let heading = match read_heading(source) {
            Ok(heading) => heading,
            Err(e) => {
                return Err(e);
            },
        };
        let (description, directory) = match read_contents(
            source,
            heading.fourth.2,
            heading.fourth.3,
        ) {
            Ok(contents) => contents,
            Err(e) => {
                return Err(e);
            },
        };
        let (za, awr, lrp, lfi, nlib, nmod) = heading.first;
        let (elis, sta, lis, liso, nfor) = heading.second;
        let (awi, emax, lrel, nsub, nver) = heading.third;
        let (temp, ldrv, nwd, nxc) = heading.fourth;
        let (zsymam, alab, edate, auth) = heading.names;
        let (reference, ddate, rdate, endate) = heading.reference;
        Ok(
            DescriptionCard {
                ZA: za,
                AWR: awr,
                LRP: lrp,
                LFI: lfi,
                NLIB: nlib,
                NMOD: nmod,
                ELIS: elis,
                STA: sta,
                LIS: lis,
                LISO: liso,
                NFOR: nfor,
                AWI: awi,
                EMAX: emax,
                LREL: lrel,
                NSUB: nsub,
                NVER: nver,
                TEMP: temp,
                LDRV: ldrv,
                NWD: nwd,
                NXC: nxc,
                ZSYMAM: zsymam,
                ALAB: alab,
                EDATE: edate,
                AUTH: auth,
                REF: reference,
                DDATE: ddate,
                RDATE: rdate,
                ENDATE: endate,
                description,
                directory,
            },
        )
    }
}

/// Where no record of the source names file 1, section 451, and the
/// identifiers of all of them decode, decoding the descriptive data is `Eof`,
/// with every line consumed.
pub proof fn lemma_description_absent(lines: Seq<Seq<char>>)
    requires
        forall|k: int| 0 <= k < lines.len() ==> names_other(#[trigger] lines[k], description_target()),
    ensures
        description_decode(lines).0 == Err::<DescriptionView, _>(ReadError::Eof),
        description_decode(lines).1 == lines.len(),
{
    lemma_scan_absent(lines, 0, description_target());
}

/// A section that does not end as it must is `MissingSectionTerminator`:
/// where the head, the description and the directory decode and the record
/// behind them has an identifier that decodes but names another section than
/// 0 or another record index than 99999, no descriptive data are returned.
pub proof fn lemma_description_terminator(lines: Seq<Seq<char>>)
    requires
        heading_decode(lines).0 is Ok,
    ensures
        ({
            let head = heading_decode(lines);
            let heading = head.0->Ok_0;
            let text = text_block(lines, head.1, heading.fourth.2 - 2);
            let directory = directory_rows(lines, text.1, heading.fourth.3 as int);
            let end = ident_result(line_at(lines, directory.1));
            &&& text.0 is Ok && directory.0 is Ok && end is Ok && !is_section_end(end->Ok_0)
                ==> description_decode(lines).0 == Err::<DescriptionView, _>(
                ReadError::MissingSectionTerminator,
            )
            &&& description_decode(lines).0 is Ok ==> text.0 is Ok && directory.0 is Ok && end
                is Ok && is_section_end(end->Ok_0) && description_decode(lines).0->Ok_0
                == (DescriptionView {
                heading,
                description: text.0->Ok_0,
                directory: directory.0->Ok_0,
            })
        }),
{
}

} // verus!
