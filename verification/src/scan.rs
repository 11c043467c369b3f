//! Forward scanning for a section.
//!
//! A scan reads records from the cursor on and stops at the first whose
//! identifier cannot be decoded or names the section that is looked for.

use vstd::prelude::*;
use crate::error::ReadError;
use crate::record::{ident_result, parse_record_ident};
use crate::source::Source;

verus! {

/// What a scan looks for: a file and a section, and a material where one is asked for.
pub struct Target {
    pub material: Option<i32>,
    pub file: i32,
    pub section: i32,
}

/// The target of a scan for a file and a section of any material.
pub open spec fn section_of(file: i32, section: i32) -> Target {
    Target { material: None, file, section }
}

/// The target of a scan for a file and a section of one material.
pub open spec fn section_of_material(material: i32, file: i32, section: i32) -> Target {
    Target { material: Some(material), file, section }
}

/// The identifier names the section that is looked for.
pub open spec fn matches_target(id: (i32, i32, i32, i32), target: Target) -> bool {
    &&& target.material matches Some(m) ==> id.0 == m
    &&& id.1 == target.file
    &&& id.2 == target.section
}

/// The scan stops at this record: its identifier does not decode, or names
/// the section that is looked for.
pub open spec fn stops_scan(line: Seq<char>, target: Target) -> bool {
    match ident_result(line) {
        Ok(id) => matches_target(id, target),
        Err(_) => true,
    }
}

/// The identifier of this record decodes and names another section than the
/// one that is looked for.
pub open spec fn names_other(line: Seq<char>, target: Target) -> bool {
    match ident_result(line) {
        Ok(id) => !matches_target(id, target),
        Err(_) => false,
    }
}

/// The identifier of this record decodes and names the section that is
/// looked for.
pub open spec fn names_target(line: Seq<char>, target: Target) -> bool {
    match ident_result(line) {
        Ok(id) => matches_target(id, target),
        Err(_) => false,
    }
}

/// The position of the first record at or after `i` at which the scan stops
/// (the number of lines, if there is none).
pub open spec fn scan_stop(lines: Seq<Seq<char>>, i: int, target: Target) -> int
    decreases lines.len() - i,
{
    if 0 <= i < lines.len() && !stops_scan(lines[i], target) {
        scan_stop(lines, i + 1, target)
    } else {
        i
    }
}

/// What a scan from position `i` returns: the record it stops at, the error
/// of that record's identifier, or `Eof` where it stops at none.
pub open spec fn scan_result(lines: Seq<Seq<char>>, i: int, target: Target) -> Result<
    Seq<char>,
    ReadError,
> {
    let k = scan_stop(lines, i, target);
    if k >= lines.len() {
        Err(ReadError::Eof)
    } else {
        match ident_result(lines[k]) {
            Ok(_) => Ok(lines[k]),
            Err(e) => Err(e),
        }
    }
}

/// Where a scan from position `i` leaves the cursor: behind the record it
/// stops at, or at the end.
pub open spec fn scan_position(lines: Seq<Seq<char>>, i: int, target: Target) -> int {
    let k = scan_stop(lines, i, target);
    if k >= lines.len() {
        lines.len() as int
    } else {
        k + 1
    }
}

/// A scanned line with the string as its characters.
pub open spec fn line_view(r: Result<String, ReadError>) -> Result<Seq<char>, ReadError> {
    match r {
        Ok(line) => Ok(line@),
        Err(e) => Err(e),
    }
}

/// The scan stops in range, at a record that stops it, and at none before.
pub proof fn lemma_scan_stop(lines: Seq<Seq<char>>, i: int, target: Target)
    requires
        0 <= i <= lines.len(),
    ensures
        i <= scan_stop(lines, i, target) <= lines.len(),
        forall|k: int| i <= k < scan_stop(lines, i, target) ==> !stops_scan(#[trigger] lines[k], target),
        scan_stop(lines, i, target) < lines.len() ==> stops_scan(
            lines[scan_stop(lines, i, target)],
            target,
        ),
    decreases lines.len() - i,
{
    if i < lines.len() && !stops_scan(lines[i], target) {
        lemma_scan_stop(lines, i + 1, target);
    }
}

/// A scan only moves forward: it leaves the cursor in range and not before
/// where it was.
pub proof fn lemma_scan_forward(lines: Seq<Seq<char>>, i: int, target: Target)
    requires
        0 <= i <= lines.len(),
    ensures
        i <= scan_position(lines, i, target) <= lines.len(),
        scan_result(lines, i, target) is Ok ==> i < scan_position(lines, i, target),
{
    lemma_scan_stop(lines, i, target);
}

/// A scan for a section that no record from the cursor on names, in a source
/// whose identifiers all decode, ends in `Eof` with every line consumed.
pub proof fn lemma_scan_absent(lines: Seq<Seq<char>>, i: int, target: Target)
    requires
        0 <= i <= lines.len(),
        forall|k: int| i <= k < lines.len() ==> names_other(#[trigger] lines[k], target),
    ensures
        scan_result(lines, i, target) == Err::<Seq<char>, ReadError>(ReadError::Eof),
        scan_position(lines, i, target) == lines.len(),
{
    lemma_scan_stop(lines, i, target);
}

/// A scan never returns a false match: the record it returns is in the
/// source at or after the cursor, its identifier decodes and names the
/// section that is looked for, and no record between the cursor and it does.
pub proof fn lemma_scan_match(lines: Seq<Seq<char>>, i: int, target: Target)
    requires
        0 <= i <= lines.len(),
        scan_result(lines, i, target) is Ok,
    ensures
        ({
            let k = scan_position(lines, i, target) - 1;
            &&& i <= k < lines.len()
            &&& scan_result(lines, i, target) == Ok::<Seq<char>, ReadError>(lines[k])
            &&& names_target(lines[k], target)
            &&& forall|j: int| i <= j < k ==> names_other(#[trigger] lines[j], target)
        }),
{
    lemma_scan_stop(lines, i, target);
}

/// Reads records until one stops the scan or the lines end.
fn scan(source: &mut Source, target: Target) -> (r: Result<String, ReadError>)
    ensures
        final(source).lines() == old(source).lines(),
        line_view(r) == scan_result(old(source).lines(), old(source).position(), target),
        final(source).position() == scan_position(
            old(source).lines(),
            old(source).position(),
            target,
        ),
{
    let ghost lines = source.lines();
    let ghost start = source.position();
    let n = source.len();
    let mut i = source.consumed();
    while i < n
        invariant
            source.lines() == lines,
            lines == old(source).lines(),
            start == old(source).position(),
            n == lines.len(),
            0 <= start <= i <= n,
            source.position() == i,
            scan_stop(lines, i as int, target) == scan_stop(lines, start, target),
        decreases n - i,
    {
        let line = source.read_record();
        match parse_record_ident(line.as_str()) {
            Err(e) => {
                return Err(e);
            },
            Ok(id) => {
                let material_matches = match target.material {
                    Some(m) => id.0 == m,
                    None => true,
                };
                if material_matches && id.1 == target.file && id.2 == target.section {
                    return Ok(line);
                }
            },
        }
        i += 1;
    }
    Err(ReadError::Eof)
}

/// Seeks forward to the first record of the given file and section, and
/// returns it.
///
/// Records are read from the cursor on. The first whose identifier does not
/// decode ends the scan with that error; the first whose identifier names
/// `file` and `section` is returned. Either way the cursor is left behind
/// that record. Where the lines end before either, the result is `Eof` and
/// the cursor is at the end.
pub fn seek_to_tuple(source: &mut Source, file: i32, section: i32) -> (r: Result<String, ReadError>)
    ensures
        final(source).lines() == old(source).lines(),
        line_view(r) == scan_result(
            old(source).lines(),
            old(source).position(),
            section_of(file, section),
        ),
        final(source).position() == scan_position(
            old(source).lines(),
            old(source).position(),
            section_of(file, section),
        ),
{
    scan(source, Target { material: None, file, section })
}

/// Seeks forward to the first record of the given material, file and
/// section, and returns it.
///
/// Records are read from the cursor on. The first whose identifier does not
/// decode ends the scan with that error; the first whose identifier names
/// `material`, `file` and `section` is returned. Either way the cursor is
/// left behind that record. Where the lines end before either, the result is
/// `Eof` and the cursor is at the end.
pub fn seek_to_tuple_mat(source: &mut Source, material: i32, file: i32, section: i32) -> (r: Result<
    String,
    ReadError,
>)
    ensures
        final(source).lines() == old(source).lines(),
        line_view(r) == scan_result(
            old(source).lines(),
            old(source).position(),
            section_of_material(material, file, section),
        ),
        final(source).position() == scan_position(
            old(source).lines(),
            old(source).position(),
            section_of_material(material, file, section),
        ),
{
    scan(source, Target { material: Some(material), file, section })
}

} // verus!
