use endf::{
    parse_directory_entry, parse_ref_row, parse_zsym_row, DelayedPhotonData, DescriptionCard,
    DirectoryEntry, ReadError, Real, Source,
};

fn value(r: &Real) -> f64 {
    r.as_str().parse().unwrap()
}

fn record(payload: &str, mf: i32, mt: i32, ns: i32) -> String {
    format!("{:<66}{:>4}{:>2}{:>3}{:>5}", payload, 9437, mf, mt, ns)
}

fn fields(fields: &[&str]) -> String {
    let mut s = String::new();
    for f in fields {
        s.push_str(&format!("{:>11}", f));
    }
    s
}

const NAMES: &str = " 94-Pu-239 LANL       EVAL-SEP06 Young, Talou, Kawano, et al.     ";
const REFERENCE: &str = " NDS 107, 2931 (2006) DIST-DEC06 REV2-                    20111222";

fn description_lines(nwd: i32, nxc: i32, end: (i32, i32)) -> Vec<String> {
    let mut lines = vec![
        record(&fields(&["1.0", "1.0", "0", "0", "0", "0"]), 3, 1, 1),
        record(&fields(&[" 9.423900+4", " 2.369986+2", "1", "1", "0", "5"]), 1, 451, 1),
        record(&fields(&[" 0.000000+0", " 1.000000+0", "0", "0", "0", "6"]), 1, 451, 2),
        record(&fields(&[" 1.000000+0", " 2.000000+7", "1", "0", "10", "7"]), 1, 451, 3),
        record(&fields(&[" 0.000000+0", " 0.000000+0", "0", "0", &nwd.to_string(), &nxc.to_string()]), 1, 451, 4),
        record(NAMES, 1, 451, 5),
        record(REFERENCE, 1, 451, 6),
        record(" first line of the description", 1, 451, 7),
        record(" second line", 1, 451, 8),
        record(&fields(&["", "", "1", "451", "12", "5"]), 1, 451, 9),
        record(&fields(&["", "", "3", "1", "100", "2"]), 1, 451, 10),
    ];
    lines.push(record("", 1, end.0, end.1));
    lines
}

#[test]
fn names_row() {
    assert_eq!(NAMES.len(), 66);
    let (zsymam, alab, edate, auth) = parse_zsym_row(NAMES).unwrap();
    assert_eq!(zsymam, " 94-Pu-239 ");
    assert_eq!(alab, "LANL       ");
    assert_eq!(edate, "EVAL-SEP06 ");
    assert_eq!(auth, "Young, Talou, Kawano, et al.     ");
    assert_eq!(parse_zsym_row(&NAMES[..65]), Err(ReadError::RecordTooShort));
}

#[test]
fn reference_row() {
    assert_eq!(REFERENCE.len(), 66);
    let (reference, ddate, rdate, endate) = parse_ref_row(REFERENCE).unwrap();
    assert_eq!(reference, " NDS 107, 2931 (2006) ");
    assert_eq!(ddate, "DIST-DEC06 ");
    assert_eq!(rdate, "REV2-      ");
    assert_eq!(endate, 20111222);
    assert_eq!(parse_ref_row(&REFERENCE[..60]), Err(ReadError::RecordTooShort));
    let bad = format!("{:<55}{:>11}", "ref", "yesterday");
    assert_eq!(parse_ref_row(&bad), Err(ReadError::BadInt));
}

#[test]
fn directory_entry() {
    let line = fields(&["ignored", "", "1", "451", "12", "5"]);
    assert_eq!(parse_directory_entry(&line), Ok(DirectoryEntry { MF: 1, MT: 451, NC: 12, MOD: 5 }));
    assert_eq!(parse_directory_entry(&line[..65]), Err(ReadError::RecordTooShort));
    assert_eq!(parse_directory_entry(""), Err(ReadError::RecordTooShort));
    let bad = fields(&["", "", "1", "451", "", "5"]);
    assert_eq!(parse_directory_entry(&bad), Err(ReadError::BadInt));
}

#[test]
fn description_card() {
    let lines = description_lines(4, 2, (0, 99999));
    let total = lines.len();
    let mut source = Source::new(lines);
    // the decoding starts at the first line, wherever the cursor is
    source.read_line();
    source.read_line();
    source.read_line();
    let card = DescriptionCard::read_from(&mut source).unwrap();
    assert_eq!(source.consumed(), total);
    assert_eq!(value(&card.ZA), 94239.0);
    assert_eq!(value(&card.AWR), 236.9986);
    assert_eq!((card.LRP, card.LFI, card.NLIB, card.NMOD), (1, 1, 0, 5));
    assert_eq!((value(&card.ELIS), value(&card.STA)), (0.0, 1.0));
    assert_eq!((card.LIS, card.LISO, card.NFOR), (0, 0, 6));
    assert_eq!((value(&card.AWI), value(&card.EMAX)), (1.0, 2.0e7));
    assert_eq!((card.LREL, card.NSUB, card.NVER), (1, 10, 7));
    assert_eq!(value(&card.TEMP), 0.0);
    assert_eq!((card.LDRV, card.NWD, card.NXC), (0, 4, 2));
    assert_eq!(card.ZSYMAM, " 94-Pu-239 ");
    assert_eq!(card.ALAB, "LANL       ");
    assert_eq!(card.EDATE, "EVAL-SEP06 ");
    assert_eq!(card.AUTH, "Young, Talou, Kawano, et al.     ");
    assert_eq!(card.REF, " NDS 107, 2931 (2006) ");
    assert_eq!(card.DDATE, "DIST-DEC06 ");
    assert_eq!(card.RDATE, "REV2-      ");
    assert_eq!(card.ENDATE, 20111222);
    assert_eq!(
        card.description,
        format!("\n{:<66}\n{:<66}", " first line of the description", " second line")
    );
    assert_eq!(
        card.directory,
        vec![
            DirectoryEntry { MF: 1, MT: 451, NC: 12, MOD: 5 },
            DirectoryEntry { MF: 3, MT: 1, NC: 100, MOD: 2 },
        ]
    );
}

#[test]
fn description_card_missing_terminator() {
    for end in [(0, 1), (451, 99999), (1, 0)] {
        let mut source = Source::new(description_lines(4, 2, end));
        assert_eq!(
            DescriptionCard::read_from(&mut source).err(),
            Some(ReadError::MissingSectionTerminator)
        );
    }
}

#[test]
fn description_card_counts() {
    // fewer words than two make no description
    let mut lines = description_lines(1, 2, (0, 99999));
    lines.remove(7);
    lines.remove(7);
    let mut source = Source::new(lines);
    let card = DescriptionCard::read_from(&mut source).unwrap();
    assert_eq!(card.description, "");
    assert_eq!(card.directory.len(), 2);

    // a negative number of sections makes no directory
    let mut lines = description_lines(4, -3, (0, 99999));
    lines.remove(9);
    lines.remove(9);
    let mut source = Source::new(lines);
    let card = DescriptionCard::read_from(&mut source).unwrap();
    assert_eq!(card.directory.len(), 0);
    assert_eq!(card.NXC, -3);

    // a directory that is longer than the records there runs into the end
    let mut source = Source::new(description_lines(4, 3, (0, 99999)));
    assert_eq!(DescriptionCard::read_from(&mut source).err(), Some(ReadError::BadInt));
    let mut lines = description_lines(4, 3, (0, 99999));
    lines.pop();
    let mut source = Source::new(lines);
    assert_eq!(DescriptionCard::read_from(&mut source).err(), Some(ReadError::RecordTooShort));
}

#[test]
fn description_card_absent() {
    let lines = vec![record("", 3, 1, 1), record("", 3, 0, 99999)];
    let mut source = Source::new(lines);
    assert_eq!(DescriptionCard::read_from(&mut source).err(), Some(ReadError::Eof));
    assert_eq!(source.consumed(), 2);
}

#[test]
fn description_card_bad_records() {
    let mut lines = description_lines(4, 2, (0, 99999));
    lines[3] = record(&fields(&["1.0", "bad", "1", "0", "10", "7"]), 1, 451, 3);
    let mut source = Source::new(lines);
    assert_eq!(DescriptionCard::read_from(&mut source).err(), Some(ReadError::BadFloat));
    assert_eq!(source.consumed(), 4);

    let mut lines = description_lines(4, 2, (0, 99999));
    lines.truncate(6);
    let mut source = Source::new(lines);
    assert_eq!(DescriptionCard::read_from(&mut source).err(), Some(ReadError::RecordTooShort));
    assert_eq!(source.consumed(), 6);
}

fn tab1(pairs: &[(&str, &str)]) -> Vec<String> {
    let np = pairs.len().to_string();
    let mut lines = vec![
        record(&fields(&["0.0", "0.0", "0", "0", "1", &np]), 1, 460, 2),
        record(&fields(&[&np, "2"]), 1, 460, 3),
    ];
    let flat: Vec<&str> = pairs.iter().flat_map(|p| [p.0, p.1]).collect();
    for row in flat.chunks(6) {
        lines.push(record(&fields(row), 1, 460, 4));
    }
    lines
}

#[test]
fn delayed_photons_discrete() {
    let mut lines = vec![
        record("", 1, 451, 1),
        record(&fields(&[" 9.423900+4", " 2.369986+2", "1", "0", "2", "0"]), 1, 460, 1),
    ];
    lines.extend(tab1(&[("1.0", "2.0")]));
    lines.extend(tab1(&[("3.0", "4.0"), ("5.0", "6.0")]));
    let total = lines.len();
    let mut source = Source::new(lines);
    match DelayedPhotonData::read_from(&mut source).unwrap() {
        DelayedPhotonData::Discrete(tabs) => {
            assert_eq!(tabs.len(), 2);
            assert_eq!(tabs[0].data.len(), 1);
            assert_eq!(tabs[1].data.len(), 2);
            let (x, y) = tabs[1].data.point(1).unwrap();
            assert_eq!((value(x), value(y)), (5.0, 6.0));
        }
        DelayedPhotonData::Continuous(_) => panic!("discrete data were decoded as continuous"),
    }
    assert_eq!(source.consumed(), total);
}

#[test]
fn delayed_photons_discrete_without_tables() {
    for ng in ["0", "-4"] {
        let lines = vec![record(&fields(&["0.0", "0.0", "1", "0", ng, "0"]), 1, 460, 1)];
        let mut source = Source::new(lines);
        match DelayedPhotonData::read_from(&mut source).unwrap() {
            DelayedPhotonData::Discrete(tabs) => assert!(tabs.is_empty()),
            DelayedPhotonData::Continuous(_) => panic!("discrete data were decoded as continuous"),
        }
    }
}

#[test]
fn delayed_photons_continuous() {
    let lines = vec![
        record(&fields(&["0.0", "0.0", "2", "0", "0", "0"]), 1, 460, 1),
        record(&fields(&["0.0", "0.0", "0", "0", "8", "0"]), 1, 460, 2),
        record(&fields(&["1.0", "2.0", "3.0", "4.0", "5.0", "6.0"]), 1, 460, 3),
        record(&fields(&[" 7.000000+0", " 8.000000-1"]), 1, 460, 4),
    ];
    let mut source = Source::new(lines);
    match DelayedPhotonData::read_from(&mut source).unwrap() {
        DelayedPhotonData::Continuous(list) => {
            let v: Vec<f64> = list.iter().map(value).collect();
            assert_eq!(v, vec![1.0, 2.0, 3.0, 4.0, 5.0, 6.0, 7.0, 0.8]);
        }
        DelayedPhotonData::Discrete(_) => panic!("continuous data were decoded as discrete"),
    }
    assert_eq!(source.consumed(), 4);
}

#[test]
fn delayed_photons_negative_length_runs_to_the_end() {
    let lines = vec![
        record(&fields(&["0.0", "0.0", "2", "0", "0", "0"]), 1, 460, 1),
        record(&fields(&["0.0", "0.0", "0", "0", "-1", "0"]), 1, 460, 2),
        record(&fields(&["1.0", "2.0"]), 1, 460, 3),
    ];
    let mut source = Source::new(lines);
    assert_eq!(DelayedPhotonData::read_from(&mut source).err(), Some(ReadError::RecordTooShort));
    assert_eq!(source.consumed(), 3);
}

#[test]
fn delayed_photons_errors() {
    // no such section
    let mut source = Source::new(vec![record("", 1, 451, 1)]);
    assert_eq!(DelayedPhotonData::read_from(&mut source).err(), Some(ReadError::Eof));
    // another representation than the two
    let lines = vec![record(&fields(&["0.0", "0.0", "3", "0", "1", "0"]), 1, 460, 1)];
    let mut source = Source::new(lines);
    assert_eq!(DelayedPhotonData::read_from(&mut source).err(), Some(ReadError::Eof));
    assert_eq!(source.consumed(), 1);
    // a header that is no CONT record
    let lines = vec![record("text", 1, 460, 1)];
    let mut source = Source::new(lines);
    assert_eq!(DelayedPhotonData::read_from(&mut source).err(), Some(ReadError::BadFloat));
    // a table that does not decode
    let lines = vec![
        record(&fields(&["0.0", "0.0", "1", "0", "1", "0"]), 1, 460, 1),
        record(&fields(&["0.0", "0.0", "0", "0", "1", "1"]), 1, 460, 2),
        record(&fields(&["1", "0"]), 1, 460, 3),
    ];
    let mut source = Source::new(lines);
    assert_eq!(
        DelayedPhotonData::read_from(&mut source).err(),
        Some(ReadError::InvalidInterpolation)
    );
}
