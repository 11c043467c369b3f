use endf::{
    read_int_rows, read_real_list, read_real_rows, InterpolationInterval, InterpolationScheme,
    PairTable, ReadError, Real, Source, Tab1, Tab2,
};

fn value(r: &Real) -> f64 {
    r.as_str().parse().unwrap()
}

fn payload(fields: &[&str]) -> String {
    assert!(fields.len() <= 6);
    let mut s = String::new();
    for f in fields {
        assert!(f.len() <= 11);
        s.push_str(&format!("{:>11}", f));
    }
    format!("{:<66}{:>4}{:>2}{:>3}{:>5}", s, 9437, 3, 1, 1)
}

fn points(t: &PairTable) -> Vec<(f64, f64)> {
    let mut v = Vec::new();
    for i in 0..t.len() {
        let (x, y) = t.point(i).unwrap();
        v.push((value(x), value(y)));
    }
    assert!(t.point(t.len()).is_none());
    v
}

/// A TAB1 with one linear-linear interval over `pairs`.
fn tab1_lines(pairs: &[(&str, &str)]) -> Vec<String> {
    let np = pairs.len().to_string();
    let mut lines = vec![
        payload(&[" 1.000000+0", " 2.000000+0", "3", "4", "1", &np]),
        payload(&[&np, "2"]),
    ];
    let flat: Vec<&str> = pairs.iter().flat_map(|p| [p.0, p.1]).collect();
    for row in flat.chunks(6) {
        lines.push(payload(row));
    }
    lines
}

#[test]
fn scheme_codes() {
    let all = [
        InterpolationScheme::ConstantHistogram,
        InterpolationScheme::LinearLinear,
        InterpolationScheme::LinearLog,
        InterpolationScheme::LogLinear,
        InterpolationScheme::LogLog,
        InterpolationScheme::Special,
    ];
    for (i, scheme) in all.iter().enumerate() {
        let code = i as i32 + 1;
        assert_eq!(InterpolationScheme::try_from(code), Ok(*scheme));
        let back: i32 = (*scheme).into();
        assert_eq!(back, code);
        assert_eq!(i32::from(*scheme), code);
    }
    for code in [0, 7, -1, 99, 11, i32::MAX, i32::MIN] {
        assert_eq!(InterpolationScheme::try_from(code), Err(ReadError::InvalidInterpolation));
    }
}

#[test]
fn intervals_from_pairs() {
    let flat = vec![3, 2, 10, 5, 12, 1];
    let intervals = InterpolationInterval::from_pairs(&flat).unwrap();
    assert_eq!(
        intervals,
        vec![
            InterpolationInterval { scheme: InterpolationScheme::LinearLinear, start: 0, end: 3 },
            InterpolationInterval { scheme: InterpolationScheme::LogLog, start: 3, end: 10 },
            InterpolationInterval {
                scheme: InterpolationScheme::ConstantHistogram,
                start: 10,
                end: 12
            },
        ]
    );
    assert_eq!(InterpolationInterval::from_pairs(&Vec::new()), Ok(Vec::new()));
    assert_eq!(
        InterpolationInterval::from_pairs(&vec![3, 2, 10, 0]),
        Err(ReadError::InvalidInterpolation)
    );
    // a boundary is no scheme code: only every second integer is one
    assert_eq!(InterpolationInterval::from_pairs(&vec![99, 2]).map(|v| v.len()), Ok(1));
    // a negative boundary wraps around
    let wrapped = InterpolationInterval::from_pairs(&vec![-1, 2, 5, 2]).unwrap();
    assert_eq!(wrapped[0].end, usize::MAX);
    assert_eq!(wrapped[1].start, usize::MAX);
    assert_eq!(wrapped[1].end, 5);
    // an integer without a partner is left out
    assert_eq!(InterpolationInterval::from_pairs(&vec![4, 3, 9]).map(|v| v.len()), Ok(1));
}

#[test]
fn pair_table_rows() {
    let raw: Vec<Real> =
        ["1", "2", "3", "4", "5", "6"].iter().map(|s| endf::parse_real(s).unwrap()).collect();
    let table = PairTable::new(raw.clone(), 3).unwrap();
    assert_eq!(table.len(), 3);
    assert_eq!(points(&table), vec![(1.0, 2.0), (3.0, 4.0), (5.0, 6.0)]);
    assert!(PairTable::new(raw.clone(), 2).is_none());
    assert!(PairTable::new(raw, 4).is_none());
    let empty = PairTable::new(Vec::new(), 0).unwrap();
    assert_eq!(empty.len(), 0);
    assert!(empty.point(0).is_none());
    let odd: Vec<Real> = vec![endf::parse_real("1").unwrap()];
    assert!(PairTable::new(odd, 0).is_none());
}

#[test]
fn tab1_round_trip() {
    let pairs = [
        ("1.000000-5", "0.000000+0"),
        ("2.530000-2", "1.500000+0"),
        ("1.000000+3", "2.500000+0"),
        ("2.000000+7", "-3.50000-1"),
    ];
    let lines = tab1_lines(&pairs);
    assert_eq!(lines.len(), 4);
    let mut source = Source::new(lines);
    let tab = Tab1::read_from(&mut source).unwrap();
    assert_eq!(value(&tab.head.0), 1.0);
    assert_eq!(value(&tab.head.1), 2.0);
    assert_eq!((tab.head.2, tab.head.3), (3, 4));
    assert_eq!(
        tab.intervals,
        vec![InterpolationInterval { scheme: InterpolationScheme::LinearLinear, start: 0, end: 4 }]
    );
    assert_eq!(
        points(&tab.data),
        vec![(1.0e-5, 0.0), (2.53e-2, 1.5), (1.0e3, 2.5), (2.0e7, -0.35)]
    );
    assert_eq!(source.consumed(), 4);
}

#[test]
fn tab1_consumes_the_lines_that_carry_its_values() {
    // NR = 4: 8 integers on 2 lines; NP = 7: 14 reals on 3 lines
    let mut lines = vec![
        payload(&["0.0", "0.0", "0", "0", "4", "7"]),
        payload(&["2", "1", "4", "2", "6", "3"]),
        payload(&["7", "4"]),
        payload(&["1.0", "10.0", "2.0", "20.0", "3.0", "30.0"]),
        payload(&["4.0", "40.0", "5.0", "50.0", "6.0", "60.0"]),
        payload(&["7.0", "70.0"]),
    ];
    lines.push(payload(&["next"]));
    let mut source = Source::new(lines.clone());
    let tab = Tab1::read_from(&mut source).unwrap();
    assert_eq!(source.consumed(), 6);
    assert_eq!(tab.intervals.len(), 4);
    assert_eq!(tab.intervals[0].start, 0);
    assert_eq!(tab.intervals[1], InterpolationInterval {
        scheme: InterpolationScheme::LinearLinear,
        start: 2,
        end: 4
    });
    assert_eq!(tab.intervals[3].end, 7);
    assert_eq!(tab.data.len(), 7);
    assert_eq!(points(&tab.data)[6], (7.0, 70.0));

    // decoding the same lines again, from another source at another position, gives the same
    let mut shifted = vec![payload(&["before"])];
    shifted.extend(lines);
    let mut other = Source::new(shifted);
    other.read_line();
    let again = Tab1::read_from(&mut other).unwrap();
    assert_eq!(other.consumed(), 7);
    assert_eq!(again.intervals, tab.intervals);
    assert_eq!(again.data, tab.data);
    assert_eq!(again.head, tab.head);
}

#[test]
fn tab1_exact_multiple_of_six() {
    // NR = 3: 6 integers on 1 line; NP = 3: 6 reals on 1 line
    let lines = vec![
        payload(&["0.0", "0.0", "0", "0", "3", "3"]),
        payload(&["1", "1", "2", "2", "3", "3"]),
        payload(&["1.0", "10.0", "2.0", "20.0", "3.0", "30.0"]),
        payload(&["4.0", "40.0"]),
    ];
    let mut source = Source::new(lines);
    let tab = Tab1::read_from(&mut source).unwrap();
    assert_eq!(source.consumed(), 3);
    assert_eq!(tab.intervals.len(), 3);
    assert_eq!(points(&tab.data), vec![(1.0, 10.0), (2.0, 20.0), (3.0, 30.0)]);
}

#[test]
fn tab1_empty() {
    let lines = vec![payload(&["0.0", "0.0", "0", "0", "0", "0"]), payload(&["1.0"])];
    let mut source = Source::new(lines);
    let tab = Tab1::read_from(&mut source).unwrap();
    assert_eq!(source.consumed(), 1);
    assert!(tab.intervals.is_empty());
    assert_eq!(tab.data.len(), 0);
}

#[test]
fn tab1_too_few_interval_integers() {
    // NR = 2 needs four integers on one line; three are there
    let lines = vec![
        payload(&["0.0", "0.0", "0", "0", "2", "1"]),
        payload(&["1", "2", "1"]),
        payload(&["1.0", "10.0"]),
    ];
    let mut source = Source::new(lines);
    assert_eq!(Tab1::read_from(&mut source).err(), Some(ReadError::InvalidElementCount));
    assert_eq!(source.consumed(), 2);
}

#[test]
fn tab1_too_many_interval_integers() {
    let lines = vec![
        payload(&["0.0", "0.0", "0", "0", "1", "1"]),
        payload(&["1", "2", "1", "2"]),
        payload(&["1.0", "10.0"]),
    ];
    let mut source = Source::new(lines);
    assert_eq!(Tab1::read_from(&mut source).err(), Some(ReadError::InvalidElementCount));
}

#[test]
fn tab1_wrong_number_of_reals() {
    let lines = vec![
        payload(&["0.0", "0.0", "0", "0", "1", "2"]),
        payload(&["2", "2"]),
        payload(&["1.0", "10.0", "2.0"]),
    ];
    let mut source = Source::new(lines);
    assert_eq!(Tab1::read_from(&mut source).err(), Some(ReadError::InvalidElementCount));
    assert_eq!(source.consumed(), 3);
}

#[test]
fn tab1_unknown_scheme() {
    let lines = vec![
        payload(&["0.0", "0.0", "0", "0", "1", "1"]),
        payload(&["1", "99"]),
        payload(&["1.0", "10.0"]),
    ];
    let mut source = Source::new(lines);
    assert_eq!(Tab1::read_from(&mut source).err(), Some(ReadError::InvalidInterpolation));
    // the points were not read
    assert_eq!(source.consumed(), 2);
}

#[test]
fn tab1_negative_counts() {
    for (nr, np) in [("-1", "1"), ("1", "-1"), ("-2147483648", "0")] {
        let lines = vec![payload(&["0.0", "0.0", "0", "0", nr, np]), payload(&["1", "2"])];
        let mut source = Source::new(lines);
        assert_eq!(Tab1::read_from(&mut source).err(), Some(ReadError::InvalidElementCount));
        assert_eq!(source.consumed(), 1);
    }
}

#[test]
fn tab1_errors_of_records() {
    // no header at all
    let mut source = Source::new(Vec::new());
    assert_eq!(Tab1::read_from(&mut source).err(), Some(ReadError::RecordTooShort));
    assert_eq!(source.consumed(), 0);
    // header with a bad real
    let mut source = Source::new(vec![payload(&["x", "0.0", "0", "0", "1", "1"])]);
    assert_eq!(Tab1::read_from(&mut source).err(), Some(ReadError::BadFloat));
    // header with a bad integer
    let mut source = Source::new(vec![payload(&["0.0", "0.0", "0", "0", "1", "one"])]);
    assert_eq!(Tab1::read_from(&mut source).err(), Some(ReadError::BadInt));
    // the lines end in the interval header
    let mut source = Source::new(vec![payload(&["0.0", "0.0", "0", "0", "1", "1"])]);
    assert_eq!(Tab1::read_from(&mut source).err(), Some(ReadError::RecordTooShort));
    assert_eq!(source.consumed(), 1);
    // a bad integer in the interval header
    let mut source =
        Source::new(vec![payload(&["0.0", "0.0", "0", "0", "1", "1"]), payload(&["1", "2.0"])]);
    assert_eq!(Tab1::read_from(&mut source).err(), Some(ReadError::BadInt));
    // a bad real among the points
    let mut source = Source::new(vec![
        payload(&["0.0", "0.0", "0", "0", "1", "1"]),
        payload(&["1", "2"]),
        payload(&["1.0", "ten"]),
    ]);
    assert_eq!(Tab1::read_from(&mut source).err(), Some(ReadError::BadFloat));
    assert_eq!(source.consumed(), 3);
}

#[test]
fn tab2_nests_tab1() {
    let mut lines = vec![payload(&["5.0", "6.0", "7", "8", "1", "2"]), payload(&["2", "1"])];
    lines.extend(tab1_lines(&[("1.0", "2.0"), ("3.0", "4.0")]));
    lines.extend(tab1_lines(&[("5.0", "6.0")]));
    let total = lines.len();
    lines.push(payload(&["after"]));
    let mut source = Source::new(lines);
    let tab = Tab2::read_from(&mut source).unwrap();
    assert_eq!(source.consumed(), total);
    assert_eq!((value(&tab.head.0), value(&tab.head.1), tab.head.2, tab.head.3), (5.0, 6.0, 7, 8));
    assert_eq!(
        tab.intervals,
        vec![InterpolationInterval {
            scheme: InterpolationScheme::ConstantHistogram,
            start: 0,
            end: 2
        }]
    );
    assert_eq!(tab.data.len(), 2);
    assert_eq!(points(&tab.data[0].data), vec![(1.0, 2.0), (3.0, 4.0)]);
    assert_eq!(points(&tab.data[1].data), vec![(5.0, 6.0)]);
    assert_eq!(tab.data[1].intervals[0].end, 1);
}

#[test]
fn tab2_interval_header_takes_as_many_lines_as_carry_nr_integers() {
    // NR = 3: six integers, read from the one line that carries three
    let mut lines =
        vec![payload(&["0.0", "0.0", "0", "0", "3", "1"]), payload(&["1", "1", "2", "2", "3", "3"])];
    lines.extend(tab1_lines(&[("1.0", "2.0")]));
    let mut source = Source::new(lines);
    let tab = Tab2::read_from(&mut source).unwrap();
    assert_eq!(tab.intervals.len(), 3);
    assert_eq!(tab.data.len(), 1);

    // NR = 4: eight integers on two lines, of which only the first is read
    let lines = vec![
        payload(&["0.0", "0.0", "0", "0", "4", "0"]),
        payload(&["1", "1", "2", "2", "3", "3"]),
        payload(&["4", "4"]),
    ];
    let mut source = Source::new(lines);
    assert_eq!(Tab2::read_from(&mut source).err(), Some(ReadError::InvalidElementCount));
    assert_eq!(source.consumed(), 2);
}

#[test]
fn tab2_errors() {
    let mut lines = vec![payload(&["0.0", "0.0", "0", "0", "1", "2"]), payload(&["2", "1"])];
    lines.extend(tab1_lines(&[("1.0", "2.0")]));
    // the second slice is missing
    let mut source = Source::new(lines.clone());
    assert_eq!(Tab2::read_from(&mut source).err(), Some(ReadError::RecordTooShort));
    assert_eq!(source.consumed(), lines.len());
    // an unknown scheme in a slice
    lines.push(payload(&["0.0", "0.0", "0", "0", "1", "1"]));
    lines.push(payload(&["1", "7"]));
    let mut source = Source::new(lines);
    assert_eq!(Tab2::read_from(&mut source).err(), Some(ReadError::InvalidInterpolation));
    // negative counts
    let mut source = Source::new(vec![payload(&["0.0", "0.0", "0", "0", "0", "-1"])]);
    assert_eq!(Tab2::read_from(&mut source).err(), Some(ReadError::InvalidElementCount));
    // unknown scheme of its own
    let mut source =
        Source::new(vec![payload(&["0.0", "0.0", "0", "0", "1", "0"]), payload(&["0", "0"])]);
    assert_eq!(Tab2::read_from(&mut source).err(), Some(ReadError::InvalidInterpolation));
}

#[test]
fn rows_are_joined() {
    let lines = vec![
        payload(&["1", "2", "3", "4", "5", "6"]),
        payload(&["7", "8"]),
        payload(&["9"]),
    ];
    let mut source = Source::new(lines);
    assert_eq!(read_int_rows(&mut source, 2), Ok(vec![1, 2, 3, 4, 5, 6, 7, 8]));
    assert_eq!(source.consumed(), 2);
    assert_eq!(read_int_rows(&mut source, 0), Ok(Vec::new()));
    assert_eq!(read_int_rows(&mut source, 2), Err(ReadError::RecordTooShort));
    assert_eq!(source.consumed(), 3);
}

#[test]
fn real_list_reads_the_rows_that_carry_n_values() {
    let lines = vec![
        payload(&["1.0", "2.0", "3.0", "4.0", "5.0", "6.0"]),
        payload(&["7.0"]),
        payload(&["8.0"]),
    ];
    let mut source = Source::new(lines.clone());
    let list = read_real_list(&mut source, 7).unwrap();
    assert_eq!(list.iter().map(value).collect::<Vec<f64>>(), vec![1.0, 2.0, 3.0, 4.0, 5.0, 6.0, 7.0]);
    assert_eq!(source.consumed(), 2);

    let mut source = Source::new(lines.clone());
    assert_eq!(read_real_list(&mut source, 6).unwrap().len(), 6);
    assert_eq!(source.consumed(), 1);

    let mut source = Source::new(lines.clone());
    assert_eq!(read_real_list(&mut source, 0).unwrap().len(), 0);
    assert_eq!(source.consumed(), 0);

    // the values are returned as the rows hold them, be they n or not
    let mut source = Source::new(lines.clone());
    assert_eq!(read_real_list(&mut source, 13).unwrap().len(), 8);
    assert_eq!(source.consumed(), 3);

    let mut source = Source::new(lines);
    assert_eq!(read_real_rows(&mut source, 4).err(), Some(ReadError::RecordTooShort));
    assert_eq!(source.consumed(), 3);
}
