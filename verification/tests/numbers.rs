use endf::{parse_real, parse_real_buf, Decimal, ReadError, Real};

fn value(r: &Real) -> f64 {
    r.as_str().parse().expect("a decoded real is a literal that std parses")
}

#[test]
fn parse_real_bare_exponent() {
    let r = parse_real(" 9.423900+4").unwrap();
    assert_eq!(r.as_str(), "9.423900e+4");
    assert_eq!(value(&r), 9.4239e+4);
}

#[test]
fn parse_real_negative_bare_exponent() {
    let r = parse_real(" 6.15077-10").unwrap();
    assert_eq!(r.as_str(), "6.15077e-10");
    assert_eq!(value(&r), 6.15077e-10);
}

#[test]
fn parse_real_leading_sign_is_no_exponent() {
    let r = parse_real("-1.234567+2").unwrap();
    assert_eq!(r.as_str(), "-1.234567e+2");
    assert_eq!(value(&r), -123.4567);
    let r = parse_real("+2.5-1").unwrap();
    assert_eq!(r.as_str(), "+2.5e-1");
    assert_eq!(value(&r), 0.25);
}

#[test]
fn parse_real_marked_exponent_unchanged() {
    let r = parse_real("  1.5e-3 ").unwrap();
    assert_eq!(r.as_str(), "1.5e-3");
    assert_eq!(value(&r), 1.5e-3);
    let r = parse_real("9.4239e+4").unwrap();
    assert_eq!(value(&r), "9.4239e+4".parse::<f64>().unwrap());
}

#[test]
fn parse_real_without_exponent() {
    assert_eq!(value(&parse_real(" 0.0       ").unwrap()), 0.0);
    assert_eq!(value(&parse_real("42").unwrap()), 42.0);
    assert_eq!(value(&parse_real("-7.").unwrap()), -7.0);
    assert_eq!(value(&parse_real(".5").unwrap()), 0.5);
}

#[test]
fn parse_real_special_words() {
    assert_eq!(value(&parse_real("inf").unwrap()), f64::INFINITY);
    assert_eq!(value(&parse_real("-INF").unwrap()), f64::NEG_INFINITY);
    assert_eq!(value(&parse_real("Infinity").unwrap()), f64::INFINITY);
    assert!(value(&parse_real("NaN").unwrap()).is_nan());
}

#[test]
fn parse_real_rejects_what_is_no_number() {
    for s in ["", "   ", "+", "-", ".", "abc", "1.2.3", "1e", "1e+", "e5", "1 2", "1,5", "--1", "1+", "infinit", "na"] {
        assert_eq!(parse_real(s).err(), Some(ReadError::BadFloat), "{:?}", s);
    }
}

#[test]
fn parse_real_upper_case_letter_is_a_marker() {
    let r = parse_real("1.5E+3").unwrap();
    assert_eq!(r.as_str(), "1.5E+3");
    assert_eq!(value(&r), 1500.0);
    let r = parse_real(" -2.5E-1 ").unwrap();
    assert_eq!(r.as_str(), "-2.5E-1");
    assert_eq!(value(&r), -0.25);
    assert_eq!(value(&parse_real("1.5E3").unwrap()), 1500.0);
    // with a letter no other is put in, whatever signs the field holds
    assert_eq!(parse_real("1+2E3").err(), Some(ReadError::BadFloat));
    assert_eq!(parse_real("E+3").err(), Some(ReadError::BadFloat));
}

#[test]
fn parse_real_second_sign_stays() {
    // only the first sign after the leading one takes the letter
    assert_eq!(parse_real("1+2+3").err(), Some(ReadError::BadFloat));
}

#[test]
fn parse_real_agrees_with_std_on_plain_literals() {
    let samples = [
        "0", "1", "1.", ".1", ".", "", "+", "-", "+1", "-1", "+.5", "-5.", "00012", "1.25",
        "1e5", "1e+5", "1e-5", "1.e5", ".5e5", "e", "e5", "1e", "1e+", "1e5e5", "1e5.0",
        "1.5e", "inf", "INF", "iNf", "infinity", "INFINITY", "infinit", "infinityy", "nan",
        "NAN", "nane", "+inf", "-nan", "+-1", "1_000", "0x10", "1f", "١", "１", "1 ", " 1",
        "\t1.5\n", "\u{a0}2.5\u{2003}", "1\u{a0}2", "12345678901234567890123",
        "0.000000000000000000000000000001", "1e400", "1e-400", "e1e",
    ];
    for s in samples {
        // a sign inside is a bare exponent and changes the text; these samples have none
        let inner_sign = s.trim().chars().skip(1).any(|c| c == '+' || c == '-');
        if inner_sign && !s.contains('e') && !s.contains('E') {
            continue;
        }
        let ours = parse_real(s);
        let std = s.trim().parse::<f64>();
        assert_eq!(ours.is_ok(), std.is_ok(), "{:?}", s);
        if let (Ok(r), Ok(x)) = (ours, std) {
            assert_eq!(r.as_str(), s.trim(), "{:?}", s);
            let v = value(&r);
            assert!(v == x || (v.is_nan() && x.is_nan()), "{:?}", s);
        }
    }
}

#[test]
fn parse_real_trims_as_std_does() {
    let r = parse_real("\u{2028}\u{3000} 1.5e2\u{85}\u{1680}").unwrap();
    assert_eq!(r.as_str(), "1.5e2");
    // a zero-width space is no space
    assert_eq!(parse_real("\u{200b}1.5e2").err(), Some(ReadError::BadFloat));
}

#[test]
fn parse_real_buf_builds_in_scratch() {
    let mut scratch = String::from("old");
    let r = parse_real_buf(" 1.323138-8", &mut scratch).unwrap();
    assert_eq!(scratch, "1.323138e-8");
    assert_eq!(value(&r), 1.323138e-8);
    // a field with the letter leaves the scratch as it was
    let r = parse_real_buf("2e3", &mut scratch).unwrap();
    assert_eq!(scratch, "1.323138e-8");
    assert_eq!(value(&r), 2000.0);
    let r = parse_real_buf("2E-3", &mut scratch).unwrap();
    assert_eq!(scratch, "1.323138e-8");
    assert_eq!(value(&r), 0.002);
    // a field that is no number still builds its normal form
    assert_eq!(parse_real_buf(" x+y ", &mut scratch).err(), Some(ReadError::BadFloat));
    assert_eq!(scratch, "xe+y");
}

#[test]
fn real_clone_and_equality() {
    let r = parse_real("1.0+1").unwrap();
    let c = r.clone();
    assert_eq!(r, c);
    assert_eq!(c.as_str(), "1.0e+1");
    assert_ne!(r, parse_real("10").unwrap());
}

fn decimal(s: &str) -> Option<Decimal> {
    parse_real(s).unwrap().decimal()
}

#[test]
fn decimal_of_bare_exponent() {
    // 9423900 x 10^(4 - 6) = 94239
    assert_eq!(
        decimal(" 9.423900+4"),
        Some(Decimal { negative: false, digits: 9423900, exponent: 4, scale: 6 })
    );
    assert_eq!(
        decimal("-6.15077-10"),
        Some(Decimal { negative: true, digits: 615077, exponent: -10, scale: 5 })
    );
}

#[test]
fn decimal_of_literals() {
    assert_eq!(decimal("42"), Some(Decimal { negative: false, digits: 42, exponent: 0, scale: 0 }));
    assert_eq!(decimal("+.5"), Some(Decimal { negative: false, digits: 5, exponent: 0, scale: 1 }));
    assert_eq!(decimal("-5."), Some(Decimal { negative: true, digits: 5, exponent: 0, scale: 0 }));
    assert_eq!(
        decimal("0001.50"),
        Some(Decimal { negative: false, digits: 150, exponent: 0, scale: 2 })
    );
    assert_eq!(
        decimal("-1.5e-3"),
        Some(Decimal { negative: true, digits: 15, exponent: -3, scale: 1 })
    );
    assert_eq!(decimal("2E7"), Some(Decimal { negative: false, digits: 2, exponent: 7, scale: 0 }));
    assert_eq!(
        decimal("1.5E+3"),
        Some(Decimal { negative: false, digits: 15, exponent: 3, scale: 1 })
    );
    assert_eq!(decimal("-0"), Some(Decimal { negative: true, digits: 0, exponent: 0, scale: 0 }));
}

#[test]
fn decimal_of_special_words_is_none() {
    for s in ["inf", "-inf", "+Infinity", "nan", "NAN"] {
        assert_eq!(decimal(s), None, "{:?}", s);
    }
}

#[test]
fn decimal_at_the_limits() {
    assert_eq!(
        decimal("18446744073709551615"),
        Some(Decimal { negative: false, digits: u64::MAX, exponent: 0, scale: 0 })
    );
    assert_eq!(
        decimal("1844674407370955.1615"),
        Some(Decimal { negative: false, digits: u64::MAX, exponent: 0, scale: 4 })
    );
    assert_eq!(decimal("18446744073709551616"), None);
    assert_eq!(decimal("12345678901234567890123"), None);
    assert_eq!(decimal("184467440737095516150"), None);
    assert_eq!(
        decimal("000000000000000000000000000001"),
        Some(Decimal { negative: false, digits: 1, exponent: 0, scale: 0 })
    );
    assert_eq!(
        decimal("1e2147483647"),
        Some(Decimal { negative: false, digits: 1, exponent: i32::MAX, scale: 0 })
    );
    assert_eq!(
        decimal("1e-2147483648"),
        Some(Decimal { negative: false, digits: 1, exponent: i32::MIN, scale: 0 })
    );
    assert_eq!(decimal("1e2147483648"), None);
    assert_eq!(decimal("1e-2147483649"), None);
}

#[test]
fn decimal_is_the_value() {
    for s in [" 9.423900+4", " 2.369986+2", "-1.234567-3", "1.5e10", "0.001", "123456", "7.-2"] {
        let r = parse_real(s).unwrap();
        let d = r.decimal().unwrap();
        let magnitude = d.digits as f64 * 10f64.powi(d.exponent - d.scale as i32);
        let expected = if d.negative { -magnitude } else { magnitude };
        let v = value(&r);
        assert!((v - expected).abs() <= v.abs() * 1e-12, "{:?}: {} {}", s, v, expected);
    }
}
