use endf::integer::{parse_int, parse_int_field};
use endf::number::is_real;
use endf::text::{char_is_space, trim_slice};
use endf::{parse_real, ReadError};

/// Every string over `alphabet` of at most `max` characters.
fn strings(alphabet: &[char], max: usize) -> Vec<String> {
    let mut all = vec![String::new()];
    let mut last = vec![String::new()];
    for _ in 0..max {
        let mut next = Vec::new();
        for s in &last {
            for c in alphabet {
                let mut t = s.clone();
                t.push(*c);
                next.push(t);
            }
        }
        all.extend(next.iter().cloned());
        last = next;
    }
    all
}

/// The text that decoding hands to the parser of std: the trimmed field, with
/// the letter put before the first sign after the leading one where the
/// field has no letter, lower or upper case.
fn normal_form(s: &str) -> String {
    if s.contains('e') || s.contains('E') {
        return s.trim().to_string();
    }
    let mut buf = String::new();
    let mut rest = s.trim();
    if rest.starts_with('-') || rest.starts_with('+') {
        buf.push_str(&rest[..1]);
        rest = &rest[1..];
    }
    match rest.find(|c| c == '+' || c == '-') {
        None => buf.push_str(rest),
        Some(x) => {
            buf.push_str(&rest[..x]);
            buf.push('e');
            buf.push_str(&rest[x..]);
        }
    }
    buf
}

#[test]
fn spaces_are_those_of_std() {
    let mut c = '\0';
    loop {
        assert_eq!(char_is_space(c), c.is_whitespace(), "{:?}", c);
        if c == char::MAX {
            break;
        }
        c = char::from_u32(c as u32 + 1).unwrap_or('\u{e000}');
    }
}

#[test]
fn trimming_is_that_of_std() {
    for s in strings(&[' ', '\t', 'a', '\u{a0}', '\u{200b}'], 5) {
        let chars: Vec<char> = s.chars().collect();
        let trimmed: String = trim_slice(&chars).iter().collect();
        assert_eq!(trimmed, s.trim(), "{:?}", s);
    }
}

#[test]
fn integers_are_those_of_std() {
    for s in strings(&['0', '1', '9', '+', '-', ' ', 'a'], 6) {
        let chars: Vec<char> = s.chars().collect();
        assert_eq!(parse_int(&chars), s.parse::<i32>().ok(), "{:?}", s);
        assert_eq!(parse_int_field(&chars), s.trim().parse::<i32>().ok(), "{:?}", s);
    }
}

#[test]
fn integers_at_the_limits() {
    let around: [i64; 8] = [
        i32::MAX as i64 - 1,
        i32::MAX as i64,
        i32::MAX as i64 + 1,
        i32::MIN as i64 + 1,
        i32::MIN as i64,
        i32::MIN as i64 - 1,
        i64::MAX,
        i64::MIN,
    ];
    for n in around {
        for text in [n.to_string(), format!("{:+}", n), format!("000{}", n), format!("{}0", n)] {
            let chars: Vec<char> = text.chars().collect();
            assert_eq!(parse_int(&chars), text.parse::<i32>().ok(), "{:?}", text);
        }
    }
    let long: Vec<char> = "0".repeat(40).chars().chain("12".chars()).collect();
    assert_eq!(parse_int(&long), Some(12));
    let huge: Vec<char> = "9".repeat(40).chars().collect();
    assert_eq!(parse_int(&huge), None);
}

#[test]
fn literals_are_those_of_std() {
    let alphabet = ['1', '0', '.', 'e', 'E', '+', '-', 'i', 'n', 'f', 'a'];
    for s in strings(&alphabet, 5) {
        let chars: Vec<char> = s.chars().collect();
        assert_eq!(is_real(&chars), s.parse::<f64>().is_ok(), "{:?}", s);
    }
    for s in ["infinity", "INFINITY", "Infinity", "+infinity", "-iNfInItY", "infinit", "infinityy",
              "infinity1", "1infinity", "infinite", "nan", "-NaN", "nann", "in", "i", "inff"] {
        let chars: Vec<char> = s.chars().collect();
        assert_eq!(is_real(&chars), s.parse::<f64>().is_ok(), "{:?}", s);
    }
}

#[test]
fn fields_are_decoded_as_std_parses_their_normal_form() {
    let alphabet = ['1', '.', 'e', 'E', '+', '-', ' ', 'n', 'a'];
    for s in strings(&alphabet, 5) {
        let expected = normal_form(&s);
        match parse_real(&s) {
            Ok(r) => {
                assert_eq!(r.as_str(), expected, "{:?}", s);
                assert!(expected.parse::<f64>().is_ok(), "{:?}", s);
            }
            Err(e) => {
                assert_eq!(e, ReadError::BadFloat);
                assert!(expected.parse::<f64>().is_err(), "{:?}", s);
            }
        }
    }
}
