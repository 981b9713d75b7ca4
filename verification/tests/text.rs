use pwdft::text::{
    check_float, find_byte, find_in, line_spans, parse_i32, parse_usize, push_decimal, split_whitespace, trim,
    FloatError, IntError,
};

fn spans_to_strs<'a>(s: &'a str, spans: &[(usize, usize)]) -> Vec<&'a str> {
    spans.iter().map(|&(a, b)| &s[a..b]).collect()
}

const SAMPLES: &[&str] = &[
    "", " ", "0", "42", "+7", "-7", "+", "-", "--1", "+-1", "1e5", "1E5", "1.", ".5", ".", "1.5e-3", "-2.5E+10",
    "e5", "1e", "1e+", "inf", "-Infinity", "NaN", "nan1", "infinit", "0x10", "1_000", " 1", "1 ", "4294967295",
    "4294967296", "2147483647", "2147483648", "-2147483648", "-2147483649", "18446744073709551615",
    "18446744073709551616", "99999999999999999999x", "12a", "١٢", "1.0d0", "+.e1", "00012", "-0", "+inf",
];

#[test]
fn float_syntax_matches_std() {
    for s in SAMPLES {
        let got = check_float(s.as_bytes(), 0, s.len());
        let want = match s.parse::<f64>() {
            Ok(_) => None,
            Err(_) if s.is_empty() => Some(FloatError::Empty),
            Err(_) => Some(FloatError::Invalid),
        };
        assert_eq!(got, want, "on {s:?}");
    }
}

fn int_kind(e: &std::num::ParseIntError) -> IntError {
    match e.kind() {
        std::num::IntErrorKind::Empty => IntError::Empty,
        std::num::IntErrorKind::InvalidDigit => IntError::InvalidDigit,
        std::num::IntErrorKind::PosOverflow => IntError::PosOverflow,
        std::num::IntErrorKind::NegOverflow => IntError::NegOverflow,
        _ => panic!("unexpected kind"),
    }
}

#[test]
fn usize_parsing_matches_std() {
    for s in SAMPLES {
        let got = parse_usize(s.as_bytes(), 0, s.len());
        let want = s.parse::<usize>().map_err(|e| int_kind(&e));
        assert_eq!(got, want, "on {s:?}");
    }
}

#[test]
fn i32_parsing_matches_std() {
    for s in SAMPLES {
        let got = parse_i32(s.as_bytes(), 0, s.len());
        let want = s.parse::<i32>().map_err(|e| int_kind(&e));
        assert_eq!(got, want, "on {s:?}");
    }
}

#[test]
fn lines_match_std() {
    for s in ["", "a", "a\n", "a\nb", "a\r\nb\r\n", "\n\n", "x\r", "x\ry\n", "\r\n", "  a  \n\tb"] {
        let spans = line_spans(s.as_bytes());
        let got = spans_to_strs(s, &spans);
        let want: Vec<&str> = s.lines().collect();
        assert_eq!(got, want, "on {s:?}");
    }
}

#[test]
fn split_whitespace_matches_std() {
    for s in ["", "   ", "a b", "  a\tb\n c  ", "x\u{a0}y", "p\u{2003}q\u{3000}r", "\u{85}z\u{2028}", "é ü"] {
        let spans = split_whitespace(s.as_bytes(), 0, s.len());
        let got = spans_to_strs(s, &spans);
        let want: Vec<&str> = s.split_whitespace().collect();
        assert_eq!(got, want, "on {s:?}");
    }
}

#[test]
fn trim_matches_std() {
    for s in ["", "  ", " a ", "\tab c\n", "\u{a0}x\u{2009}", "\u{3000}\u{3000}", "y\u{85}", "é"] {
        let (a, b) = trim(s.as_bytes(), 0, s.len());
        assert_eq!(&s[a..b], s.trim(), "on {s:?}");
    }
}

#[test]
fn substring_search() {
    let s = b"abcabcd";
    assert_eq!(find_in(s, b"abcd", 0, 7), Some(3));
    assert_eq!(find_in(s, b"abc", 1, 7), Some(3));
    assert_eq!(find_in(s, b"abcd", 0, 6), None);
    assert_eq!(find_in(s, b"", 2, 7), Some(2));
    assert_eq!(find_byte(s, b'c', 3, 7), Some(5));
    assert_eq!(find_byte(s, b'z', 0, 7), None);
}

#[test]
fn decimal_rendering() {
    let mut v = b"PP_BETA.".to_vec();
    push_decimal(&mut v, 12);
    assert_eq!(v, b"PP_BETA.12".to_vec());
    let mut w = Vec::new();
    push_decimal(&mut w, 0);
    assert_eq!(w, b"0".to_vec());
}
