use toylisp::number::{chars_of, is_float_literal, parse_i64};
use toylisp::text::{push_decimal, push_hex, push_int};

const SAMPLES: [&str; 78] = [
    "", "0", "1", "-1", "+1", "+", "-", "+-1", "--1", "007", "-0", "+0", "12a", "a12", " 1", "1 ",
    "9223372036854775807", "9223372036854775808", "-9223372036854775808", "-9223372036854775809",
    "+9223372036854775807", "99999999999999999999999", "-99999999999999999999999",
    "000000000000000000000000001", "1.0", "1.", ".1", ".", "-.", "+.5", "-5.", "1e5", "1E5",
    "1e+5", "1e-5", "1e", "1e+", "1e-", "e5", ".e5", "1.e5", ".5e5", "1.5e5x", "1.5.5", "1e5e5",
    "1e5.5", "inf", "INF", "Inf", "-inf", "+inf", "infinity", "INFINITY", "-Infinity", "infinit",
    "infinityy", "nan", "NaN", "-nan", "+NaN", "nana", "na", "in", "i", "1_000", "0x10", "1f",
    "1u", "1i", "١", "1١", "1e١", "1.0e0", "0.0", "00.00", "1e0000000005", "5e-324", "1e400",
];

#[test]
fn integer_reading_agrees_with_the_standard_library() {
    for s in SAMPLES {
        assert_eq!(parse_i64(s), s.parse::<i64>().ok(), "on {:?}", s);
    }
}

#[test]
fn float_syntax_agrees_with_the_standard_library() {
    for s in SAMPLES {
        assert_eq!(is_float_literal(s), s.parse::<f64>().is_ok(), "on {:?}", s);
    }
}

#[test]
fn integers_are_read_exactly() {
    assert_eq!(parse_i64("0"), Some(0));
    assert_eq!(parse_i64("42"), Some(42));
    assert_eq!(parse_i64("-42"), Some(-42));
    assert_eq!(parse_i64("+42"), Some(42));
    assert_eq!(parse_i64("9223372036854775807"), Some(i64::MAX));
    assert_eq!(parse_i64("-9223372036854775808"), Some(i64::MIN));
    assert_eq!(parse_i64("9223372036854775808"), None);
    assert_eq!(parse_i64("-9223372036854775809"), None);
    assert_eq!(parse_i64("18446744073709551616"), None);
    assert_eq!(parse_i64(""), None);
    assert_eq!(parse_i64("-"), None);
    assert_eq!(parse_i64("1.0"), None);
}

#[test]
fn chars_of_keeps_every_character_in_order() {
    assert_eq!(chars_of(""), Vec::<char>::new());
    assert_eq!(chars_of("a\u{e9}\u{1f600}z"), vec!['a', '\u{e9}', '\u{1f600}', 'z']);
}

#[test]
fn decimal_digits_are_appended() {
    let mut s = String::from("n=");
    push_decimal(&mut s, 0);
    assert_eq!(s, "n=0");
    push_decimal(&mut s, 1234567890);
    assert_eq!(s, "n=01234567890");
    let mut s = String::new();
    push_decimal(&mut s, u64::MAX);
    assert_eq!(s, "18446744073709551615");
}

#[test]
fn hexadecimal_digits_are_appended_in_lower_case() {
    let mut s = String::new();
    push_hex(&mut s, 0);
    assert_eq!(s, "0");
    let mut s = String::new();
    push_hex(&mut s, 0x1f600);
    assert_eq!(s, "1f600");
    let mut s = String::new();
    push_hex(&mut s, 0xABCDEF);
    assert_eq!(s, "abcdef");
    let mut s = String::new();
    push_hex(&mut s, u64::MAX);
    assert_eq!(s, "ffffffffffffffff");
}

#[test]
fn signed_integers_are_appended_with_their_sign() {
    for i in [0i64, 5, -5, 10, -10, 123456789, i64::MAX, i64::MIN, i64::MIN + 1] {
        let mut s = String::new();
        push_int(&mut s, i);
        assert_eq!(s, format!("{}", i));
        assert_eq!(parse_i64(&s), Some(i));
    }
}
