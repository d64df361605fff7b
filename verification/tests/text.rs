use finance::numbers::{amount_text, decimal_text, parse_i64, ten_digits, unsigned_text};
use finance::text::{
    ends_with, head_before_last, last_segment, less, remove_char, starts_with, strip_leading,
    strip_suffixes, strip_trailing, trim,
};

#[test]
fn numbers_round_trip() {
    assert_eq!(decimal_text(-120), "-120");
    assert_eq!(decimal_text(0), "0");
    assert_eq!(decimal_text(i64::MIN), i64::MIN.to_string());
    assert_eq!(unsigned_text(u64::MAX), u64::MAX.to_string());
    assert_eq!(ten_digits(884394), "0000884394");
    assert_eq!(ten_digits(-7), format!("{:010}", -7));
    assert_eq!(ten_digits(12345678901), "12345678901");
    for n in [0, 7, -7, 1_000_000, i64::MAX, i64::MIN] {
        assert_eq!(parse_i64(&decimal_text(n)), Some(n));
    }
}

#[test]
fn integers_as_std_reads_them() {
    for s in [
        "", "+", "-", "+5", "-0", "007", " 1", "1 ", "1.0", "1_0", "9223372036854775807",
        "9223372036854775808", "-9223372036854775808", "-9223372036854775809", "\u{661}",
    ] {
        assert_eq!(parse_i64(s), s.parse::<i64>().ok());
    }
}

#[test]
fn amounts_as_std_reads_them() {
    for s in [
        "", "+", "-", ".", "1", "-1", "+1", "1.", ".5", "-.5e3", "1e", "1e5", "1E+5", "1e-5",
        "1e+", "e5", ".e5", "inf", "-Infinity", "+NaN", "nan", "infinit", "infinityx", "0x1", "1 ",
        "1,000", "1_000", "5.2", "1..2", "--1", "1.2.3", "12e3.4", "\u{661}",
    ] {
        assert_eq!(amount_text(s), s.parse::<f64>().is_ok());
    }
}

#[test]
fn pieces_of_text() {
    assert_eq!(trim("\u{a0} a b\t\n"), "a b");
    assert_eq!(strip_leading("000320", '0'), "320");
    assert_eq!(strip_trailing("x//", '/'), "x");
    assert_eq!(strip_suffixes("4/A/A", "/A"), "4");
    assert_eq!(remove_char("a-b-", '-'), "ab");
    assert_eq!(last_segment("a/b/c", '/'), "c");
    assert_eq!(last_segment("abc", '/'), "abc");
    assert_eq!(head_before_last("a/b/c", '/').as_deref(), Some("a/b"));
    assert_eq!(head_before_last("abc", '/'), None);
    assert!(starts_with("10-K/A", "10-K") && !starts_with("10", "10-K"));
    assert!(ends_with("f.xml", ".xml") && !ends_with("xml", ".xml"));
    assert!(less("2024-01-01", "2024-02-01") && less("", "a") && !less("b", "a") && !less("a", "a"));
}
