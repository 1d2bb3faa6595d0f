use combatlog::numbers::{
    format_with_commas, parse_i32, parse_i64, parse_u32, push_decimal, push_hex, push_two_digits,
};
use combatlog::tail::{scan_lines, Marks};
use combatlog::text::lines;

#[test]
fn commas_group_by_three() {
    assert_eq!(format_with_commas(0), "0");
    assert_eq!(format_with_commas(7), "7");
    assert_eq!(format_with_commas(999), "999");
    assert_eq!(format_with_commas(1000), "1,000");
    assert_eq!(format_with_commas(12345), "12,345");
    assert_eq!(format_with_commas(123456), "123,456");
    assert_eq!(format_with_commas(1234567), "1,234,567");
}

#[test]
fn grouping_loses_no_digit() {
    let grouped = format_with_commas(9_876_543_210);
    assert_eq!(grouped, "9,876,543,210");
    assert_eq!(grouped.replace(',', ""), "9876543210");
}

#[test]
fn decimals_read_back() {
    for n in [0u32, 9, 10, 99, 100, 4_294_967_295] {
        let mut out = String::new();
        push_decimal(&mut out, n as u128);
        assert_eq!(out, n.to_string());
        assert_eq!(parse_u32(&out), Some(n));
    }
}

#[test]
fn two_digits_pad() {
    let mut out = String::from("x");
    push_two_digits(&mut out, 4);
    push_two_digits(&mut out, 17);
    push_two_digits(&mut out, 123);
    assert_eq!(out, "x0417123");
}

#[test]
fn hex_has_a_fixed_width() {
    let mut out = String::new();
    push_hex(&mut out, 0xdead_beef, 16);
    assert_eq!(out, "00000000deadbeef");
}

#[test]
fn numbers_parse_as_std_does() {
    let samples = [
        "", "+", "-", "0", "-0", "+7", "-1", "007", "12a", " 1", "1 ", "2147483647", "2147483648",
        "-2147483648", "-2147483649", "4294967295", "4294967296", "9223372036854775807",
        "9223372036854775808", "-9223372036854775808", "-9223372036854775809", "1é", "１",
        "99999999999999999999999999999999999999999999",
    ];
    for s in samples {
        assert_eq!(parse_i64(s), s.parse::<i64>().ok(), "{s}");
        assert_eq!(parse_i32(s), s.parse::<i32>().ok(), "{s}");
        assert_eq!(parse_u32(s), s.parse::<u32>().ok(), "{s}");
    }
}

#[test]
fn markers_are_found_anywhere_in_a_line() {
    let none = Marks { encounter_open: false, key_open: false, key_ended: false };
    let opens = |line: &str| scan_lines(none, &vec![line.to_string()]).encounter_open;
    assert!(opens("xxENCOUNTER_STARTyy"));
    assert!(opens("ENCOUNTER_START"));
    assert!(opens("é—ENCOUNTER_START"));
    assert!(opens("ENCOUNTER_STARENCOUNTER_START"));
    assert!(!opens("ENCOUNTER_STAR"));
    assert!(!opens("encounter_start"));
    assert!(!opens(""));
}

#[test]
fn lines_split_as_std_does() {
    let samples = [
        "", "\n", "a", "a\n", "a\r\n", "a\r", "a\nb", "a\r\nb\r\n", "\n\n", "a\n\nb", "\r\n", "\r",
        "a\rb\n", "é\r\nü—\n", "x\r\r\n",
    ];
    for s in samples {
        let expected: Vec<String> = s.lines().map(|l| l.to_string()).collect();
        assert_eq!(lines(s), expected, "{s:?}");
    }
}
