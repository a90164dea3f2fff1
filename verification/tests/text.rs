use pso2_scraper::text::{decimal_text, is_whitespace, parse_decimal, trim};

#[test]
fn trim_removes_whitespace_at_both_ends() {
    assert_eq!(trim("  #FF0000 \t"), "#FF0000");
    assert_eq!(trim("\u{3000}a b\u{a0}\n"), "a b");
    assert_eq!(trim("plain"), "plain");
}

#[test]
fn trim_of_blank_text_is_empty() {
    assert_eq!(trim(""), "");
    assert_eq!(trim(" \r\n\t "), "");
}

#[test]
fn trim_agrees_with_std() {
    let samples = [
        "", " ", "a", " a", "a ", "  a  b  ", "\u{2003}x\u{2028}", "\u{85}y\u{1680}", "\u{200b}z ",
        "\u{feff}w",
    ];
    for s in samples {
        assert_eq!(trim(s), s.trim());
    }
}

#[test]
fn whitespace_agrees_with_std() {
    let mut n: u32 = 0;
    while n < 0x3100 {
        if let Some(c) = char::from_u32(n) {
            assert_eq!(is_whitespace(c), c.is_whitespace());
        }
        n += 1;
    }
}

#[test]
fn parse_decimal_reads_digits() {
    assert_eq!(parse_decimal("0", 255), Some(0));
    assert_eq!(parse_decimal("007", 255), Some(7));
    assert_eq!(parse_decimal("255", 255), Some(255));
    assert_eq!(parse_decimal("+12", 255), Some(12));
    assert_eq!(parse_decimal("18446744073709551615", u64::MAX), Some(u64::MAX));
}

#[test]
fn parse_decimal_refuses_what_is_no_number() {
    assert_eq!(parse_decimal("", 255), None);
    assert_eq!(parse_decimal("+", 255), None);
    assert_eq!(parse_decimal("-1", 255), None);
    assert_eq!(parse_decimal("1 ", 255), None);
    assert_eq!(parse_decimal("12a", 255), None);
    assert_eq!(parse_decimal("++1", 255), None);
    assert_eq!(parse_decimal("\u{661}", 255), None);
}

#[test]
fn parse_decimal_refuses_what_is_above_the_bound() {
    assert_eq!(parse_decimal("256", 255), None);
    assert_eq!(parse_decimal("1000", 255), None);
    assert_eq!(parse_decimal("18446744073709551616", u64::MAX), None);
    assert_eq!(parse_decimal("99999999999999999999999", u64::MAX), None);
    assert_eq!(parse_decimal("1", 0), None);
    assert_eq!(parse_decimal("0", 0), Some(0));
}

#[test]
fn parse_decimal_agrees_with_std() {
    let samples = ["0", "1", "+1", "255", "256", "", "+", "-0", "1_0", "0x10", " 1", "00000300"];
    for s in samples {
        assert_eq!(parse_decimal(s, 255), s.parse::<u8>().ok().map(u64::from));
    }
}

#[test]
fn decimal_text_writes_numbers() {
    assert_eq!(decimal_text(0), "0");
    assert_eq!(decimal_text(7), "7");
    assert_eq!(decimal_text(2024), "2024");
    assert_eq!(decimal_text(-15), "-15");
    assert_eq!(decimal_text(i64::MAX), "9223372036854775807");
    assert_eq!(decimal_text(i64::MIN), "-9223372036854775808");
}
