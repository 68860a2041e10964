use primality::number::{parse_number, ParseError};
use primality::text::chars_of;

fn parse(text: &str) -> Result<u64, ParseError> {
    parse_number(&chars_of(text))
}

#[test]
fn numerals_are_read() {
    assert_eq!(parse("0"), Ok(0));
    assert_eq!(parse("7"), Ok(7));
    assert_eq!(parse("42"), Ok(42));
    assert_eq!(parse("1000000007"), Ok(1_000_000_007));
    assert_eq!(parse("9876543210"), Ok(9_876_543_210));
}

#[test]
fn one_leading_plus_is_accepted() {
    assert_eq!(parse("+5"), Ok(5));
    assert_eq!(parse("+0"), Ok(0));
    assert_eq!(parse("++5"), Err(ParseError));
    assert_eq!(parse("5+"), Err(ParseError));
    assert_eq!(parse("+"), Err(ParseError));
}

#[test]
fn leading_zeros_do_not_change_the_value() {
    assert_eq!(parse("007"), Ok(7));
    assert_eq!(parse("0000000000000000000000000000000000001"), Ok(1));
    assert_eq!(parse("+00018446744073709551615"), Ok(u64::MAX));
}

#[test]
fn the_largest_value_is_read_and_the_next_is_not() {
    assert_eq!(parse("18446744073709551615"), Ok(u64::MAX));
    assert_eq!(parse("18446744073709551614"), Ok(u64::MAX - 1));
    assert_eq!(parse("18446744073709551616"), Err(ParseError));
    assert_eq!(parse("18446744073709551620"), Err(ParseError));
    assert_eq!(parse("28446744073709551615"), Err(ParseError));
    assert_eq!(parse("184467440737095516150"), Err(ParseError));
    assert_eq!(parse("99999999999999999999999999999999999999"), Err(ParseError));
}

#[test]
fn text_that_is_no_numeral_is_an_error() {
    assert_eq!(parse(""), Err(ParseError));
    assert_eq!(parse("-"), Err(ParseError));
    assert_eq!(parse("-1"), Err(ParseError));
    assert_eq!(parse("-0"), Err(ParseError));
    assert_eq!(parse("abc"), Err(ParseError));
    assert_eq!(parse("12a"), Err(ParseError));
    assert_eq!(parse("a12"), Err(ParseError));
    assert_eq!(parse("1 2"), Err(ParseError));
    assert_eq!(parse(" 12"), Err(ParseError));
    assert_eq!(parse("12 "), Err(ParseError));
    assert_eq!(parse("12\n"), Err(ParseError));
    assert_eq!(parse("1_000"), Err(ParseError));
    assert_eq!(parse("1.0"), Err(ParseError));
    assert_eq!(parse("1e3"), Err(ParseError));
    assert_eq!(parse("0x10"), Err(ParseError));
    assert_eq!(parse("/"), Err(ParseError));
    assert_eq!(parse(":"), Err(ParseError));
    assert_eq!(parse("\u{663}"), Err(ParseError)); // a digit, yet none of 0 to 9
    assert_eq!(parse("\u{ff11}"), Err(ParseError));
}

#[test]
fn parse_number_agrees_with_the_standard_library() {
    let samples = [
        "",
        "+",
        "-",
        "0",
        "+0",
        "-0",
        "1",
        "10",
        "0010",
        "+10",
        "++10",
        "+-10",
        "10+",
        " 10",
        "10 ",
        "1,000",
        "18446744073709551615",
        "18446744073709551616",
        "18446744073709551625",
        "+18446744073709551615",
        "000018446744073709551615",
        "1844674407370955161",
        "184467440737095516159",
        "99999999999999999999",
        "99999999999999999999x",
        "x99999999999999999999",
        "\u{0}",
        "1\u{0}",
        "\u{661}\u{662}",
        "exit",
    ];
    for text in samples {
        assert_eq!(parse(text).ok(), text.parse::<u64>().ok(), "{:?}", text);
    }
    for n in (0..=u64::MAX).step_by(0x0123_4567_89ab_cdef) {
        assert_eq!(parse(&n.to_string()), Ok(n));
    }
    for n in 0..2_000u64 {
        assert_eq!(parse(&n.to_string()), Ok(n));
    }
}
