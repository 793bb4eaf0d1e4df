use qalculate::bitview::{BitView, SignedView};
use qalculate::calculator::engine::extract_to;
use qalculate::calculator::formatter::ResultFormatter;
use qalculate::calculator::parser::Parser;
use qalculate::converter::NumberConverter;
use qalculate::error::Error;
use qalculate::fprice::PriceFormatter;
use qalculate::traits::{BitFormatter, Converter};

#[test]
fn price_format_groups_digits() {
    assert_eq!(PriceFormatter::format(1234567), "1,234,567");
    assert_eq!(PriceFormatter::format(0), "0");
    assert_eq!(PriceFormatter::format(100), "100");
    assert_eq!(PriceFormatter::format(-1234), "-1,234");
    assert_eq!(PriceFormatter::format(i64::MIN), "-9,223,372,036,854,775,808");
    assert_eq!(PriceFormatter::format(i64::MAX), "9,223,372,036,854,775,807");
}

#[test]
fn price_format_sign_stands_before_the_groups() {
    assert_eq!(PriceFormatter::format(-123), "-123");
    assert_eq!(PriceFormatter::format(-1234567), "-1,234,567");
    assert_eq!(PriceFormatter::format(-123456), "-123,456");
    assert_eq!(PriceFormatter::format(1024), "1,024");
    assert_eq!(PriceFormatter::format(127964), "127,964");
}

#[test]
fn price_format_without_commas_is_decimal() {
    for v in [0i64, 7, -7, 999, 1000, -1000, 123456789, i64::MIN, i64::MAX] {
        assert_eq!(PriceFormatter::format(v).replace(',', ""), v.to_string());
    }
}

#[test]
fn signed_unsigned_view() {
    assert_eq!(
        SignedView::format_signed_unsigned(-1),
        "Signed (i64):   -1\nUnsigned (u64): 18446744073709551615"
    );
    assert_eq!(SignedView::format_signed_unsigned(42), "Signed (i64):   42\nUnsigned (u64): 42");
}

#[test]
fn bit_view_binary() {
    let view = BitView;
    assert_eq!(view.format_bin(5), "0b0101");
    assert_eq!(view.format_bin(0), "0b0000");
    assert_eq!(view.format_bin(255), "0b1111 1111");
    assert_eq!(
        view.format_bin(-1),
        "0b1111 1111 1111 1111 1111 1111 1111 1111 1111 1111 1111 1111 1111 1111 1111 1111"
    );
}

#[test]
fn bit_view_64_bits() {
    let view = BitView;
    assert_eq!(
        view.format_64bit(1),
        "0000  0000  0000  0000  0000  0000  0000  0000\n63                      47                  32\n\n0000  0000  0000  0000  0000  0000  0000  0001\n31                      15                   0"
    );
}

#[test]
fn bit_view_group4() {
    assert_eq!(BitView::group4("abcdefghij"), "abcd  efgh  ij");
    assert_eq!(BitView::group4(""), "");
    assert_eq!(BitView::group4("abcd"), "abcd");
}

#[test]
fn full_output_of_a_result() {
    assert_eq!(
        ResultFormatter::full_output(10, "10"),
        "\t10\n━━━━━━━━━━━━━━━━━━━━━━━━━━━━\nHEX : \"0xA\"\nDEC : \"10\"\nOCT : \"0o12\"\nBIN : \"0b1010\"\n0000  0000  0000  0000  0000  0000  0000  0000\n63                      47                  32\n\n0000  0000  0000  0000  0000  0000  0000  1010\n31                      15                   0\n"
    );
    assert_eq!(
        ResultFormatter::full_output(-2, "-2"),
        "\t-2\n━━━━━━━━━━━━━━━━━━━━━━━━━━━━\nHEX : \"0xFFFFFFFFFFFFFFFE\"\nDEC : \"-2\"\nOCT : \"0o1777777777777777777776\"\nBIN : \"0b1111 1111 1111 1111 1111 1111 1111 1111 1111 1111 1111 1111 1111 1111 1111 1110\"\n1111  1111  1111  1111  1111  1111  1111  1111\n63                      47                  32\n\n1111  1111  1111  1111  1111  1111  1111  1110\n31                      15                   0\n"
    );
}

#[test]
fn convert_all_bases() {
    let c = NumberConverter;
    assert_eq!(c.convert_all(255), "HEX: 0xFF\nDEC: 255\nOCT: 0o377\nBIN: 0b11111111");
    assert_eq!(
        c.convert_all(-1),
        "HEX: 0xFFFFFFFFFFFFFFFF\nDEC: -1\nOCT: 0o1777777777777777777777\nBIN: 0b1111111111111111111111111111111111111111111111111111111111111111"
    );
}

#[test]
fn convert_to_each_format() {
    let c = NumberConverter;
    assert_eq!(c.convert_to(65, "hex"), Ok("0x41".to_string()));
    assert_eq!(c.convert_to(65, "bin"), Ok("0b1000001".to_string()));
    assert_eq!(c.convert_to(65, "oct"), Ok("0o101".to_string()));
    assert_eq!(c.convert_to(65, "uni"), Ok("U+0041 'A'".to_string()));
    assert_eq!(c.convert_to(0x1F600, "unicode"), Ok("U+1F600 '\u{1F600}'".to_string()));
    assert_eq!(c.convert_to(0xD800, "unicode"), Err("Invalid Unicode".to_string()));
    assert_eq!(c.convert_to(65, "roman"), Err("Unknown format: roman".to_string()));
}

#[test]
fn convert_to_unicode_uses_the_low_bits() {
    let c = NumberConverter;
    assert_eq!(c.convert_to((1i64 << 32) + 65, "uni"), Ok("U+100000041 'A'".to_string()));
    assert_eq!(c.convert_to(-1, "uni"), Err("Invalid Unicode".to_string()));
}

#[test]
fn string_to_unicode_lines() {
    assert_eq!(
        NumberConverter::string_to_unicode("\"hi\""),
        Ok("\t'h' → U+0068 (104),\n\t'i' → U+0069 (105)".to_string())
    );
    assert_eq!(NumberConverter::string_to_unicode("'é'"), Ok("\t'é' → U+00E9 (233)".to_string()));
    assert_eq!(NumberConverter::string_to_unicode("\"\""), Ok(String::new()));
}

#[test]
fn unicode_operators_are_replaced() {
    assert_eq!(
        Parser::replace_unicode_ops("a ∧ b ∨ ¬c ⊻ d xor e ** 2"),
        "a & b | ~c ^ d ^^ e ^ 2"
    );
}

#[test]
fn literals_are_converted() {
    assert_eq!(Parser::convert_literals("0x1F + 0b101 - 0o17"), Ok("31 + 5 - 15".to_string()));
    assert_eq!(Parser::convert_hex("0x"), Ok("0x".to_string()));
    assert_eq!(Parser::convert_hex("0xFFFFFFFFFFFFFFFF"), Ok("0xFFFFFFFFFFFFFFFF".to_string()));
    assert_eq!(Parser::convert_hex("0xa0x"), Ok("160x".to_string()));
    assert_eq!(Parser::convert_bin("0b12"), Ok("12".to_string()));
    assert_eq!(Parser::convert_oct("0o78"), Ok("78".to_string()));
}

#[test]
fn operands_are_extracted() {
    assert_eq!(
        Parser::extract_operands("2 ^ 3", 2),
        Ok(("2".to_string(), "3".to_string(), 0, 5))
    );
    assert_eq!(
        Parser::extract_operands(" 1+1^\t2 ", 4),
        Ok(("1+1".to_string(), "2".to_string(), 0, 8))
    );
    // the index counts bytes: "é" takes two
    assert_eq!(
        Parser::extract_operands("é ^ 2", 3),
        Ok(("é".to_string(), "2".to_string(), 0, 6))
    );
}

#[test]
fn conversion_requests_are_split() {
    assert_eq!(extract_to("255 to hex"), Some(("255".to_string(), "hex".to_string())));
    assert_eq!(extract_to("  1 + 2  to  bin "), Some(("1 + 2".to_string(), "bin".to_string())));
    assert_eq!(extract_to("255"), None);
    assert_eq!(extract_to("total"), None);
}

#[test]
fn error_messages() {
    assert_eq!(Error::DivisionByZero.message(), "division by zero");
    assert_eq!(Error::Overflow.message(), "arithmetic overflow");
    assert_eq!(Error::InvalidArgument.message(), "invalid argument");
    assert_eq!(Error::Interrupted.message(), "computation interrupted");
}

#[test]
fn hexadecimal_input_scenario() {
    let converted = Parser::convert_literals("0x1f3dc").unwrap();
    assert_eq!(converted, "127964");
    let value: i64 = converted.parse().unwrap();
    let formatted = PriceFormatter::format(value);
    assert_eq!(formatted, "127,964");
    let out = ResultFormatter::full_output(value, &formatted);
    assert!(out.starts_with("\t127,964\n━━━━━━━━━━━━━━━━━━━━━━━━━━━━\nHEX : \"0x1F3DC\"\nDEC : \"127,964\"\n"));
}
