use hid_scanner::ident::{hex_digit_value, parse_id, InvalidIdentifierFormat};

#[test]
fn prefixed_identifier_is_read() {
    assert_eq!(parse_id("0xE851"), Ok(0xE851));
}

#[test]
fn bare_lower_case_identifier_is_read() {
    assert_eq!(parse_id("e851"), Ok(0xE851));
}

#[test]
fn non_hex_digits_are_refused() {
    assert_eq!(parse_id("0xZZZZ"), Err(InvalidIdentifierFormat));
}

#[test]
fn more_than_sixteen_bits_are_refused() {
    assert_eq!(parse_id("0x1FFFF"), Err(InvalidIdentifierFormat));
    assert_eq!(parse_id("10000"), Err(InvalidIdentifierFormat));
    assert_eq!(parse_id("FFFFFFFFFFFFFFFFFFFFFFFF"), Err(InvalidIdentifierFormat));
}

#[test]
fn largest_identifier_is_read() {
    assert_eq!(parse_id("FFFF"), Ok(0xFFFF));
    assert_eq!(parse_id("0xffff"), Ok(65535));
}

#[test]
fn smallest_identifier_is_read() {
    assert_eq!(parse_id("0"), Ok(0));
    assert_eq!(parse_id("0x0"), Ok(0));
    assert_eq!(parse_id("00"), Ok(0));
}

#[test]
fn upper_case_prefix_is_accepted() {
    assert_eq!(parse_id("0X1f"), Ok(0x1F));
    assert_eq!(parse_id("0XaBcD"), Ok(0xABCD));
}

#[test]
fn mixed_case_digits_are_accepted() {
    assert_eq!(parse_id("aBcD"), Ok(0xABCD));
    assert_eq!(parse_id("0x04d9"), Ok(0x04D9));
}

#[test]
fn leading_zeros_do_not_count_as_magnitude() {
    assert_eq!(parse_id("0000000001"), Ok(1));
    assert_eq!(parse_id("0x0000FFFF"), Ok(0xFFFF));
    assert_eq!(parse_id("0x00010000"), Err(InvalidIdentifierFormat));
}

#[test]
fn empty_text_is_refused() {
    assert_eq!(parse_id(""), Err(InvalidIdentifierFormat));
}

#[test]
fn prefix_without_digits_is_refused() {
    assert_eq!(parse_id("0x"), Err(InvalidIdentifierFormat));
    assert_eq!(parse_id("0X"), Err(InvalidIdentifierFormat));
}

#[test]
fn prefix_is_stripped_once() {
    assert_eq!(parse_id("0x0x12"), Err(InvalidIdentifierFormat));
}

#[test]
fn lone_x_is_refused() {
    assert_eq!(parse_id("x12"), Err(InvalidIdentifierFormat));
    assert_eq!(parse_id("1x2"), Err(InvalidIdentifierFormat));
}

#[test]
fn signs_and_spaces_are_refused() {
    assert_eq!(parse_id("+12"), Err(InvalidIdentifierFormat));
    assert_eq!(parse_id("-12"), Err(InvalidIdentifierFormat));
    assert_eq!(parse_id(" 12"), Err(InvalidIdentifierFormat));
    assert_eq!(parse_id("12 "), Err(InvalidIdentifierFormat));
    assert_eq!(parse_id("0x 12"), Err(InvalidIdentifierFormat));
}

#[test]
fn characters_beyond_ascii_are_refused() {
    assert_eq!(parse_id("\u{ff11}\u{ff12}"), Err(InvalidIdentifierFormat));
    assert_eq!(parse_id("0x1\u{e9}"), Err(InvalidIdentifierFormat));
}

#[test]
fn digit_values_are_exact() {
    assert_eq!(hex_digit_value('0'), Some(0));
    assert_eq!(hex_digit_value('9'), Some(9));
    assert_eq!(hex_digit_value('a'), Some(10));
    assert_eq!(hex_digit_value('f'), Some(15));
    assert_eq!(hex_digit_value('A'), Some(10));
    assert_eq!(hex_digit_value('F'), Some(15));
    assert_eq!(hex_digit_value('g'), None);
    assert_eq!(hex_digit_value('G'), None);
    assert_eq!(hex_digit_value('/'), None);
    assert_eq!(hex_digit_value(':'), None);
    assert_eq!(hex_digit_value('@'), None);
    assert_eq!(hex_digit_value('`'), None);
}

#[test]
fn every_four_digit_value_round_trips() {
    for v in [0u16, 1, 0x10, 0x1234, 0x8000, 0xE851, 0xFFFE, 0xFFFF] {
        assert_eq!(parse_id(&format!("{:x}", v)), Ok(v));
        assert_eq!(parse_id(&format!("{:04X}", v)), Ok(v));
        assert_eq!(parse_id(&format!("0x{:04x}", v)), Ok(v));
    }
}
