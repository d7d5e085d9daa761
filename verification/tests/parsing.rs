use stealthmem::parse::{maybe_hex, parse_dec_u64, parse_hex_u64, parse_i32, parse_usize, ParseError};

#[test]
fn address_decimal_token() {
    assert_eq!(maybe_hex("4096"), Ok(4096));
}

#[test]
fn address_hex_token() {
    assert_eq!(maybe_hex("0x1000"), Ok(4096));
}

#[test]
fn address_hex_token_upper_marker() {
    assert_eq!(maybe_hex("0X1000"), Ok(4096));
}

#[test]
fn address_hex_token_mixed_case_digits() {
    assert_eq!(maybe_hex("0xDeAdBeEf"), Ok(0xdead_beef));
}

#[test]
fn address_rejects_non_digits() {
    assert_eq!(maybe_hex("zz"), Err(ParseError::InvalidDigit));
}

#[test]
fn address_rejects_empty_token() {
    assert_eq!(maybe_hex(""), Err(ParseError::Empty));
}

#[test]
fn address_rejects_bare_marker() {
    assert_eq!(maybe_hex("0x"), Err(ParseError::Empty));
}

#[test]
fn address_rejects_hex_digit_outside_base() {
    assert_eq!(maybe_hex("0x12g4"), Err(ParseError::InvalidDigit));
}

#[test]
fn address_rejects_hex_digits_without_marker() {
    assert_eq!(maybe_hex("12ab"), Err(ParseError::InvalidDigit));
}

#[test]
fn address_largest_decimal_value() {
    assert_eq!(maybe_hex("18446744073709551615"), Ok(u64::MAX));
}

#[test]
fn address_decimal_overflow() {
    assert_eq!(maybe_hex("18446744073709551616"), Err(ParseError::Overflow));
}

#[test]
fn address_largest_hex_value() {
    assert_eq!(maybe_hex("0xffffffffffffffff"), Ok(u64::MAX));
}

#[test]
fn address_hex_overflow() {
    assert_eq!(maybe_hex("0x10000000000000000"), Err(ParseError::Overflow));
}

#[test]
fn address_leading_zeros_are_accepted() {
    assert_eq!(maybe_hex("0007"), Ok(7));
    assert_eq!(maybe_hex("0x0010"), Ok(16));
}

#[test]
fn dec_token_zero() {
    assert_eq!(parse_dec_u64("0"), Ok(0));
}

#[test]
fn dec_token_rejects_sign() {
    assert_eq!(parse_dec_u64("+7"), Err(ParseError::InvalidDigit));
    assert_eq!(parse_dec_u64("-7"), Err(ParseError::InvalidDigit));
}

#[test]
fn dec_token_rejects_inner_space() {
    assert_eq!(parse_dec_u64("1 2"), Err(ParseError::InvalidDigit));
}

#[test]
fn hex_token_without_marker() {
    assert_eq!(parse_hex_u64("ff"), Ok(255));
    assert_eq!(parse_hex_u64("FF"), Ok(255));
}

#[test]
fn pid_plain_value() {
    assert_eq!(parse_i32("1234"), Ok(1234));
}

#[test]
fn pid_negative_value() {
    assert_eq!(parse_i32("-5"), Ok(-5));
}

#[test]
fn pid_extreme_values() {
    assert_eq!(parse_i32("2147483647"), Ok(i32::MAX));
    assert_eq!(parse_i32("-2147483648"), Ok(i32::MIN));
}

#[test]
fn pid_out_of_range() {
    assert_eq!(parse_i32("2147483648"), Err(ParseError::Overflow));
    assert_eq!(parse_i32("-2147483649"), Err(ParseError::Overflow));
}

#[test]
fn pid_rejects_bare_minus() {
    assert_eq!(parse_i32("-"), Err(ParseError::Empty));
}

#[test]
fn pid_rejects_letters() {
    assert_eq!(parse_i32("12a"), Err(ParseError::InvalidDigit));
}

#[test]
fn size_plain_value() {
    assert_eq!(parse_usize("8"), Ok(8));
}

#[test]
fn size_rejects_overflow() {
    assert_eq!(parse_usize("99999999999999999999999"), Err(ParseError::Overflow));
}

#[test]
fn size_rejects_negative() {
    assert_eq!(parse_usize("-1"), Err(ParseError::InvalidDigit));
}
