use proto_to_pojo::{decode_literal, enum_number, parse_scalar_type, qualify, tag_number, ScalarType};

#[test]
fn tag_literals_decode() {
    assert_eq!(tag_number("0x10"), 16);
    assert_eq!(tag_number("0X1f"), 31);
    assert_eq!(tag_number("-5"), 0);
    assert_eq!(tag_number("17"), 17);
    assert_eq!(tag_number("010"), 8);
    assert_eq!(tag_number("0"), 0);
}

#[test]
fn enum_literals_decode() {
    assert_eq!(enum_number("-1"), -1);
    assert_eq!(enum_number("010"), 8);
    assert_eq!(enum_number("-0x10"), -16);
}

#[test]
fn malformed_or_overflowing_literals_decode_to_zero() {
    assert_eq!(decode_literal("09"), 0);
    assert_eq!(decode_literal("0xg"), 0);
    assert_eq!(decode_literal("12a"), 0);
    assert_eq!(decode_literal(""), 0);
    assert_eq!(decode_literal("9223372036854775807"), i64::MAX);
    assert_eq!(decode_literal("9223372036854775808"), 0);
    assert_eq!(decode_literal("-9223372036854775807"), -i64::MAX);
}

#[test]
fn wide_values_truncate_to_32_bits() {
    assert_eq!(tag_number("4294967297"), 1);
    assert_eq!(enum_number("4294967295"), -1);
    assert_eq!(enum_number("2147483648"), i32::MIN);
    assert_eq!(enum_number("-4294967297"), -1);
}

#[test]
fn qualify_joins_with_dot() {
    assert_eq!(qualify(Some("Order"), "Address"), "Order.Address");
    assert_eq!(qualify(None, "Address"), "Address");
}

#[test]
fn scalar_keywords_are_recognised() {
    assert_eq!(parse_scalar_type("sfixed32"), Some(ScalarType::Sfixed32));
    assert_eq!(parse_scalar_type("bytes"), Some(ScalarType::Bytes));
    assert_eq!(parse_scalar_type("Int32"), None);
}
