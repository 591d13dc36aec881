use katgen::kinds::T;
use katgen::value::Value;

fn type_of(literal: &str) -> T {
    Value::from_str(literal).find_type()
}

#[test]
fn hex_prefixed_literal_counts_four_bits_per_digit() {
    assert_eq!(type_of("0x1A"), T::Integer(8));
    assert_eq!(type_of("0xabc"), T::Integer(12));
    assert_eq!(type_of("0x"), T::Integer(0));
}

#[test]
fn hex_prefix_with_other_characters_is_a_string() {
    assert_eq!(type_of("0x1G"), T::String);
    assert_eq!(type_of("0X1A"), T::String);
}

#[test]
fn decimal_literal_has_the_bit_length_of_its_value() {
    assert_eq!(type_of("300"), T::Integer(9));
    assert_eq!(type_of("5"), T::Integer(3));
    assert_eq!(type_of("0"), T::Integer(0));
    assert_eq!(type_of("1"), T::Integer(1));
    assert_eq!(type_of("255"), T::Integer(8));
    assert_eq!(type_of("256"), T::Integer(9));
    assert_eq!(type_of("007"), T::Integer(3));
}

#[test]
fn decimal_literal_beyond_machine_words() {
    assert_eq!(type_of("18446744073709551615"), T::Integer(64));
    assert_eq!(type_of("18446744073709551616"), T::Integer(65));
    assert_eq!(type_of("340282366920938463463374607431768211456"), T::Integer(129));
}

#[test]
fn decimal_wins_over_hex_decoding() {
    let v = Value::from_str("12");
    assert_eq!(v.hex_parsed, Some(vec![0x12]));
    assert_eq!(v.find_type(), T::Integer(4));
}

#[test]
fn hex_digits_without_prefix_are_bytes() {
    assert_eq!(type_of("deadbeef"), T::Bytes(4));
    assert_eq!(type_of("DEADBEEF"), T::Bytes(4));
    assert_eq!(type_of("12ab"), T::Bytes(2));
}

#[test]
fn odd_number_of_hex_digits_is_a_string() {
    assert_eq!(type_of("abc"), T::String);
}

#[test]
fn other_text_is_a_string() {
    assert_eq!(type_of("hello"), T::String);
    assert_eq!(type_of("-5"), T::String);
    assert_eq!(type_of("+5"), T::String);
    assert_eq!(type_of("1_000"), T::String);
    assert_eq!(type_of("\u{661}\u{662}"), T::String);
}

// The width of a binary literal is the length of the whole literal, the
// two characters of the prefix included: three binary digits give five
// bits, not three. Whether that is meant is an open question; a change of
// the rule shows here.
#[test]
fn binary_literal_counts_its_prefix() {
    assert_eq!(type_of("0b101"), T::Integer(5));
    assert_ne!(type_of("0b101"), T::Integer(3));
    assert_eq!(type_of("0b"), T::Integer(2));
    assert_eq!(type_of("0b102"), T::String);
}

#[test]
fn empty_literal_is_no_integer() {
    let v = Value::from_str("");
    assert_eq!(v.is_integral(), None);
    assert_eq!(v.hex_parsed, Some(vec![]));
    assert_eq!(v.find_type(), T::Bytes(0));
}

#[test]
fn is_integral_gives_the_width() {
    assert_eq!(Value::from_str("0x1A").is_integral(), Some(8));
    assert_eq!(Value::from_str("0b101").is_integral(), Some(5));
    assert_eq!(Value::from_str("300").is_integral(), Some(9));
    assert_eq!(Value::from_str("deadbeef").is_integral(), None);
}

#[test]
fn from_str_keeps_the_literal_and_decodes_hex() {
    let v = Value::from_str("0aFf");
    assert_eq!(v.orig, "0aFf");
    assert_eq!(v.hex_parsed, Some(vec![0x0a, 0xff]));
    let w = Value::from_str("hello");
    assert_eq!(w.orig, "hello");
    assert_eq!(w.hex_parsed, None);
    assert_eq!(Value::from_str("\u{e9}\u{e9}").hex_parsed, None);
}

#[test]
fn find_type_goes_by_the_fields_it_is_given() {
    let v = Value { orig: "hello".to_string(), hex_parsed: Some(vec![1, 2, 3]) };
    assert_eq!(v.find_type(), T::Bytes(3));
}

#[test]
fn integer_bytes_are_big_endian_and_minimal() {
    assert_eq!(Value::from_str("300").integer_bytes(), Some(vec![0x01, 0x2c]));
    assert_eq!(Value::from_str("1125").integer_bytes(), Some(vec![4, 101]));
    assert_eq!(Value::from_str("0").integer_bytes(), Some(vec![]));
    assert_eq!(Value::from_str("000").integer_bytes(), Some(vec![]));
    assert_eq!(Value::from_str("0x1A").integer_bytes(), Some(vec![0x1a]));
    assert_eq!(Value::from_str("0xabc").integer_bytes(), Some(vec![0x0a, 0xbc]));
    assert_eq!(Value::from_str("0x0001").integer_bytes(), Some(vec![0x01]));
    assert_eq!(Value::from_str("0x").integer_bytes(), Some(vec![]));
    assert_eq!(Value::from_str("0b101").integer_bytes(), Some(vec![0x05]));
    assert_eq!(Value::from_str("0b100000001").integer_bytes(), Some(vec![0x01, 0x01]));
    assert_eq!(Value::from_str("0b1111111111111111").integer_bytes(), Some(vec![0xff, 0xff]));
    assert_eq!(Value::from_str("0b").integer_bytes(), Some(vec![]));
    assert_eq!(
        Value::from_str("18446744073709551616").integer_bytes(),
        Some(vec![1, 0, 0, 0, 0, 0, 0, 0, 0])
    );
    assert_eq!(Value::from_str("deadbeef").integer_bytes(), None);
    assert_eq!(Value::from_str("").integer_bytes(), None);
}
