use katgen::chars::{all_alnum_in, all_bin_from, all_dec_from, all_hex_from, bin_digit, digit, to_chars};
use katgen::numerals::{char_of_digit, digits_of, minimal, pack, pad_left};

#[test]
fn digits_have_their_values() {
    assert_eq!(digit('0'), 0);
    assert_eq!(digit('9'), 9);
    assert_eq!(digit('a'), 10);
    assert_eq!(digit('F'), 15);
    assert_eq!(digit('g'), 0);
    assert_eq!(digit('\u{e9}'), 0);
}

#[test]
fn digit_characters_are_lower_case() {
    let expected = "0123456789abcdef";
    for (d, c) in expected.chars().enumerate() {
        assert_eq!(char_of_digit(d as u8), c);
        assert_eq!(digit(c), d as u8);
    }
}

#[test]
fn binary_digits() {
    assert!(bin_digit('0'));
    assert!(bin_digit('1'));
    assert!(!bin_digit('2'));
}

#[test]
fn digit_runs_are_tested_from_a_position() {
    let v = to_chars("0x12fg");
    assert!(all_hex_from(&v, 2) == false);
    assert!(all_hex_from(&v, 6));
    assert!(all_hex_from(&to_chars("0x12f"), 2));
    assert!(!all_hex_from(&to_chars("0x12f"), 1));
    assert!(all_dec_from(&to_chars("0123456789"), 0));
    assert!(!all_dec_from(&to_chars("12a"), 0));
    assert!(all_dec_from(&to_chars(""), 0));
    assert!(all_bin_from(&to_chars("0b0110"), 2));
    assert!(!all_bin_from(&to_chars("0b0120"), 2));
}

#[test]
fn alphanumeric_ranges() {
    let v = to_chars("ab-c9 ");
    assert!(all_alnum_in(&v, 0, 2));
    assert!(!all_alnum_in(&v, 0, 3));
    assert!(all_alnum_in(&v, 3, 5));
    assert!(!all_alnum_in(&v, 3, 6));
    assert!(all_alnum_in(&v, 2, 2));
}

#[test]
fn digits_of_a_literal() {
    assert_eq!(digits_of(&to_chars("0x1aF"), 2), vec![1, 10, 15]);
    assert_eq!(digits_of(&to_chars("0x"), 2), Vec::<u8>::new());
    assert_eq!(digits_of(&to_chars("907"), 0), vec![9, 0, 7]);
}

#[test]
fn packing_joins_digits_two_by_two() {
    assert_eq!(pack(&vec![1, 10, 15], 16), vec![0x01, 0xaf]);
    assert_eq!(pack(&vec![10, 15], 16), vec![0xaf]);
    assert_eq!(pack(&vec![], 16), Vec::<u8>::new());
    assert_eq!(pack(&vec![1, 0, 1], 2), vec![1, 1]);
    assert_eq!(pack(&vec![1, 1, 0, 1], 2), vec![3, 1]);
    assert_eq!(pack(&vec![3, 1], 4), vec![13]);
}

#[test]
fn minimal_drops_leading_zero_bytes() {
    assert_eq!(minimal(&vec![0, 0, 1, 0]), vec![1, 0]);
    assert_eq!(minimal(&vec![0]), Vec::<u8>::new());
    assert_eq!(minimal(&vec![]), Vec::<u8>::new());
    assert_eq!(minimal(&vec![7]), vec![7]);
}

#[test]
fn padding_adds_zero_bytes_in_front() {
    assert_eq!(pad_left(&vec![1], 2), vec![0, 1]);
    assert_eq!(pad_left(&vec![1, 2], 2), vec![1, 2]);
    assert_eq!(pad_left(&vec![1, 2, 3], 2), vec![1, 2, 3]);
    assert_eq!(pad_left(&vec![], 3), vec![0, 0, 0]);
    assert_eq!(pad_left(&vec![], 0), Vec::<u8>::new());
}
