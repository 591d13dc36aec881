use katgen::chars::{
    ascii_alnum, blank, dec_digit, digit, find_char, hex_digit, space, split_lines, text_of,
    to_chars, trim_bounds,
};
use katgen::numerals::decimal_string;

fn lines(text: &str) -> Vec<String> {
    split_lines(&to_chars(text)).iter().map(|l| l.iter().collect()).collect()
}

fn trimmed(text: &str) -> String {
    let v = to_chars(text);
    let (lo, hi) = trim_bounds(&v, 0, v.len());
    text_of(&v, lo, hi)
}

#[test]
fn white_space_is_what_std_calls_white_space() {
    for code in 0u32..=0x10ffff {
        if let Some(c) = char::from_u32(code) {
            assert_eq!(space(c), c.is_whitespace(), "U+{:04X}", code);
        }
    }
}

#[test]
fn character_classes_agree_with_std() {
    for code in 0u32..=0x10ffff {
        if let Some(c) = char::from_u32(code) {
            assert_eq!(hex_digit(c), c.is_ascii_hexdigit(), "U+{:04X}", code);
            assert_eq!(dec_digit(c), c.is_digit(10), "U+{:04X}", code);
            assert_eq!(ascii_alnum(c), c.is_ascii_alphanumeric(), "U+{:04X}", code);
            assert_eq!(digit(c) as u32, c.to_digit(16).unwrap_or(0));
        }
    }
}

const SAMPLES: [&str; 18] = [
    "",
    "\n",
    "\n\n",
    "a",
    "a\n",
    "a\nb",
    "a\n\nb\n",
    "a\r\nb\r\n",
    "a\rb\n",
    "a\r",
    "a\r\r\n",
    "\r\n",
    "\r",
    "  a = 1  \n\t\n// text\n",
    "a=1\nb=2\n\na=300\nb=5\n",
    "caf\u{e9}\n\u{2028}x\n",
    "one\n  \ntwo",
    "\u{a0} padded \u{3000}\n",
];

#[test]
fn lines_are_what_std_calls_lines() {
    for sample in SAMPLES {
        let expected: Vec<String> = sample.lines().map(|l| l.to_string()).collect();
        assert_eq!(lines(sample), expected, "{:?}", sample);
    }
}

#[test]
fn a_final_line_ending_adds_no_line() {
    assert_eq!(lines("a\nb\n"), vec!["a", "b"]);
    assert_eq!(lines("a\nb"), vec!["a", "b"]);
    assert_eq!(lines("a\n\n"), vec!["a", ""]);
    assert_eq!(lines(""), Vec::<String>::new());
}

#[test]
fn carriage_return_goes_with_its_line_feed_only() {
    assert_eq!(lines("a\r\nb"), vec!["a", "b"]);
    assert_eq!(lines("a\rb\n"), vec!["a\rb"]);
    assert_eq!(lines("a\r"), vec!["a\r"]);
}

#[test]
fn trimming_is_what_std_calls_trimming() {
    for sample in SAMPLES {
        assert_eq!(trimmed(sample), sample.trim(), "{:?}", sample);
    }
    assert_eq!(trimmed("  a b  "), "a b");
    assert_eq!(trimmed(" \t "), "");
    assert_eq!(trimmed("x"), "x");
}

#[test]
fn trim_bounds_stay_in_the_given_range() {
    let v = to_chars("ab  cd  ef");
    assert_eq!(trim_bounds(&v, 2, 8), (4, 6));
    assert_eq!(trim_bounds(&v, 2, 4), (4, 4));
    assert_eq!(trim_bounds(&v, 0, 0), (0, 0));
}

#[test]
fn blank_lines_hold_white_space_only() {
    assert!(blank(&to_chars("")));
    assert!(blank(&to_chars(" \t\u{a0}")));
    assert!(!blank(&to_chars(" . ")));
}

#[test]
fn find_char_gives_the_first_position_or_the_length() {
    let v = to_chars("a=b=c");
    assert_eq!(find_char(&v, '=', 0), 1);
    assert_eq!(find_char(&v, '=', 1), 1);
    assert_eq!(find_char(&v, '=', 2), 3);
    assert_eq!(find_char(&v, '=', 4), 5);
    assert_eq!(find_char(&v, 'x', 0), 5);
}

#[test]
fn to_chars_and_text_of_round_trip() {
    let v = to_chars("h\u{e9}llo");
    assert_eq!(v, vec!['h', '\u{e9}', 'l', 'l', 'o']);
    assert_eq!(text_of(&v, 0, 5), "h\u{e9}llo");
    assert_eq!(text_of(&v, 1, 3), "\u{e9}l");
    assert_eq!(text_of(&v, 2, 2), "");
}

#[test]
fn decimal_strings() {
    assert_eq!(decimal_string(0), "0");
    assert_eq!(decimal_string(7), "7");
    assert_eq!(decimal_string(10), "10");
    assert_eq!(decimal_string(1234567890), "1234567890");
    assert_eq!(decimal_string(usize::MAX), usize::MAX.to_string());
}
