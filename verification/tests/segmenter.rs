use katgen::diagnostics::{Diagnostic, Severity};
use katgen::segment::{assignment, parse_content, Content, ContentItem};
use katgen::chars::to_chars;
use katgen::value::Value;

fn text(line: usize, s: &str) -> (usize, ContentItem) {
    (line, ContentItem::Text(s.to_string()))
}

fn record(line: usize, fields: &[(&str, &str)]) -> (usize, ContentItem) {
    let fields = fields.iter().map(|(k, v)| (k.to_string(), Value::from_str(v))).collect();
    (line, ContentItem::KVS(fields))
}

fn items(data: &str) -> Vec<(usize, ContentItem)> {
    parse_content(data).unwrap().0
}

#[test]
fn text_only_input_keeps_its_lines_and_drops_blank_ones() {
    let data = "first line\n\n  second line  \n \t\nthird\n";
    assert_eq!(
        items(data),
        vec![text(0, "first line"), text(2, "  second line  "), text(4, "third")]
    );
}

#[test]
fn text_only_input_equals_the_non_blank_lines_of_std() {
    let data = "# header\n\nsome words\r\n   \nlast words";
    let expected: Vec<(usize, ContentItem)> = data
        .lines()
        .enumerate()
        .filter(|(_, l)| !l.trim().is_empty())
        .map(|(n, l)| text(n, l))
        .collect();
    assert_eq!(items(data), expected);
}

#[test]
fn empty_input_has_no_items() {
    assert_eq!(items(""), vec![]);
    assert_eq!(items("\n\n"), vec![]);
}

#[test]
fn consecutive_assignments_form_one_record() {
    assert_eq!(items("a=1\nb=2\n"), vec![record(0, &[("a", "1"), ("b", "2")])]);
}

#[test]
fn a_record_carries_the_number_of_the_line_that_closed_it() {
    let data = "a=1\nb=2\n\na=300\nb=5\n";
    assert_eq!(
        items(data),
        vec![record(2, &[("a", "1"), ("b", "2")]), record(0, &[("a", "300"), ("b", "5")])]
    );
}

#[test]
fn a_text_line_closes_the_record_and_is_kept() {
    let data = "a=1\nend of block\nb=2";
    assert_eq!(
        items(data),
        vec![record(1, &[("a", "1")]), text(1, "end of block"), record(0, &[("b", "2")])]
    );
}

#[test]
fn keys_and_values_are_trimmed() {
    assert_eq!(items("  key1 \t=   some value  \n"), vec![record(0, &[("key1", "some value")])]);
}

#[test]
fn the_first_equals_sign_splits_the_line() {
    assert_eq!(items("a=b=c\n"), vec![record(0, &[("a", "b=c")])]);
}

#[test]
fn an_empty_value_is_kept() {
    assert_eq!(items("a=\n"), vec![record(0, &[("a", "")])]);
}

#[test]
fn a_key_that_is_not_alphanumeric_makes_a_text_line() {
    assert_eq!(items("a-b=1\n"), vec![text(0, "a-b=1")]);
    assert_eq!(items("a b=1\n"), vec![text(0, "a b=1")]);
    assert_eq!(items("=1\n"), vec![text(0, "=1")]);
    assert_eq!(items("  = \n"), vec![text(0, "  = ")]);
    assert_eq!(items("cl\u{e9}=1\n"), vec![text(0, "cl\u{e9}=1")]);
}

#[test]
fn a_failed_key_closes_the_open_record_and_is_kept_as_text() {
    let data = "a=1\n# b = 2\nc=3\n";
    assert_eq!(
        items(data),
        vec![record(1, &[("a", "1")]), text(1, "# b = 2"), record(0, &[("c", "3")])]
    );
}

#[test]
fn fields_keep_their_file_order() {
    assert_eq!(
        items("zeta=1\nalpha=2\nmid=3\n"),
        vec![record(0, &[("zeta", "1"), ("alpha", "2"), ("mid", "3")])]
    );
}

#[test]
fn values_are_read_with_their_hex_decoding() {
    let got = items("Key = deadbeef\nMsg = hello\n");
    match &got[0].1 {
        ContentItem::KVS(fields) => {
            assert_eq!(fields[0].1.hex_parsed, Some(vec![0xde, 0xad, 0xbe, 0xef]));
            assert_eq!(fields[1].1.hex_parsed, None);
        }
        _ => panic!("expected a record"),
    }
}

#[test]
fn a_repeated_key_is_fatal() {
    let e = parse_content("a=1\na=2\n").unwrap_err();
    assert_eq!(e, Diagnostic::DuplicateKey { field: "a".to_string(), record: 0, line: 1 });
    assert_eq!(e.severity(), Severity::Fatal);
    assert_eq!(e.line(), 1);
}

#[test]
fn a_repeated_key_names_its_record_and_line() {
    let data = "a=1\n\ntext\nb=1\nc=2\n\nx=1\ny=2\nx=3\nz=0\n";
    assert_eq!(
        parse_content(data),
        Err(Diagnostic::DuplicateKey { field: "x".to_string(), record: 2, line: 8 })
    );
}

#[test]
fn the_same_key_in_two_records_is_fine() {
    assert_eq!(items("a=1\n\na=2\n"), vec![record(1, &[("a", "1")]), record(0, &[("a", "2")])]);
}

#[test]
fn keys_differ_by_case() {
    assert_eq!(items("a=1\nA=2\n"), vec![record(0, &[("a", "1"), ("A", "2")])]);
}

#[test]
fn assignment_reads_key_and_value() {
    assert_eq!(
        assignment(&to_chars(" k = v w ")),
        Some(("k".to_string(), "v w".to_string()))
    );
    assert_eq!(assignment(&to_chars("no equals sign")), None);
    assert_eq!(assignment(&to_chars("bad key = 1")), None);
    assert_eq!(assignment(&to_chars("")), None);
}

#[test]
fn content_can_be_cloned_and_compared() {
    let c = parse_content("a=1\ntext\n").unwrap();
    let d: Content = c.clone();
    assert_eq!(c, d);
}
