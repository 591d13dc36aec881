use katgen::diagnostics::{Diagnostic, Severity};
use katgen::kinds::T;

#[test]
fn types_are_described_by_kind_and_width() {
    assert_eq!(T::Integer(9).describe(), "Integer(9)");
    assert_eq!(T::Integer(0).describe(), "Integer(0)");
    assert_eq!(T::Bytes(32).describe(), "Bytes(32)");
    assert_eq!(T::String.describe(), "String");
}

#[test]
fn a_repeated_key_in_words() {
    let d = Diagnostic::DuplicateKey { field: "a".to_string(), record: 3, line: 17 };
    assert_eq!(d.message(), "duplicated key a");
    assert_eq!(d.severity(), Severity::Fatal);
    assert_eq!(d.line(), 17);
}

#[test]
fn another_number_of_keys_in_words() {
    let d = Diagnostic::KeyCountMismatch { schema_keys: 2, record_keys: 13, line: 40 };
    assert_eq!(
        d.message(),
        "not the same number of keys, expecting 2 keys, but 13 keys found"
    );
    assert_eq!(d.severity(), Severity::Warning);
    assert_eq!(d.line(), 40);
}

#[test]
fn an_unexpected_key_in_words() {
    let d = Diagnostic::UnexpectedKey { key: "Tag".to_string(), line: 120 };
    assert_eq!(d.message(), "unexpected key Tag line 120");
    assert_eq!(d.severity(), Severity::Warning);
    assert_eq!(d.line(), 120);
}

#[test]
fn a_value_that_does_not_unify_in_words() {
    let d = Diagnostic::NotUnifiable {
        key: "a".to_string(),
        value: "deadbeef".to_string(),
        line: 4,
        expected: T::Integer(1),
    };
    assert_eq!(
        d.message(),
        "key a has non unifying value deadbeef at line 4 (expecting Integer(1) compatible)"
    );
    assert_eq!(d.severity(), Severity::Warning);
    assert_eq!(d.line(), 4);
}
