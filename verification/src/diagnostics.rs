//! What the segmenter and the unifier report about their input.

use crate::kinds::{type_text, T};
use crate::numerals::{decimal_string, decimal_text};
use vstd::prelude::*;

verus! {

/// How grave a diagnostic is.
#[derive(Clone, Copy, Debug, PartialEq, Eq, Structural)]
pub enum Severity {
    /// The run cannot go on.
    Fatal,
    /// The run goes on; the record is kept as far as it was understood.
    Warning,
}

/// One finding, with the place it refers to.
#[derive(Clone, Debug, PartialEq, Eq)]
pub enum Diagnostic {
    /// A record names `field` twice. `record` counts the records before it
    /// and `line` is the line of the second assignment.
    DuplicateKey { field: String, record: usize, line: usize },
    /// A record has another number of fields than the schema.
    KeyCountMismatch { schema_keys: usize, record_keys: usize, line: usize },
    /// A record has a field that the schema lacks.
    UnexpectedKey { key: String, line: usize },
    /// The type of `value` does not unify with the type `expected` that the
    /// schema holds for `key`.
    NotUnifiable { key: String, value: String, line: usize, expected: T },
}

/// What a `Diagnostic` holds.
pub enum DiagnosticView {
    DuplicateKey { field: Seq<char>, record: usize, line: usize },
    KeyCountMismatch { schema_keys: usize, record_keys: usize, line: usize },
    UnexpectedKey { key: Seq<char>, line: usize },
    NotUnifiable { key: Seq<char>, value: Seq<char>, line: usize, expected: T },
}

impl DiagnosticView {
    /// A repeated field name is fatal; everything else is a warning.
    pub open spec fn severity(self) -> Severity {
        match self {
            DiagnosticView::DuplicateKey { .. } => Severity::Fatal,
            _ => Severity::Warning,
        }
    }

    /// The finding in words.
    pub open spec fn message(self) -> Seq<char> {
        match self {
            DiagnosticView::DuplicateKey { field, .. } => "duplicated key "@ + field,
            DiagnosticView::KeyCountMismatch { schema_keys, record_keys, .. } =>
                "not the same number of keys, expecting "@ + decimal_text(schema_keys as nat)
                    + " keys, but "@ + decimal_text(record_keys as nat) + " keys found"@,
            DiagnosticView::UnexpectedKey { key, line } => "unexpected key "@ + key + " line "@
                + decimal_text(line as nat),
            DiagnosticView::NotUnifiable { key, value, line, expected } => "key "@ + key
                + " has non unifying value "@ + value + " at line "@ + decimal_text(line as nat)
                + " (expecting "@ + type_text(expected) + " compatible)"@,
        }
    }

    /// The line that the finding refers to.
    pub open spec fn line(self) -> usize {
        match self {
            DiagnosticView::DuplicateKey { line, .. } => line,
            DiagnosticView::KeyCountMismatch { line, .. } => line,
            DiagnosticView::UnexpectedKey { line, .. } => line,
            DiagnosticView::NotUnifiable { line, .. } => line,
        }
    }
}

impl View for Diagnostic {
    type V = DiagnosticView;

    open spec fn view(&self) -> DiagnosticView {
        match *self {
            Diagnostic::DuplicateKey { field, record, line } => DiagnosticView::DuplicateKey {
                field: field@,
                record,
                line,
            },
            Diagnostic::KeyCountMismatch {
                schema_keys,
                record_keys,
                line,
            } => DiagnosticView::KeyCountMismatch { schema_keys, record_keys, line },
            Diagnostic::UnexpectedKey { key, line } => DiagnosticView::UnexpectedKey {
                key: key@,
                line,
            },
            Diagnostic::NotUnifiable { key, value, line, expected } => DiagnosticView::NotUnifiable {
                key: key@,
                value: value@,
                line,
                expected,
            },
        }
    }
}

impl DeepView for Diagnostic {
    type V = DiagnosticView;

    open spec fn deep_view(&self) -> DiagnosticView {
        self@
    }
}

impl Diagnostic {
    /// How grave the finding is.
    pub fn severity(&self) -> (s: Severity)
        ensures
            s == self@.severity(),
    {
        match self {
            Diagnostic::DuplicateKey { .. } => Severity::Fatal,
            _ => Severity::Warning,
        }
    }

    /// The finding in words.
    pub fn message(&self) -> (s: String)
        ensures
            s@ == self@.message(),
    {
        match self {
            Diagnostic::DuplicateKey { field, .. } => {
                let mut s = "duplicated key ".to_string();
                s.append(field.as_str());
                s
            },
            Diagnostic::KeyCountMismatch { schema_keys, record_keys, .. } => {
                let mut s = "not the same number of keys, expecting ".to_string();
                s.append(decimal_string(*schema_keys).as_str());
                s.append(" keys, but ");
                s.append(decimal_string(*record_keys).as_str());
                s.append(" keys found");
                s
            },
            Diagnostic::UnexpectedKey { key, line } => {
                let mut s = "unexpected key ".to_string();
                s.append(key.as_str());
                s.append(" line ");
                s.append(decimal_string(*line).as_str());
                s
            },
            Diagnostic::NotUnifiable { key, value, line, expected } => {
                let mut s = "key ".to_string();
                s.append(key.as_str());
                s.append(" has non unifying value ");
                s.append(value.as_str());
                s.append(" at line ");
                s.append(decimal_string(*line).as_str());
                s.append(" (expecting ");
                s.append(expected.describe().as_str());
                s.append(" compatible)");
                s
            },
        }
    }

    /// The line that the finding refers to.
    pub fn line(&self) -> (n: usize)
        ensures
            n == self@.line(),
    {
        match self {
            Diagnostic::DuplicateKey { line, .. } => *line,
            Diagnostic::KeyCountMismatch { line, .. } => *line,
            Diagnostic::UnexpectedKey { line, .. } => *line,
            Diagnostic::NotUnifiable { line, .. } => *line,
        }
    }
}

} // verus!
