//! The schema unifier: one type per field, merged over all records.

use crate::diagnostics::{Diagnostic, DiagnosticView};
use crate::fields::{find_key, key_index};
use crate::kinds::{unified, T};
use crate::laws::lemma_schema_shape;
use crate::segment::{record_fits, Content, ContentItem, ItemView};
use crate::value::{classify, Value, ValueView};
use vstd::prelude::*;

verus! {

/// A segmented file with the schema inferred from it and what the unifier
/// had to report. `same_structure` is `None` where the file has no record.
#[derive(Debug)]
pub struct Kat<'a> {
    pub content: &'a Content,
    pub same_structure: Option<Vec<(String, T)>>,
    pub diagnostics: Vec<Diagnostic>,
}

/// What a `Kat` holds.
pub struct KatView {
    pub content: Seq<(usize, ItemView)>,
    pub same_structure: Option<Seq<(Seq<char>, T)>>,
    pub diagnostics: Seq<DiagnosticView>,
}

impl<'a> View for Kat<'a> {
    type V = KatView;

    open spec fn view(&self) -> KatView {
        KatView {
            content: self.content@,
            same_structure: match self.same_structure {
                Some(schema) => Some(schema.deep_view()),
                None => None,
            },
            diagnostics: self.diagnostics.deep_view(),
        }
    }
}

/// The schema that a record gives by itself: its fields in order, each
/// with the type of its own value.
pub open spec fn seed(fields: Seq<(Seq<char>, ValueView)>) -> Seq<(Seq<char>, T)> {
    Seq::new(fields.len(), |i: int| (fields[i].0, classify(fields[i].1)))
}

/// A schema while one record is folded into it, and the finding that ended
/// the folding, if one did.
pub struct Folding {
    pub schema: Seq<(Seq<char>, T)>,
    pub finding: Option<DiagnosticView>,
}

/// Folds one field into the schema. A key that the schema lacks, or a value
/// whose type does not unify with the schema's, leaves the schema as it is
/// and is reported. Otherwise the field's type becomes the unified one.
pub open spec fn field_step(
    schema: Seq<(Seq<char>, T)>,
    key: Seq<char>,
    value: ValueView,
    line: usize,
) -> Folding {
    let at = key_index(schema, key);
    if at >= schema.len() {
        Folding { schema, finding: Some(DiagnosticView::UnexpectedKey { key, line }) }
    } else {
        match unified(schema[at].1, classify(value)) {
            Some(t) => Folding { schema: schema.update(at, (schema[at].0, t)), finding: None },
            None => Folding {
                schema,
                finding: Some(
                    DiagnosticView::NotUnifiable {
                        key,
                        value: value.orig,
                        line,
                        expected: schema[at].1,
                    },
                ),
            },
        }
    }
}

/// Folds the first `n` fields of a record into the schema, in order, and
/// stops at the first finding.
pub open spec fn fields_run(
    schema: Seq<(Seq<char>, T)>,
    fields: Seq<(Seq<char>, ValueView)>,
    line: usize,
    n: nat,
) -> Folding
    decreases n,
{
    if n == 0 {
        Folding { schema, finding: None }
    } else {
        let before = fields_run(schema, fields, line, (n - 1) as nat);
        if before.finding is Some {
            before
        } else {
            field_step(before.schema, fields[n - 1].0, fields[n - 1].1, line)
        }
    }
}

/// The unifier between two items: the schema so far, which is `None` until
/// the first record was seen, and the findings so far.
pub struct Analysis {
    pub schema: Option<Seq<(Seq<char>, T)>>,
    pub diagnostics: Seq<DiagnosticView>,
}

/// Folds a record into a schema. Another number of fields than the schema
/// has is reported first; the fields are folded all the same.
pub open spec fn record_step(
    schema: Seq<(Seq<char>, T)>,
    diagnostics: Seq<DiagnosticView>,
    fields: Seq<(Seq<char>, ValueView)>,
    line: usize,
) -> Analysis {
    let counted = if schema.len() != fields.len() {
        diagnostics.push(
            DiagnosticView::KeyCountMismatch {
                schema_keys: schema.len() as usize,
                record_keys: fields.len() as usize,
                line,
            },
        )
    } else {
        diagnostics
    };
    let folded = fields_run(schema, fields, line, fields.len());
    Analysis {
        schema: Some(folded.schema),
        diagnostics: match folded.finding {
            Some(finding) => counted.push(finding),
            None => counted,
        },
    }
}

/// Takes in one item. Text is passed over. The first record seeds the
/// schema; every later one is folded into it.
pub open spec fn item_step(state: Analysis, item: (usize, ItemView)) -> Analysis {
    match item.1 {
        ItemView::Text(_) => state,
        ItemView::KVS(fields) => match state.schema {
            None => Analysis { schema: Some(seed(fields)), diagnostics: state.diagnostics },
            Some(schema) => record_step(schema, state.diagnostics, fields, item.0),
        },
    }
}

/// The unifier after the first `n` items.
pub open spec fn analysis_run(items: Seq<(usize, ItemView)>, n: nat) -> Analysis
    decreases n,
{
    if n == 0 {
        Analysis { schema: None, diagnostics: Seq::empty() }
    } else {
        item_step(analysis_run(items, (n - 1) as nat), items[n - 1])
    }
}

/// The schema of a file and the findings on the way to it.
pub open spec fn analysis(items: Seq<(usize, ItemView)>) -> Analysis {
    analysis_run(items, items.len())
}

/// Folding stops at the first finding: the fields after it change nothing.
pub proof fn lemma_fields_run_stops(
    schema: Seq<(Seq<char>, T)>,
    fields: Seq<(Seq<char>, ValueView)>,
    line: usize,
    n: nat,
    m: nat,
)
    requires
        n <= m,
        fields_run(schema, fields, line, n).finding is Some,
    ensures
        fields_run(schema, fields, line, m) == fields_run(schema, fields, line, n),
    decreases m,
{
    if n < m {
        lemma_fields_run_stops(schema, fields, line, n, (m - 1) as nat);
    }
}

/// The schema that a record gives by itself.
pub fn seed_schema(fields: &Vec<(String, Value)>) -> (schema: Vec<(String, T)>)
    requires
        record_fits(fields.deep_view()),
    ensures
        schema.deep_view() == seed(fields.deep_view()),
{
    let mut schema: Vec<(String, T)> = Vec::new();
    let mut i: usize = 0;
    while i < fields.len()
        invariant
            i <= fields.len(),
            record_fits(fields.deep_view()),
            schema.len() == i,
            forall|j: int|
                0 <= j < i ==> (#[trigger] schema.deep_view()[j]) == seed(fields.deep_view())[j],
        decreases fields.len() - i,
    {
        assert(4 * fields.deep_view()[i as int].1.orig.len() <= usize::MAX);
        let t = fields[i].1.find_type();
        let ghost before = schema.deep_view();
        schema.push((fields[i].0.clone(), t));
        proof {
            assert(schema.deep_view() =~= before.push((fields[i as int].0@, t)));
        }
        i += 1;
    }
    proof {
        assert(schema.deep_view() =~= seed(fields.deep_view()));
    }
    schema
}

/// Folds a record into the schema, field by field, up to the first finding.
pub fn fold_record(schema: &mut Vec<(String, T)>, fields: &Vec<(String, Value)>, line: usize) -> (r:
    Option<Diagnostic>)
    requires
        record_fits(fields.deep_view()),
    ensures
        fields_run(old(schema).deep_view(), fields.deep_view(), line, fields.len() as nat)
            == (Folding {
            schema: final(schema).deep_view(),
            finding: match r {
                Some(finding) => Some(finding@),
                None => None,
            },
        }),
{
    let ghost start = schema.deep_view();
    let mut i: usize = 0;
    while i < fields.len()
        invariant
            i <= fields.len(),
            record_fits(fields.deep_view()),
            start == old(schema).deep_view(),
            fields_run(start, fields.deep_view(), line, i as nat) == (Folding {
                schema: schema.deep_view(),
                finding: None,
            }),
        decreases fields.len() - i,
    {
        assert(4 * fields.deep_view()[i as int].1.orig.len() <= usize::MAX);
        let ghost now = schema.deep_view();
        let ghost step = field_step(
            now,
            fields.deep_view()[i as int].0,
            fields.deep_view()[i as int].1,
            line,
        );
        assert(fields_run(start, fields.deep_view(), line, (i + 1) as nat) == step);
        let at = find_key(schema, &fields[i].0);
        if at >= schema.len() {
            proof {
                lemma_fields_run_stops(
                    start,
                    fields.deep_view(),
                    line,
                    (i + 1) as nat,
                    fields.len() as nat,
                );
            }
            return Some(Diagnostic::UnexpectedKey { key: fields[i].0.clone(), line });
        }
        let expected = schema[at].1;
        match expected.unify(&fields[i].1.find_type()) {
            Ok(t) => {
                let name = schema[at].0.clone();
                schema.set(at, (name, t));
                proof {
                    assert(schema.deep_view() =~= now.update(at as int, (now[at as int].0, t)));
                }
            },
            Err(_) => {
                proof {
                    lemma_fields_run_stops(
                        start,
                        fields.deep_view(),
                        line,
                        (i + 1) as nat,
                        fields.len() as nat,
                    );
                }
                return Some(
                    Diagnostic::NotUnifiable {
                        key: fields[i].0.clone(),
                        value: fields[i].1.orig.clone(),
                        line,
                        expected,
                    },
                );
            },
        }
        i += 1;
    }
    None
}

/// Infers the schema of a segmented file.
///
/// The first record seeds the schema with its own fields and their types.
/// Every later record is folded into it field by field, and what does not
/// fit is reported and left out.
pub fn analyze_content(content: &Content) -> (kat: Kat<'_>)
    requires
        content.fits(),
    ensures
        kat.content@ == content@,
        kat@.same_structure == analysis(content@).schema,
        kat@.diagnostics == analysis(content@).diagnostics,
        kat.same_structure is Some <==> exists|i: int|
            0 <= i < content@.len() && (#[trigger] content@[i]).1 is KVS,
{
    let mut schema: Vec<(String, T)> = Vec::new();
    let mut seeded = false;
    let mut diagnostics: Vec<Diagnostic> = Vec::new();
    let mut i: usize = 0;
    proof {
        assert(diagnostics.deep_view() =~= Seq::<DiagnosticView>::empty());
    }
    while i < content.0.len()
        invariant
            i <= content.0.len(),
            content.fits(),
            analysis_run(content@, i as nat) == (Analysis {
                schema: if seeded {
                    Some(schema.deep_view())
                } else {
                    None
                },
                diagnostics: diagnostics.deep_view(),
            }),
        decreases content.0.len() - i,
    {
        let line = content.0[i].0;
        assert(content@[i as int] == (line, content.0@[i as int].1@));
        match &content.0[i].1 {
            ContentItem::Text(_) => {},
            ContentItem::KVS(fields) => {
                assert(record_fits(fields.deep_view()));
                if !seeded {
                    schema = seed_schema(fields);
                    seeded = true;
                } else {
                    if schema.len() != fields.len() {
                        let ghost before = diagnostics.deep_view();
                        let finding = Diagnostic::KeyCountMismatch {
                            schema_keys: schema.len(),
                            record_keys: fields.len(),
                            line,
                        };
                        diagnostics.push(finding);
                        proof {
                            assert(diagnostics.deep_view() =~= before.push(finding@));
                        }
                    }
                    match fold_record(&mut schema, fields, line) {
                        Some(finding) => {
                            let ghost before = diagnostics.deep_view();
                            diagnostics.push(finding);
                            proof {
                                assert(diagnostics.deep_view() =~= before.push(finding@));
                            }
                        },
                        None => {},
                    }
                }
            },
        }
        i += 1;
    }
    proof {
        lemma_schema_shape(content@, content@.len());
    }
    Kat { content, same_structure: if seeded { Some(schema) } else { None }, diagnostics }
}

} // verus!
