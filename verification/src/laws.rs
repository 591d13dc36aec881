//! What holds of every schema that the unifier infers.

use crate::analysis::{
    analysis, analysis_run, field_step, fields_run, record_step, seed, Analysis,
};
use crate::diagnostics::{DiagnosticView, Severity};
use crate::fields::{has_key, key_from, key_index, lemma_key_from, lemma_key_from_is, unique_keys};
use crate::kinds::{unified, T};
use crate::segment::{items_wf, ItemView};
use crate::value::{classify, ValueView};
use vstd::prelude::*;

verus! {

/// `after` has the fields of `before`, under the same names and in the same
/// order, each of the same kind and at least as wide.
pub open spec fn grown(before: Seq<(Seq<char>, T)>, after: Seq<(Seq<char>, T)>) -> bool {
    &&& after.len() == before.len()
    &&& forall|i: int|
        0 <= i < before.len() ==> {
            &&& (#[trigger] after[i]).0 == before[i].0
            &&& after[i].1.same_kind(before[i].1)
            &&& before[i].1.width() <= after[i].1.width()
        }
}

/// Among the first `n` items there is a record with a field named `key`
/// whose value is of type `t`.
pub open spec fn observed(items: Seq<(usize, ItemView)>, n: nat, key: Seq<char>, t: T) -> bool {
    exists|i: int, j: int|
        0 <= i < n && 0 <= j < (#[trigger] record_at(items, i)).len() && (#[trigger] record_at(
            items,
            i,
        )[j]).0 == key && classify(record_at(items, i)[j].1) == t
}

/// The fields of the item at `i` where it is a record; none for text.
pub open spec fn record_at(items: Seq<(usize, ItemView)>, i: int) -> Seq<(Seq<char>, ValueView)> {
    match items[i].1 {
        ItemView::KVS(fields) => fields,
        ItemView::Text(_) => Seq::empty(),
    }
}

/// The schema covers a field: it has the field's name, under it a type of
/// the kind of the field's value, and that type is at least as wide.
pub open spec fn covers(schema: Seq<(Seq<char>, T)>, key: Seq<char>, value: ValueView) -> bool {
    &&& has_key(schema, key)
    &&& schema[key_index(schema, key)].1.same_kind(classify(value))
    &&& classify(value).width() <= schema[key_index(schema, key)].1.width()
}

/// Names are looked up the same way in two lists with the same names.
pub proof fn lemma_same_names<V, W>(
    a: Seq<(Seq<char>, V)>,
    b: Seq<(Seq<char>, W)>,
    key: Seq<char>,
    from: int,
)
    requires
        0 <= from,
        a.len() == b.len(),
        forall|i: int| 0 <= i < a.len() ==> (#[trigger] a[i]).0 == (#[trigger] b[i]).0,
    ensures
        key_from(a, key, from) == key_from(b, key, from),
    decreases a.len() - from,
{
    if from < a.len() {
        assert(a[from].0 == b[from].0);
        if a[from].0 != key {
            lemma_same_names(a, b, key, from + 1);
        }
    }
}

/// Folding a field into a schema lets the schema grow and nothing else.
pub proof fn lemma_field_step_grows(
    schema: Seq<(Seq<char>, T)>,
    key: Seq<char>,
    value: ValueView,
    line: usize,
)
    ensures
        grown(schema, field_step(schema, key, value, line).schema),
        field_step(schema, key, value, line).finding is None ==> covers(
            field_step(schema, key, value, line).schema,
            key,
            value,
        ),
{
    lemma_key_from(schema, key, 0);
    let after = field_step(schema, key, value, line).schema;
    lemma_same_names(schema, after, key, 0);
}

/// Growing is transitive.
pub proof fn lemma_grown_transitive(
    a: Seq<(Seq<char>, T)>,
    b: Seq<(Seq<char>, T)>,
    c: Seq<(Seq<char>, T)>,
)
    requires
        grown(a, b),
        grown(b, c),
    ensures
        grown(a, c),
{
    assert forall|i: int| 0 <= i < a.len() implies {
        &&& (#[trigger] c[i]).0 == a[i].0
        &&& c[i].1.same_kind(a[i].1)
        &&& a[i].1.width() <= c[i].1.width()
    } by {
        assert(b[i].0 == a[i].0);
        assert(c[i].0 == b[i].0);
    }
}

/// A schema that covers a field still covers it after it has grown.
pub proof fn lemma_grown_covers(
    before: Seq<(Seq<char>, T)>,
    after: Seq<(Seq<char>, T)>,
    key: Seq<char>,
    value: ValueView,
)
    requires
        grown(before, after),
        covers(before, key, value),
    ensures
        covers(after, key, value),
{
    lemma_same_names(before, after, key, 0);
    lemma_key_from(before, key, 0);
    let at = key_index(before, key);
    assert(after[at].0 == before[at].0);
}

/// Folding the fields of a record into a schema lets the schema grow. Where
/// no field was refused, the schema covers every field folded so far, and
/// each of its types is the one it had or the type of one of those fields.
pub proof fn lemma_fields_run_grows(
    schema: Seq<(Seq<char>, T)>,
    fields: Seq<(Seq<char>, ValueView)>,
    line: usize,
    n: nat,
)
    requires
        n <= fields.len(),
    ensures
        grown(schema, fields_run(schema, fields, line, n).schema),
        fields_run(schema, fields, line, n).finding is None ==> {
            &&& forall|j: int|
                0 <= j < n ==> covers(
                    fields_run(schema, fields, line, n).schema,
                    (#[trigger] fields[j]).0,
                    fields[j].1,
                )
            &&& forall|k: int|
                0 <= k < schema.len() ==> {
                    ||| (#[trigger] fields_run(schema, fields, line, n).schema[k]).1 == schema[k].1
                    ||| exists|j: int|
                        0 <= j < n && (#[trigger] fields[j]).0 == schema[k].0 && classify(
                            fields[j].1,
                        ) == fields_run(schema, fields, line, n).schema[k].1
                }
        },
    decreases n,
{
    if n > 0 {
        let before = fields_run(schema, fields, line, (n - 1) as nat);
        let after = fields_run(schema, fields, line, n);
        lemma_fields_run_grows(schema, fields, line, (n - 1) as nat);
        if before.finding is None {
            let key = fields[n - 1].0;
            let value = fields[n - 1].1;
            lemma_field_step_grows(before.schema, key, value, line);
            lemma_grown_transitive(schema, before.schema, after.schema);
            if after.finding is None {
                assert forall|j: int| 0 <= j < n implies covers(
                    after.schema,
                    (#[trigger] fields[j]).0,
                    fields[j].1,
                ) by {
                    if j < n - 1 {
                        lemma_grown_covers(before.schema, after.schema, fields[j].0, fields[j].1);
                    }
                }
                lemma_key_from(before.schema, key, 0);
                let at = key_index(before.schema, key);
                assert forall|k: int| 0 <= k < schema.len() implies {
                    ||| (#[trigger] after.schema[k]).1 == schema[k].1
                    ||| exists|j: int|
                        0 <= j < n && (#[trigger] fields[j]).0 == schema[k].0 && classify(
                            fields[j].1,
                        ) == after.schema[k].1
                } by {
                    assert(before.schema[k].0 == schema[k].0);
                    if k == at {
                        let merged = unified(before.schema[at].1, classify(value))->0;
                        assert(after.schema[k].1 == merged);
                        if merged == before.schema[at].1 {
                            if before.schema[k].1 != schema[k].1 {
                                let j = choose|j: int|
                                    0 <= j < n - 1 && (#[trigger] fields[j]).0 == schema[k].0
                                        && classify(fields[j].1) == before.schema[k].1;
                                assert(0 <= j < n && fields[j].0 == schema[k].0 && classify(
                                    fields[j].1,
                                ) == after.schema[k].1);
                            }
                        } else {
                            assert(merged == classify(value));
                            assert(fields[n - 1].0 == schema[k].0 && classify(fields[n - 1].1)
                                == after.schema[k].1);
                        }
                    } else {
                        assert(after.schema[k] == before.schema[k]);
                        if before.schema[k].1 != schema[k].1 {
                            let j = choose|j: int|
                                0 <= j < n - 1 && (#[trigger] fields[j]).0 == schema[k].0
                                    && classify(fields[j].1) == before.schema[k].1;
                            assert(0 <= j < n && fields[j].0 == schema[k].0 && classify(
                                fields[j].1,
                            ) == after.schema[k].1);
                        }
                    }
                }
            }
        }
    }
}

/// The seed of a record with unique names covers each of its fields.
pub proof fn lemma_seed_covers(fields: Seq<(Seq<char>, ValueView)>, j: int)
    requires
        unique_keys(fields),
        0 <= j < fields.len(),
    ensures
        key_index(seed(fields), fields[j].0) == j,
        covers(seed(fields), fields[j].0, fields[j].1),
{
    let schema = seed(fields);
    assert forall|i: int| 0 <= i < j implies (#[trigger] schema[i]).0 != fields[j].0 by {
        assert(fields[i].0 != fields[j].0);
    }
    lemma_key_from_is(schema, fields[j].0, 0, j);
}

/// The findings only grow from item to item.
pub proof fn lemma_findings_grow(items: Seq<(usize, ItemView)>, n: nat, m: nat)
    requires
        n <= m <= items.len(),
    ensures
        analysis_run(items, n).diagnostics.len() <= analysis_run(items, m).diagnostics.len(),
    decreases m,
{
    if n < m {
        lemma_findings_grow(items, n, (m - 1) as nat);
    }
}

/// The unifier reports warnings only.
pub proof fn lemma_findings_are_warnings(items: Seq<(usize, ItemView)>, n: nat)
    requires
        n <= items.len(),
    ensures
        forall|i: int|
            0 <= i < analysis_run(items, n).diagnostics.len() ==> (#[trigger] analysis_run(
                items,
                n,
            ).diagnostics[i]).severity() == Severity::Warning,
    decreases n,
{
    if n > 0 {
        lemma_findings_are_warnings(items, (n - 1) as nat);
        let before = analysis_run(items, (n - 1) as nat);
        match items[n - 1].1 {
            ItemView::Text(_) => {},
            ItemView::KVS(fields) => {
                if before.schema is Some {
                    lemma_fields_run_finding(
                        before.schema->0,
                        fields,
                        items[n - 1].0,
                        fields.len(),
                    );
                }
            },
        }
    }
}

/// What ends the folding of a record is a warning.
pub proof fn lemma_fields_run_finding(
    schema: Seq<(Seq<char>, T)>,
    fields: Seq<(Seq<char>, ValueView)>,
    line: usize,
    n: nat,
)
    ensures
        fields_run(schema, fields, line, n).finding matches Some(finding) ==> finding.severity()
            == Severity::Warning,
    decreases n,
{
    if n > 0 {
        lemma_fields_run_finding(schema, fields, line, (n - 1) as nat);
    }
}

/// Before the first record there is no schema. From the first record on
/// the schema has the fields of that record, under the same names and in
/// the same order, each of the kind that the first record gave it and at
/// least as wide: no later record adds a field, takes one away or changes
/// its kind.
pub proof fn lemma_schema_shape(items: Seq<(usize, ItemView)>, n: nat)
    requires
        n <= items.len(),
    ensures
        match analysis_run(items, n).schema {
            None => forall|i: int| 0 <= i < n ==> (#[trigger] items[i]).1 is Text,
            Some(schema) => exists|k: int|
                {
                    &&& 0 <= k < n
                    &&& (#[trigger] items[k]).1 is KVS
                    &&& forall|i: int| 0 <= i < k ==> (#[trigger] items[i]).1 is Text
                    &&& grown(seed(record_at(items, k)), schema)
                },
        },
    decreases n,
{
    if n > 0 {
        lemma_schema_shape(items, (n - 1) as nat);
        let before = analysis_run(items, (n - 1) as nat);
        let after = analysis_run(items, n);
        match items[n - 1].1 {
            ItemView::Text(_) => {
                if before.schema is Some {
                    let k = choose|k: int|
                        {
                            &&& 0 <= k < n - 1
                            &&& (#[trigger] items[k]).1 is KVS
                            &&& forall|i: int| 0 <= i < k ==> (#[trigger] items[i]).1 is Text
                            &&& grown(seed(record_at(items, k)), before.schema->0)
                        };
                    assert(0 <= k < n && items[k].1 is KVS);
                }
            },
            ItemView::KVS(fields) => {
                match before.schema {
                    None => {
                        assert(items[n - 1].1 is KVS);
                        assert(grown(seed(record_at(items, n - 1)), after.schema->0));
                    },
                    Some(schema) => {
                        let k = choose|k: int|
                            {
                                &&& 0 <= k < n - 1
                                &&& (#[trigger] items[k]).1 is KVS
                                &&& forall|i: int| 0 <= i < k ==> (#[trigger] items[i]).1 is Text
                                &&& grown(seed(record_at(items, k)), schema)
                            };
                        lemma_fields_run_grows(schema, fields, items[n - 1].0, fields.len());
                        lemma_grown_transitive(
                            seed(record_at(items, k)),
                            schema,
                            after.schema->0,
                        );
                        assert(0 <= k < n && items[k].1 is KVS);
                    },
                }
            },
        }
    }
}

/// A file with one record has the schema that the record gives by itself:
/// its fields in order, each with the type of its own value. Nothing is
/// reported.
pub proof fn lemma_single_record(items: Seq<(usize, ItemView)>, at: int)
    requires
        0 <= at < items.len(),
        items[at].1 is KVS,
        forall|i: int| 0 <= i < items.len() && i != at ==> (#[trigger] items[i]).1 is Text,
    ensures
        analysis(items).schema == Some(seed(record_at(items, at))),
        analysis(items).diagnostics == Seq::<DiagnosticView>::empty(),
{
    lemma_single_record_run(items, at, items.len());
}

/// The unifier on a file with one record, after the first `n` items.
pub proof fn lemma_single_record_run(items: Seq<(usize, ItemView)>, at: int, n: nat)
    requires
        0 <= at < items.len(),
        n <= items.len(),
        items[at].1 is KVS,
        forall|i: int| 0 <= i < items.len() && i != at ==> (#[trigger] items[i]).1 is Text,
    ensures
        analysis_run(items, n) == (Analysis {
            schema: if n <= at {
                None
            } else {
                Some(seed(record_at(items, at)))
            },
            diagnostics: Seq::empty(),
        }),
    decreases n,
{
    if n > 0 {
        lemma_single_record_run(items, at, (n - 1) as nat);
        if n - 1 != at {
            assert(items[n - 1].1 is Text);
        }
    }
}

/// Where nothing was reported, the schema covers every field of every
/// record, and each of its types is the type of a value that a record has
/// under that name. So each field has the kind of all its values and the
/// width of the widest.
pub proof fn lemma_schema_widest(items: Seq<(usize, ItemView)>, n: nat)
    requires
        n <= items.len(),
        items_wf(items),
        analysis_run(items, n).diagnostics.len() == 0,
    ensures
        analysis_run(items, n).schema matches Some(schema) ==> {
            &&& forall|i: int, j: int|
                0 <= i < n && 0 <= j < (#[trigger] record_at(items, i)).len() ==> covers(
                    schema,
                    (#[trigger] record_at(items, i)[j]).0,
                    record_at(items, i)[j].1,
                )
            &&& forall|k: int|
                0 <= k < schema.len() ==> observed(
                    items,
                    n,
                    (#[trigger] schema[k]).0,
                    schema[k].1,
                )
        },
    decreases n,
{
    if n > 0 {
        let before = analysis_run(items, (n - 1) as nat);
        let after = analysis_run(items, n);
        lemma_findings_grow(items, (n - 1) as nat, n);
        lemma_schema_widest(items, (n - 1) as nat);
        match items[n - 1].1 {
            ItemView::Text(_) => {
                if after.schema is Some {
                    let schema = after.schema->0;
                    assert(record_at(items, n - 1).len() == 0);
                    assert forall|k: int| 0 <= k < schema.len() implies observed(
                        items,
                        n,
                        (#[trigger] schema[k]).0,
                        schema[k].1,
                    ) by {
                        lemma_observed_later(items, (n - 1) as nat, n, schema[k].0, schema[k].1);
                    }
                }
            },
            ItemView::KVS(fields) => {
                assert(unique_keys(fields));
                assert(record_at(items, n - 1) == fields);
                match before.schema {
                    None => {
                        lemma_schema_shape(items, (n - 1) as nat);
                        let schema = seed(fields);
                        assert forall|i: int, j: int|
                            0 <= i < n && 0 <= j < (#[trigger] record_at(
                                items,
                                i,
                            )).len() implies covers(
                            schema,
                            (#[trigger] record_at(items, i)[j]).0,
                            record_at(items, i)[j].1,
                        ) by {
                            if i < n - 1 {
                                assert(items[i].1 is Text);
                            } else {
                                lemma_seed_covers(fields, j);
                            }
                        }
                        assert forall|k: int| 0 <= k < schema.len() implies observed(
                            items,
                            n,
                            (#[trigger] schema[k]).0,
                            schema[k].1,
                        ) by {
                            assert(0 <= k < record_at(items, n - 1).len() && record_at(
                                items,
                                n - 1,
                            )[k].0 == schema[k].0 && classify(record_at(items, n - 1)[k].1)
                                == schema[k].1);
                        }
                    },
                    Some(old) => {
                        let line = items[n - 1].0;
                        let folded = fields_run(old, fields, line, fields.len());
                        assert(after == record_step(old, before.diagnostics, fields, line));
                        assert(folded.finding is None);
                        lemma_fields_run_grows(old, fields, line, fields.len());
                        let schema = folded.schema;
                        assert forall|i: int, j: int|
                            0 <= i < n && 0 <= j < (#[trigger] record_at(
                                items,
                                i,
                            )).len() implies covers(
                            schema,
                            (#[trigger] record_at(items, i)[j]).0,
                            record_at(items, i)[j].1,
                        ) by {
                            if i < n - 1 {
                                lemma_grown_covers(
                                    old,
                                    schema,
                                    record_at(items, i)[j].0,
                                    record_at(items, i)[j].1,
                                );
                            }
                        }
                        assert forall|k: int| 0 <= k < schema.len() implies observed(
                            items,
                            n,
                            (#[trigger] schema[k]).0,
                            schema[k].1,
                        ) by {
                            assert(schema[k].0 == old[k].0);
                            if schema[k].1 == old[k].1 {
                                assert(observed(items, (n - 1) as nat, old[k].0, old[k].1));
                                lemma_observed_later(
                                    items,
                                    (n - 1) as nat,
                                    n,
                                    schema[k].0,
                                    schema[k].1,
                                );
                            } else {
                                let j = choose|j: int|
                                    0 <= j < fields.len() && (#[trigger] fields[j]).0 == old[k].0
                                        && classify(fields[j].1) == schema[k].1;
                                assert(0 <= j < record_at(items, n - 1).len() && record_at(
                                    items,
                                    n - 1,
                                )[j].0 == schema[k].0 && classify(record_at(items, n - 1)[j].1)
                                    == schema[k].1);
                            }
                        }
                    },
                }
            },
        }
    }
}

/// What was observed among the first items is observed among more of them.
pub proof fn lemma_observed_later(
    items: Seq<(usize, ItemView)>,
    n: nat,
    m: nat,
    key: Seq<char>,
    t: T,
)
    requires
        n <= m,
        observed(items, n, key, t),
    ensures
        observed(items, m, key, t),
{
    let (i, j) = choose|i: int, j: int|
        0 <= i < n && 0 <= j < (#[trigger] record_at(items, i)).len() && (#[trigger] record_at(
            items,
            i,
        )[j]).0 == key && classify(record_at(items, i)[j].1) == t;
    assert(0 <= i < m && 0 <= j < record_at(items, i).len() && record_at(items, i)[j].0 == key
        && classify(record_at(items, i)[j].1) == t);
}

/// Whether a record with the given fields is among the items.
pub open spec fn has_record(items: Seq<(usize, ItemView)>, fields: Seq<(Seq<char>, ValueView)>) -> bool {
    exists|i: int| 0 <= i < items.len() && (#[trigger] items[i]).1 == ItemView::KVS(fields)
}

/// The order of the records does not matter to the types. Two files that
/// hold the same records, in any order and between any text, and of which
/// nothing is reported, give every field the same type: the kind of its
/// values and the width of the widest.
pub proof fn lemma_record_order(
    one: Seq<(usize, ItemView)>,
    other: Seq<(usize, ItemView)>,
    key: Seq<char>,
)
    requires
        items_wf(one),
        items_wf(other),
        forall|fields: Seq<(Seq<char>, ValueView)>|
            has_record(one, fields) <==> has_record(other, fields),
        analysis(one).diagnostics.len() == 0,
        analysis(other).diagnostics.len() == 0,
        analysis(one).schema matches Some(schema) && has_key(schema, key),
    ensures
        analysis(other).schema matches Some(schema) && has_key(schema, key),
        analysis(one).schema->0[key_index(analysis(one).schema->0, key)].1 == analysis(
            other,
        ).schema->0[key_index(analysis(other).schema->0, key)].1,
{
    let a = analysis(one).schema->0;
    lemma_schema_widest(one, one.len());
    lemma_schema_widest(other, other.len());
    lemma_schema_shape(one, one.len());
    lemma_schema_shape(other, other.len());
    lemma_key_from(a, key, 0);
    let ka = key_index(a, key);
    let ta = a[ka].1;
    assert(observed(one, one.len(), a[ka].0, ta));
    let (i, j) = choose|i: int, j: int|
        0 <= i < one.len() && 0 <= j < (#[trigger] record_at(one, i)).len() && (
        #[trigger] record_at(one, i)[j]).0 == key && classify(record_at(one, i)[j].1) == ta;
    let fields = record_at(one, i);
    assert(one[i].1 == ItemView::KVS(fields));
    assert(has_record(one, fields));
    assert(has_record(other, fields));
    let i2 = choose|i2: int| 0 <= i2 < other.len() && (#[trigger] other[i2]).1 == ItemView::KVS(fields);
    assert(record_at(other, i2) == fields);
    assert(analysis(other).schema is Some) by {
        if analysis(other).schema is None {
            assert(other[i2].1 is Text);
        }
    }
    let b = analysis(other).schema->0;
    assert(covers(b, record_at(other, i2)[j].0, record_at(other, i2)[j].1));
    lemma_key_from(b, key, 0);
    let kb = key_index(b, key);
    let tb = b[kb].1;
    assert(observed(other, other.len(), b[kb].0, tb));
    let (p, q) = choose|p: int, q: int|
        0 <= p < other.len() && 0 <= q < (#[trigger] record_at(other, p)).len() && (
        #[trigger] record_at(other, p)[q]).0 == key && classify(record_at(other, p)[q].1) == tb;
    let back = record_at(other, p);
    assert(other[p].1 == ItemView::KVS(back));
    assert(has_record(other, back));
    assert(has_record(one, back));
    let p2 = choose|p2: int| 0 <= p2 < one.len() && (#[trigger] one[p2]).1 == ItemView::KVS(back);
    assert(record_at(one, p2) == back);
    assert(covers(a, record_at(one, p2)[q].0, record_at(one, p2)[q].1));
    assert(ta.same_kind(tb));
    assert(ta.width() == tb.width());
}

} // verus!
