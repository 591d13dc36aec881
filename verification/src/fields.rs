//! Field lists: named entries kept in the order in which they were added.

use vstd::prelude::*;

verus! {

/// The first position at or after `from` whose entry is named `key`, or the
/// length of `fields` where there is none.
pub open spec fn key_from<V>(fields: Seq<(Seq<char>, V)>, key: Seq<char>, from: int) -> int
    decreases fields.len() - from,
{
    if from >= fields.len() {
        fields.len() as int
    } else if fields[from].0 == key {
        from
    } else {
        key_from(fields, key, from + 1)
    }
}

/// The position of the first entry named `key`, or the length of `fields`.
pub open spec fn key_index<V>(fields: Seq<(Seq<char>, V)>, key: Seq<char>) -> int {
    key_from(fields, key, 0)
}

/// Whether an entry of `fields` is named `key`.
pub open spec fn has_key<V>(fields: Seq<(Seq<char>, V)>, key: Seq<char>) -> bool {
    key_index(fields, key) < fields.len()
}

/// No two entries of `fields` have the same name.
pub open spec fn unique_keys<V>(fields: Seq<(Seq<char>, V)>) -> bool {
    forall|i: int, j: int| 0 <= i < j < fields.len() ==> (#[trigger] fields[i]).0 != (
    #[trigger] fields[j]).0
}

/// `key_from` stays within `from..=fields.len()`, stops at an entry named
/// `key` and passes over none.
pub proof fn lemma_key_from<V>(fields: Seq<(Seq<char>, V)>, key: Seq<char>, from: int)
    requires
        0 <= from <= fields.len(),
    ensures
        from <= key_from(fields, key, from) <= fields.len(),
        key_from(fields, key, from) < fields.len() ==> fields[key_from(fields, key, from)].0
            == key,
        forall|i: int| from <= i < key_from(fields, key, from) ==> (#[trigger] fields[i]).0 != key,
    decreases fields.len() - from,
{
    if from < fields.len() && fields[from].0 != key {
        lemma_key_from(fields, key, from + 1);
    }
}

/// A position whose entry is named `key`, with no such entry between `from`
/// and it, is what `key_from` returns; so is the length where no entry from
/// `from` on has that name.
pub proof fn lemma_key_from_is<V>(fields: Seq<(Seq<char>, V)>, key: Seq<char>, from: int, at: int)
    requires
        0 <= from <= at <= fields.len(),
        forall|i: int| from <= i < at ==> (#[trigger] fields[i]).0 != key,
        at < fields.len() ==> fields[at].0 == key,
    ensures
        key_from(fields, key, from) == at,
    decreases at - from,
{
    if from < at {
        lemma_key_from_is(fields, key, from + 1, at);
    }
}

/// Adding an entry under a name that the list lacks keeps the names unique.
pub proof fn lemma_unique_push<V>(fields: Seq<(Seq<char>, V)>, key: Seq<char>, value: V)
    requires
        unique_keys(fields),
        !has_key(fields, key),
    ensures
        unique_keys(fields.push((key, value))),
{
    lemma_key_from(fields, key, 0);
    let after = fields.push((key, value));
    assert forall|i: int, j: int| 0 <= i < j < after.len() implies (#[trigger] after[i]).0 != (
    #[trigger] after[j]).0 by {
        if j < fields.len() {
            assert(after[i] == fields[i]);
            assert(after[j] == fields[j]);
        } else {
            assert(after[i] == fields[i]);
        }
    }
}

/// The position of the first entry named `key`, or the length of `fields`.
pub fn find_key<V: DeepView>(fields: &Vec<(String, V)>, key: &String) -> (at: usize)
    ensures
        at == key_index(fields.deep_view(), key@),
        at <= fields.len(),
{
    let mut i: usize = 0;
    while i < fields.len() && fields[i].0 != *key
        invariant
            i <= fields.len(),
            forall|j: int| 0 <= j < i ==> (#[trigger] fields.deep_view()[j]).0 != key@,
        decreases fields.len() - i,
    {
        i += 1;
    }
    proof {
        lemma_key_from_is(fields.deep_view(), key@, 0, i as int);
    }
    i
}

} // verus!
