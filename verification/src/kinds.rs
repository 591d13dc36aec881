//! Semantic types of raw literals and their unification.

use crate::numerals::{decimal_string, decimal_text};
use vstd::prelude::*;

verus! {

/// The narrowest representation consistent with the literals seen so far.
#[derive(Clone, Copy, Debug, PartialEq, Eq, Structural)]
pub enum T {
    /// An unsigned integer of the given bit width.
    Integer(usize),
    /// Free text.
    String,
    /// A byte string of the given length.
    Bytes(usize),
}

impl View for T {
    type V = T;

    open spec fn view(&self) -> T {
        *self
    }
}

impl DeepView for T {
    type V = T;

    open spec fn deep_view(&self) -> T {
        *self
    }
}

/// The larger of two widths.
pub open spec fn wider(a: usize, b: usize) -> usize {
    if a >= b {
        a
    } else {
        b
    }
}

/// The common type of `a` and `b`: the wider of two types of one kind, and
/// nothing for types of different kinds.
pub open spec fn unified(a: T, b: T) -> Option<T> {
    match (a, b) {
        (T::Integer(x), T::Integer(y)) => Some(T::Integer(wider(x, y))),
        (T::String, T::String) => Some(T::String),
        (T::Bytes(x), T::Bytes(y)) => Some(T::Bytes(wider(x, y))),
        _ => None,
    }
}

/// How a type is written in a finding: its kind, and its width in
/// parentheses where it has one.
pub open spec fn type_text(t: T) -> Seq<char> {
    match t {
        T::Integer(bits) => "Integer("@ + decimal_text(bits as nat) + ")"@,
        T::String => "String"@,
        T::Bytes(len) => "Bytes("@ + decimal_text(len as nat) + ")"@,
    }
}

impl T {
    /// Writes the type as a finding names it.
    pub fn describe(&self) -> (s: String)
        ensures
            s@ == type_text(*self),
    {
        match self {
            T::Integer(bits) => {
                let mut s = "Integer(".to_string();
                s.append(decimal_string(*bits).as_str());
                s.append(")");
                s
            },
            T::String => "String".to_string(),
            T::Bytes(len) => {
                let mut s = "Bytes(".to_string();
                s.append(decimal_string(*len).as_str());
                s.append(")");
                s
            },
        }
    }

    /// Whether both types are integers, both byte strings or both text.
    pub open spec fn same_kind(self, other: T) -> bool {
        match (self, other) {
            (T::Integer(_), T::Integer(_)) => true,
            (T::String, T::String) => true,
            (T::Bytes(_), T::Bytes(_)) => true,
            _ => false,
        }
    }

    /// The bit width or byte length, and zero for text.
    pub open spec fn width(self) -> usize {
        match self {
            T::Integer(w) => w,
            T::String => 0,
            T::Bytes(w) => w,
        }
    }

    /// Merges two observations of one field.
    pub fn unify(&self, other: &Self) -> (r: Result<T, String>)
        ensures
            r is Ok <==> self.same_kind(*other),
            r is Ok ==> unified(*self, *other) == Some(r->Ok_0),
            r is Err ==> unified(*self, *other) is None && r->Err_0@ == "cannot unify"@,
    {
        match (self, other) {
            (T::Integer(b1), T::Integer(b2)) => Ok(T::Integer(if *b1 >= *b2 { *b1 } else { *b2 })),
            (T::String, T::String) => Ok(T::String),
            (T::Bytes(b1), T::Bytes(b2)) => Ok(T::Bytes(if *b1 >= *b2 { *b1 } else { *b2 })),
            _ => Err("cannot unify".to_string()),
        }
    }
}

/// The common type of `t` with what was unified before, where that
/// succeeded.
pub open spec fn unified_with(so_far: Option<T>, t: T) -> Option<T> {
    match so_far {
        Some(u) => unified(u, t),
        None => None,
    }
}

/// The common type of the first `n` of the observations `ts`, folded in
/// order. There is none where `n` is zero or two of them differ in kind.
pub open spec fn unified_all(ts: Seq<T>, n: nat) -> Option<T>
    decreases n,
{
    if n == 0 {
        None
    } else if n == 1 {
        Some(ts[0])
    } else {
        unified_with(unified_all(ts, (n - 1) as nat), ts[n - 1])
    }
}

/// Unification does not depend on the order of its two arguments.
pub proof fn lemma_unify_commutative(a: T, b: T)
    ensures
        unified(a, b) == unified(b, a),
{
}

/// Unification does not depend on how three observations are grouped.
pub proof fn lemma_unify_associative(a: T, b: T, c: T)
    ensures
        unified_with(unified(a, b), c) == match unified(b, c) {
            Some(bc) => unified(a, bc),
            None => None,
        },
{
}

/// An integer unifies with integers only, bytes with bytes only and text
/// with text only; the result is of the same kind and as wide as the wider
/// of the two, so it is one of the two.
pub proof fn lemma_unify_keeps_kind(a: T, b: T)
    ensures
        unified(a, b) is Some <==> a.same_kind(b),
        a is Integer && !(b is Integer) ==> unified(a, b) is None,
        unified(a, b) matches Some(t) ==> t.same_kind(a) && t.width() == wider(
            a.width(),
            b.width(),
        ) && (t == a || t == b),
{
}

/// Observations of one kind unify, whatever their order, to the widest of
/// them: the result is one of the observations, and none is wider.
pub proof fn lemma_unified_all_widest(ts: Seq<T>, n: nat)
    requires
        0 < n <= ts.len(),
        forall|i: int| 0 <= i < n ==> (#[trigger] ts[i]).same_kind(ts[0]),
    ensures
        unified_all(ts, n) matches Some(t) && t.same_kind(ts[0]) && (forall|i: int|
            0 <= i < n ==> (#[trigger] ts[i]).width() <= t.width()) && (exists|i: int|
            0 <= i < n && #[trigger] ts[i] == t),
    decreases n,
{
    if n > 1 {
        lemma_unified_all_widest(ts, (n - 1) as nat);
        let before = unified_all(ts, (n - 1) as nat)->0;
        let after = unified_all(ts, n)->0;
        let at = choose|i: int| 0 <= i < n - 1 && #[trigger] ts[i] == before;
        assert(ts[n - 1].same_kind(ts[0]));
        if after == before {
            assert(ts[at] == after);
        } else {
            assert(ts[n - 1] == after);
        }
    } else {
        assert(ts[0] == unified_all(ts, n)->0);
    }
}

/// Two lists that hold the same observations of one kind, in any order
/// and any number of times, unify to the same type.
pub proof fn lemma_unified_all_any_order(ts: Seq<T>, us: Seq<T>)
    requires
        ts.len() > 0,
        us.len() > 0,
        forall|i: int| 0 <= i < ts.len() ==> (#[trigger] ts[i]).same_kind(ts[0]),
        forall|i: int| 0 <= i < ts.len() ==> us.contains(#[trigger] ts[i]),
        forall|i: int| 0 <= i < us.len() ==> ts.contains(#[trigger] us[i]),
    ensures
        unified_all(ts, ts.len()) is Some,
        unified_all(ts, ts.len()) == unified_all(us, us.len()),
{
    assert forall|i: int| 0 <= i < us.len() implies (#[trigger] us[i]).same_kind(us[0]) by {
        assert(ts.contains(us[i]));
        assert(ts.contains(us[0]));
    }
    lemma_unified_all_widest(ts, ts.len());
    lemma_unified_all_widest(us, us.len());
    let t = unified_all(ts, ts.len())->0;
    let u = unified_all(us, us.len())->0;
    let i = choose|i: int| 0 <= i < ts.len() && #[trigger] ts[i] == t;
    let j = choose|j: int| 0 <= j < us.len() && #[trigger] us[j] == u;
    assert(us.contains(ts[i]));
    assert(ts.contains(us[j]));
    assert(t.width() <= u.width());
    assert(u.width() <= t.width());
}

} // verus!
