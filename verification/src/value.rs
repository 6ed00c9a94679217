//! Tagged values and structural kinds for the type-erased named table.
//!
//! The named global table stores implementations of mutually unrelated
//! signatures in one structure. Arguments and results cross it as tagged
//! [`Value`]s, and every stored implementation carries the [`Kind`]s it was
//! declared with; a lookup matches the caller's kinds against the declared
//! ones exactly, with no coercion.

use vstd::prelude::*;

verus! {

/// The structural type identity of one value: the runtime tag that stands in
/// for a concrete type when implementations are stored type-erased.
#[derive(Clone, Copy, Debug, PartialEq, Eq, Structural)]
pub enum Kind {
    Unit,
    Bool,
    Int,
    Str,
}

/// A value crossing the type-erased named table. [`dup_value`] is its
/// verified duplication.
#[derive(Debug, PartialEq, Eq)]
pub enum Value {
    Unit,
    Bool(bool),
    Int(i64),
    Str(String),
}

/// The kind of a value.
pub open spec fn kind_of(v: Value) -> Kind {
    match v {
        Value::Unit => Kind::Unit,
        Value::Bool(_) => Kind::Bool,
        Value::Int(_) => Kind::Int,
        Value::Str(_) => Kind::Str,
    }
}

/// The kinds of a sequence of values, position by position.
pub open spec fn kinds_of(s: Seq<Value>) -> Seq<Kind> {
    Seq::new(s.len(), |i: int| kind_of(s[i]))
}

/// Computes the kind of one value.
pub fn value_kind(v: &Value) -> (k: Kind)
    ensures
        k == kind_of(*v),
{
    match v {
        Value::Unit => Kind::Unit,
        Value::Bool(_) => Kind::Bool,
        Value::Int(_) => Kind::Int,
        Value::Str(_) => Kind::Str,
    }
}

/// Computes the kind of each value of an argument tuple.
pub fn value_kinds(vs: &Vec<Value>) -> (ks: Vec<Kind>)
    ensures
        ks@ == kinds_of(vs@),
{
    let mut ks: Vec<Kind> = Vec::new();
    let mut i: usize = 0;
    while i < vs.len()
        invariant
            i <= vs.len(),
            ks@.len() == i,
            forall|j: int| 0 <= j < i ==> #[trigger] ks@[j] == kind_of(vs@[j]),
        decreases vs.len() - i,
    {
        ks.push(value_kind(&vs[i]));
        i = i + 1;
    }
    assert(ks@ =~= kinds_of(vs@));
    ks
}

/// Duplicates one value. Dispatch hands the same argument tuple to every
/// implementation in a sequence, so the tuple is copied for each call rather
/// than consumed.
pub fn dup_value(v: &Value) -> (r: Value)
    ensures
        r == *v,
{
    match v {
        Value::Unit => Value::Unit,
        Value::Bool(b) => Value::Bool(*b),
        Value::Int(i) => Value::Int(*i),
        Value::Str(s) => Value::Str(s.clone()),
    }
}

/// Duplicates an argument tuple, value by value.
pub fn dup_values(vs: &Vec<Value>) -> (r: Vec<Value>)
    ensures
        r@ == vs@,
{
    let mut r: Vec<Value> = Vec::new();
    let mut i: usize = 0;
    while i < vs.len()
        invariant
            i <= vs.len(),
            r@.len() == i,
            forall|j: int| 0 <= j < i ==> #[trigger] r@[j] == vs@[j],
        decreases vs.len() - i,
    {
        r.push(dup_value(&vs[i]));
        i = i + 1;
    }
    assert(r@ =~= vs@);
    r
}

/// Duplicates a kind list.
pub fn dup_kinds(ks: &Vec<Kind>) -> (r: Vec<Kind>)
    ensures
        r@ == ks@,
{
    let mut r: Vec<Kind> = Vec::new();
    let mut i: usize = 0;
    while i < ks.len()
        invariant
            i <= ks.len(),
            r@.len() == i,
            forall|j: int| 0 <= j < i ==> #[trigger] r@[j] == ks@[j],
        decreases ks.len() - i,
    {
        r.push(ks[i]);
        i = i + 1;
    }
    assert(r@ =~= ks@);
    r
}

/// Compares two kind lists for exact, position-by-position equality.
pub fn kinds_eq(a: &Vec<Kind>, b: &Vec<Kind>) -> (r: bool)
    ensures
        r == (a@ == b@),
{
    if a.len() != b.len() {
        assert(a@ != b@) by {
            assert(a@.len() != b@.len());
        }
        return false;
    }
    let mut i: usize = 0;
    while i < a.len()
        invariant
            i <= a.len(),
            a@.len() == b@.len(),
            forall|j: int| 0 <= j < i ==> #[trigger] a@[j] == b@[j],
        decreases a.len() - i,
    {
        if a[i] != b[i] {
            assert(a@ != b@) by {
                assert(a@[i as int] != b@[i as int]);
            }
            return false;
        }
        i = i + 1;
    }
    assert(a@ =~= b@);
    true
}

} // verus!
