//! The value model: scalars, collections, and their mathematical views.

use std::collections::VecDeque;
use vstd::prelude::*;

verus! {

/// An immutable scalar value.
///
/// `Flt` keeps a decimal number as its original text, so that rendering
/// reproduces the user's input exactly; its equality is therefore textual.
#[derive(Debug, Clone, PartialEq, Eq, Hash)]
pub enum Primitive {
    Okay,
    Nil,
    Int(i64),
    Flt(String),
    Str(String),
}

/// The mathematical view of a [`Primitive`].
pub enum PrimModel {
    Okay,
    Nil,
    Int(int),
    Flt(Seq<char>),
    Str(Seq<char>),
}

impl View for Primitive {
    type V = PrimModel;

    open spec fn view(&self) -> PrimModel {
        match self {
            Primitive::Okay => PrimModel::Okay,
            Primitive::Nil => PrimModel::Nil,
            Primitive::Int(i) => PrimModel::Int(*i as int),
            Primitive::Flt(f) => PrimModel::Flt(f@),
            Primitive::Str(s) => PrimModel::Str(s@),
        }
    }
}

/// A mutable collection of scalars held under one key.
///
/// `List` is an ordered double-ended sequence; `UnorderedSet` holds
/// unique scalars, membership-tested by structural equality.  The set is
/// kept as a vector of pairwise-distinct elements in insertion order.
#[derive(Debug, Clone, PartialEq)]
pub enum Container {
    List(VecDeque<Primitive>),
    UnorderedSet(Vec<Primitive>),
}

/// The union stored under a key: the stored variant is the key's type.
#[derive(Debug, Clone, PartialEq)]
pub enum Value {
    Primitive(Primitive),
    Container(Container),
}

/// The mathematical view of a [`Value`].
///
/// Both collection kinds are viewed as sequences of scalar models; a
/// set's sequence carries its elements in insertion order and, for a
/// well-formed value, holds no duplicates.
pub enum ValModel {
    Prim(PrimModel),
    List(Seq<PrimModel>),
    USet(Seq<PrimModel>),
}

impl View for Container {
    type V = ValModel;

    open spec fn view(&self) -> ValModel {
        match self {
            Container::List(l) => ValModel::List(seq_model(l@)),
            Container::UnorderedSet(s) => ValModel::USet(seq_model(s@)),
        }
    }
}

impl View for Value {
    type V = ValModel;

    open spec fn view(&self) -> ValModel {
        match self {
            Value::Primitive(p) => ValModel::Prim(p@),
            Value::Container(c) => c@,
        }
    }
}

/// The models of a sequence of scalars, element by element.
pub open spec fn seq_model(s: Seq<Primitive>) -> Seq<PrimModel> {
    s.map_values(|p: Primitive| p@)
}

/// The views of a sequence of keys, element by element.
pub open spec fn keys_model(s: Seq<String>) -> Seq<Seq<char>> {
    s.map_values(|k: String| k@)
}

/// Whether a sequence holds pairwise-distinct elements.
pub open spec fn distinct_elems(s: Seq<PrimModel>) -> bool {
    forall|i: int, j: int| 0 <= i < j < s.len() ==> s[i] != s[j]
}

/// A well-formed value: a set holds no duplicate elements.
pub open spec fn value_wf(v: ValModel) -> bool {
    match v {
        ValModel::USet(s) => distinct_elems(s),
        _ => true,
    }
}

/// The kind of a stored value, for reporting type mismatches.
#[derive(Debug, Clone, Copy, PartialEq, Eq)]
pub enum Kind {
    Scalar,
    List,
    UnorderedSet,
}

/// The kind of a value model.
pub open spec fn kind_of(v: ValModel) -> Kind {
    match v {
        ValModel::Prim(_) => Kind::Scalar,
        ValModel::List(_) => Kind::List,
        ValModel::USet(_) => Kind::UnorderedSet,
    }
}

/// Reports the kind of a value.
pub fn value_kind(v: &Value) -> (k: Kind)
    ensures
        k == kind_of(v@),
{
    match v {
        Value::Primitive(_) => Kind::Scalar,
        Value::Container(Container::List(_)) => Kind::List,
        Value::Container(Container::UnorderedSet(_)) => Kind::UnorderedSet,
    }
}

/// Decides structural equality of two scalars.
pub fn prim_eq(a: &Primitive, b: &Primitive) -> (r: bool)
    ensures
        r == (a@ == b@),
{
    match (a, b) {
        (Primitive::Okay, Primitive::Okay) => true,
        (Primitive::Nil, Primitive::Nil) => true,
        (Primitive::Int(x), Primitive::Int(y)) => x == y,
        (Primitive::Flt(x), Primitive::Flt(y)) => *x == *y,
        (Primitive::Str(x), Primitive::Str(y)) => *x == *y,
        _ => false,
    }
}

/// [`seq_model`] maps over a front extension.
pub proof fn lemma_seq_model_cons(p: Primitive, s: Seq<Primitive>)
    ensures
        seq_model(seq![p] + s) == seq![p@] + seq_model(s),
{
    assert(seq_model(seq![p] + s) =~= seq![p@] + seq_model(s));
}

/// [`seq_model`] maps over a back extension.
pub proof fn lemma_seq_model_push(s: Seq<Primitive>, p: Primitive)
    ensures
        seq_model(s.push(p)) == seq_model(s).push(p@),
{
    assert(seq_model(s.push(p)) =~= seq_model(s).push(p@));
}

/// [`seq_model`] maps over a subrange.
pub proof fn lemma_seq_model_subrange(s: Seq<Primitive>, a: int, b: int)
    requires
        0 <= a <= b <= s.len(),
    ensures
        seq_model(s.subrange(a, b)) == seq_model(s).subrange(a, b),
{
    assert(seq_model(s.subrange(a, b)) =~= seq_model(s).subrange(a, b));
}

/// [`seq_model`] maps over a removal.
pub proof fn lemma_seq_model_remove(s: Seq<Primitive>, i: int)
    requires
        0 <= i < s.len(),
    ensures
        seq_model(s.remove(i)) == seq_model(s).remove(i),
{
    assert(seq_model(s.remove(i)) =~= seq_model(s).remove(i));
}

/// Copies a scalar, preserving its model.
pub fn prim_dup(p: &Primitive) -> (r: Primitive)
    ensures
        r@ == p@,
{
    match p {
        Primitive::Okay => Primitive::Okay,
        Primitive::Nil => Primitive::Nil,
        Primitive::Int(i) => Primitive::Int(*i),
        Primitive::Flt(f) => Primitive::Flt(f.clone()),
        Primitive::Str(s) => Primitive::Str(s.clone()),
    }
}

/// Decides membership of a scalar in a vector of scalars.
pub fn vec_contains_prim(s: &Vec<Primitive>, x: &Primitive) -> (r: bool)
    ensures
        r == seq_model(s@).contains(x@),
{
    let mut j: usize = 0;
    while j < s.len()
        invariant
            j <= s.len(),
            forall|t: int| 0 <= t < j ==> seq_model(s@)[t] != x@,
        decreases s.len() - j,
    {
        if prim_eq(&s[j], x) {
            assert(seq_model(s@)[j as int] == x@);
            return true;
        }
        j = j + 1;
    }
    false
}

} // verus!
