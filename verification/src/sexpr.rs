//! Symbolic expressions, their copies and their equality.
use crate::float::{float_eq, floats_equal, is_nan};
use vstd::prelude::*;

verus! {

/// A symbolic expression: the one tree type for code and data.
///
/// A float is held as the bits of an IEEE 754 double.
#[derive(Debug, PartialEq)]
pub enum Sexpr {
    Integer(i64),
    Float(u64),
    String(String),
    Symbol(String),
    List(Vec<Sexpr>),
    Lambda(String, Vec<Sexpr>),
    T,
    Nil,
}

/// The mathematical value of an [`Sexpr`]: strings are sequences of
/// characters and lists are sequences of forms.
pub enum Form {
    Integer(i64),
    Float(u64),
    String(Seq<char>),
    Symbol(Seq<char>),
    List(Seq<Form>),
    Lambda(Seq<char>, Seq<Form>),
    T,
    Nil,
}

/// The forms of a sequence of expressions, one for one.
pub open spec fn views(l: Seq<Sexpr>) -> Seq<Form>
    decreases l,
{
    Seq::new(
        l.len(),
        |i: int|
            if 0 <= i < l.len() {
                l[i].view()
            } else {
                Form::Nil
            },
    )
}

impl View for Sexpr {
    type V = Form;

    open spec fn view(&self) -> Form
        decreases self,
    {
        match self {
            Sexpr::Integer(i) => Form::Integer(*i),
            Sexpr::Float(b) => Form::Float(*b),
            Sexpr::String(s) => Form::String(s@),
            Sexpr::Symbol(s) => Form::Symbol(s@),
            Sexpr::List(l) => Form::List(views(l@)),
            Sexpr::Lambda(n, b) => Form::Lambda(n@, views(b@)),
            Sexpr::T => Form::T,
            Sexpr::Nil => Form::Nil,
        }
    }
}

/// An association list as a sequence of names and forms; the binding made
/// last stands last.
pub open spec fn bindings(alist: Seq<(String, Sexpr)>) -> Seq<(Seq<char>, Form)> {
    Seq::new(alist.len(), |i: int| (alist[i].0@, alist[i].1@))
}

/// Copies a list of expressions, element by element.
pub fn clone_list(l: &Vec<Sexpr>) -> (r: Vec<Sexpr>)
    ensures
        views(r@) == views(l@),
    decreases l,
{
    let mut out: Vec<Sexpr> = Vec::new();
    let mut i: usize = 0;
    while i < l.len()
        invariant
            i <= l.len(),
            out.len() == i,
            forall|k: int| 0 <= k < i ==> out[k]@ == l[k]@,
        decreases l.len() - i,
    {
        out.push(l[i].clone());
        i += 1;
    }
    assert(views(out@) =~= views(l@));
    out
}

impl Clone for Sexpr {
    /// A deep copy: no part of the result is shared with `self`.
    fn clone(&self) -> (r: Sexpr)
        ensures
            r@ == self@,
        decreases self,
    {
        match self {
            Sexpr::Integer(i) => Sexpr::Integer(*i),
            Sexpr::Float(b) => Sexpr::Float(*b),
            Sexpr::String(s) => Sexpr::String(s.clone()),
            Sexpr::Symbol(s) => Sexpr::Symbol(s.clone()),
            Sexpr::List(l) => Sexpr::List(clone_list(l)),
            Sexpr::Lambda(n, b) => Sexpr::Lambda(n.clone(), clone_list(b)),
            Sexpr::T => Sexpr::T,
            Sexpr::Nil => Sexpr::Nil,
        }
    }
}

/// Copies an association list, binding by binding.
pub fn clone_alist(alist: &Vec<(String, Sexpr)>) -> (r: Vec<(String, Sexpr)>)
    ensures
        bindings(r@) == bindings(alist@),
{
    let mut out: Vec<(String, Sexpr)> = Vec::new();
    let mut i: usize = 0;
    while i < alist.len()
        invariant
            i <= alist.len(),
            out.len() == i,
            forall|k: int| 0 <= k < i ==> out[k].0@ == alist[k].0@ && out[k].1@ == alist[k].1@,
        decreases alist.len() - i,
    {
        out.push((alist[i].0.clone(), alist[i].1.clone()));
        i += 1;
    }
    assert(bindings(out@) =~= bindings(alist@));
    out
}

/// Structural equality of two forms.
///
/// Two lists are equal when they have the same length and equal elements at
/// every place. The empty list and `Nil` are equal. Floats compare as
/// IEEE 754 doubles do. Everything else is equal only to its own kind with
/// the same content.
pub open spec fn forms_equal(a: Form, b: Form) -> bool
    decreases a,
{
    match (a, b) {
        (Form::List(x), Form::List(y)) => lists_equal(x, y),
        (Form::List(x), Form::Nil) => x.len() == 0,
        (Form::Nil, Form::List(y)) => y.len() == 0,
        (Form::Integer(i), Form::Integer(j)) => i == j,
        (Form::Float(x), Form::Float(y)) => float_eq(x, y),
        (Form::String(s), Form::String(t)) => s == t,
        (Form::Symbol(s), Form::Symbol(t)) => s == t,
        (Form::Lambda(n, x), Form::Lambda(m, y)) => n == m && lists_equal(x, y),
        (Form::T, Form::T) => true,
        (Form::Nil, Form::Nil) => true,
        _ => false,
    }
}

/// Element-wise equality of two sequences of forms of the same length.
pub open spec fn lists_equal(x: Seq<Form>, y: Seq<Form>) -> bool
    decreases x,
{
    x.len() == y.len() && forall|i: int| 0 <= i < x.len() ==> forms_equal(#[trigger] x[i], y[i])
}

/// Whether two lists have the same length and structurally equal elements.
pub fn equal_sexpr_lists(l: &Vec<Sexpr>, r: &Vec<Sexpr>) -> (same: bool)
    ensures
        same == lists_equal(views(l@), views(r@)),
    decreases l,
{
    if l.len() != r.len() {
        return false;
    }
    let mut i: usize = 0;
    while i < l.len()
        invariant
            i <= l.len(),
            l.len() == r.len(),
            forall|k: int| 0 <= k < i ==> forms_equal(#[trigger] views(l@)[k], views(r@)[k]),
        decreases l.len() - i,
    {
        if !equal_sexprs(&l[i], &r[i]) {
            assert(!forms_equal(views(l@)[i as int], views(r@)[i as int]));
            return false;
        }
        i += 1;
    }
    true
}

/// Whether two expressions are structurally equal.
pub fn equal_sexprs(l: &Sexpr, r: &Sexpr) -> (same: bool)
    ensures
        same == forms_equal(l@, r@),
    decreases l,
{
    match (l, r) {
        (Sexpr::List(a), Sexpr::List(b)) => equal_sexpr_lists(a, b),
        (Sexpr::List(a), Sexpr::Nil) => {
            assert(views(a@).len() == a.len());
            a.len() == 0
        },
        (Sexpr::Nil, Sexpr::List(b)) => {
            assert(views(b@).len() == b.len());
            b.len() == 0
        },
        (Sexpr::Integer(i), Sexpr::Integer(j)) => *i == *j,
        (Sexpr::Float(x), Sexpr::Float(y)) => floats_equal(*x, *y),
        (Sexpr::String(s), Sexpr::String(t)) => *s == *t,
        (Sexpr::Symbol(s), Sexpr::Symbol(t)) => *s == *t,
        (Sexpr::Lambda(n, x), Sexpr::Lambda(m, y)) => {
            let names = *n == *m;
            let bodies = equal_sexpr_lists(x, y);
            names && bodies
        },
        (Sexpr::T, Sexpr::T) => true,
        (Sexpr::Nil, Sexpr::Nil) => true,
        _ => false,
    }
}

/// Whether no float anywhere in the form is a NaN.
pub open spec fn nan_free(a: Form) -> bool
    decreases a,
{
    match a {
        Form::Float(x) => !is_nan(x),
        Form::List(x) => forall|i: int| 0 <= i < x.len() ==> nan_free(#[trigger] x[i]),
        Form::Lambda(_, x) => forall|i: int| 0 <= i < x.len() ==> nan_free(#[trigger] x[i]),
        _ => true,
    }
}

/// Every form without a NaN in it equals itself.
pub proof fn lemma_equal_reflexive(a: Form)
    requires
        nan_free(a),
    ensures
        forms_equal(a, a),
    decreases a,
{
    match a {
        Form::List(x) => {
            assert forall|i: int| 0 <= i < x.len() implies forms_equal(#[trigger] x[i], x[i]) by {
                lemma_equal_reflexive(x[i]);
            }
        },
        Form::Lambda(_, x) => {
            assert forall|i: int| 0 <= i < x.len() implies forms_equal(#[trigger] x[i], x[i]) by {
                lemma_equal_reflexive(x[i]);
            }
        },
        _ => {},
    }
}

/// Structural equality does not depend on the order of its arguments.
pub proof fn lemma_equal_symmetric(a: Form, b: Form)
    ensures
        forms_equal(a, b) == forms_equal(b, a),
    decreases a,
{
    match (a, b) {
        (Form::List(x), Form::List(y)) => {
            lemma_lists_equal_symmetric(x, y);
        },
        (Form::Lambda(_, x), Form::Lambda(_, y)) => {
            lemma_lists_equal_symmetric(x, y);
        },
        _ => {},
    }
}

/// Element-wise equality does not depend on the order of its arguments.
pub proof fn lemma_lists_equal_symmetric(x: Seq<Form>, y: Seq<Form>)
    ensures
        lists_equal(x, y) == lists_equal(y, x),
    decreases x,
{
    if x.len() == y.len() {
        assert forall|i: int| 0 <= i < x.len() implies forms_equal(x[i], y[i]) == forms_equal(
            y[i],
            x[i],
        ) by {
            lemma_equal_symmetric(x[i], y[i]);
        }
    }
}

/// Two lists that differ at one place are not equal.
pub proof fn lemma_element_differs(x: Seq<Form>, y: Seq<Form>, i: int)
    requires
        0 <= i < x.len(),
        i < y.len(),
        !forms_equal(x[i], y[i]),
    ensures
        !forms_equal(Form::List(x), Form::List(y)),
{
}

/// Two lists of different lengths are never equal, whatever they hold.
pub proof fn lemma_lengths_differ(x: Seq<Form>, y: Seq<Form>)
    requires
        x.len() != y.len(),
    ensures
        !forms_equal(Form::List(x), Form::List(y)),
{
}

} // verus!
