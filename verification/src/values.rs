//! Runtime values and their spec-level mirror.

use vstd::prelude::*;

use crate::ast::{clone_names, clone_stmts, strings_view, stmts_view, Stmt, StmtV};

verus! {

/// A runtime value.
#[derive(Debug)]
pub enum Value {
    /// A text value.
    Str(String),
    /// A first-class function value; it captures no enclosing scope.
    Function { params: Vec<String>, body: Vec<Stmt> },
    /// The null value, also the result of every function call.
    Null,
}

/// Spec-level mirror of [`Value`].
#[verifier::ext_equal]
pub ghost enum ValueV {
    Str(Seq<char>),
    Function { params: Seq<Seq<char>>, body: Seq<StmtV> },
    Null,
}

/// The deep view of a runtime value.
pub open spec fn value_view(v: Value) -> ValueV {
    match v {
        Value::Str(s) => ValueV::Str(s@),
        Value::Function { params, body } => ValueV::Function {
            params: strings_view(params@),
            body: stmts_view(body@),
        },
        Value::Null => ValueV::Null,
    }
}

/// Clones a runtime value, keeping its view.
pub fn clone_value(v: &Value) -> (r: Value)
    ensures
        value_view(r) == value_view(*v),
{
    match v {
        Value::Str(s) => Value::Str(s.clone()),
        Value::Function { params, body } => Value::Function {
            params: clone_names(params),
            body: clone_stmts(body),
        },
        Value::Null => Value::Null,
    }
}

/// The deep view of a value list.
pub open spec fn values_view(vs: Seq<Value>) -> Seq<ValueV>
    decreases vs.len(),
{
    if vs.len() == 0 {
        Seq::empty()
    } else {
        seq![value_view(vs[0])] + values_view(vs.drop_first())
    }
}

/// `values_view` maps the list pointwise.
pub proof fn lemma_values_view(vs: Seq<Value>)
    ensures
        values_view(vs).len() == vs.len(),
        forall|i: int| 0 <= i < vs.len() ==> values_view(vs)[i] == value_view(vs[i]),
    decreases vs.len(),
{
    if vs.len() > 0 {
        lemma_values_view(vs.drop_first());
    }
}

} // verus!
