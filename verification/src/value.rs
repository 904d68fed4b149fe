//! Runtime values, runtime faults, and their mathematical models.

use vstd::prelude::*;

verus! {

/// What a value is, independent of how it is stored.
pub enum ValueModel {
    Null,
    Boolean(bool),
    Integer(i64),
    Bytes(Seq<char>),
}

/// A runtime value of the language.
#[derive(Debug, PartialEq, Eq)]
pub enum Value {
    Null,
    Boolean(bool),
    Integer(i64),
    Bytes(String),
}

impl View for Value {
    type V = ValueModel;

    open spec fn view(&self) -> ValueModel {
        match self {
            Value::Null => ValueModel::Null,
            Value::Boolean(b) => ValueModel::Boolean(*b),
            Value::Integer(n) => ValueModel::Integer(*n),
            Value::Bytes(s) => ValueModel::Bytes(s@),
        }
    }
}

impl Clone for Value {
    fn clone(&self) -> (r: Value)
        ensures
            r@ == self@,
    {
        match self {
            Value::Null => Value::Null,
            Value::Boolean(b) => Value::Boolean(*b),
            Value::Integer(n) => Value::Integer(*n),
            Value::Bytes(s) => Value::Bytes(s.clone()),
        }
    }
}

/// A fault raised while an expression is resolved, identified by its code.
#[derive(Debug, Clone, Copy, PartialEq, Eq, Structural)]
pub struct Fault {
    pub code: u64,
}

/// The outcome of resolving an expression for one row.
pub type Resolved = Result<Value, Fault>;

/// The model of an outcome.
pub type ResolvedModel = Result<ValueModel, Fault>;

/// The model of an outcome: the value's model, or the fault itself.
pub open spec fn resolved_model(r: Resolved) -> ResolvedModel {
    match r {
        Ok(v) => Ok(v@),
        Err(f) => Err(f),
    }
}

} // verus!
