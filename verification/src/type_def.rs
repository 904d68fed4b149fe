//! Static type descriptors: which kinds of value an expression may yield,
//! and whether resolving it may fault.

use vstd::prelude::*;

verus! {

/// A conservative description of an expression's result: the set of kinds
/// it may have, one flag per kind, and whether resolution may fault.
#[derive(Debug, Clone, Copy, PartialEq, Eq, Structural)]
pub struct TypeDef {
    pub bytes: bool,
    pub integer: bool,
    pub boolean: bool,
    pub null: bool,
    pub fallible: bool,
}

impl TypeDef {
    /// The union of two descriptors: a kind is possible if it is possible in
    /// either, and a fault is possible if it is possible in either.
    pub open spec fn union(self, other: TypeDef) -> TypeDef {
        TypeDef {
            bytes: self.bytes || other.bytes,
            integer: self.integer || other.integer,
            boolean: self.boolean || other.boolean,
            null: self.null || other.null,
            fallible: self.fallible || other.fallible,
        }
    }

    /// The descriptor with no possible kind, infallible.
    pub fn never() -> (t: TypeDef)
        ensures
            t == (TypeDef { bytes: false, integer: false, boolean: false, null: false, fallible: false }),
    {
        TypeDef { bytes: false, integer: false, boolean: false, null: false, fallible: false }
    }

    /// Exactly null, infallible.
    pub fn null() -> (t: TypeDef)
        ensures
            t == (TypeDef { bytes: false, integer: false, boolean: false, null: true, fallible: false }),
    {
        TypeDef { bytes: false, integer: false, boolean: false, null: true, fallible: false }
    }

    /// Exactly a boolean, infallible.
    pub fn boolean() -> (t: TypeDef)
        ensures
            t == (TypeDef { bytes: false, integer: false, boolean: true, null: false, fallible: false }),
    {
        TypeDef { bytes: false, integer: false, boolean: true, null: false, fallible: false }
    }

    /// Exactly an integer, infallible.
    pub fn integer() -> (t: TypeDef)
        ensures
            t == (TypeDef { bytes: false, integer: true, boolean: false, null: false, fallible: false }),
    {
        TypeDef { bytes: false, integer: true, boolean: false, null: false, fallible: false }
    }

    /// Exactly a string of bytes, infallible.
    pub fn bytes() -> (t: TypeDef)
        ensures
            t == (TypeDef { bytes: true, integer: false, boolean: false, null: false, fallible: false }),
    {
        TypeDef { bytes: true, integer: false, boolean: false, null: false, fallible: false }
    }

    /// The same kinds, marked as unable to fault.
    pub fn infallible(self) -> (t: TypeDef)
        ensures
            t == (TypeDef { fallible: false, ..self }),
    {
        TypeDef { fallible: false, ..self }
    }

    /// The same kinds, marked as able to fault.
    pub fn fallible(self) -> (t: TypeDef)
        ensures
            t == (TypeDef { fallible: true, ..self }),
    {
        TypeDef { fallible: true, ..self }
    }

    /// Adds the possibility of null and changes nothing else.
    pub fn add_null(self) -> (t: TypeDef)
        ensures
            t == (TypeDef { null: true, ..self }),
            t == self.union(TypeDef { bytes: false, integer: false, boolean: false, null: true, fallible: false }),
    {
        TypeDef { null: true, ..self }
    }

    /// Merges two descriptors into their union.
    pub fn merge_deep(self, other: TypeDef) -> (t: TypeDef)
        ensures
            t == self.union(other),
    {
        TypeDef {
            bytes: self.bytes || other.bytes,
            integer: self.integer || other.integer,
            boolean: self.boolean || other.boolean,
            null: self.null || other.null,
            fallible: self.fallible || other.fallible,
        }
    }
}

/// Merging is commutative.
pub proof fn lemma_union_commutative(a: TypeDef, b: TypeDef)
    ensures
        a.union(b) == b.union(a),
{
}

/// Merging is associative.
pub proof fn lemma_union_associative(a: TypeDef, b: TypeDef, c: TypeDef)
    ensures
        a.union(b).union(c) == a.union(b.union(c)),
{
}

/// Merging a descriptor with itself changes nothing.
pub proof fn lemma_union_idempotent(a: TypeDef)
    ensures
        a.union(a) == a,
{
}

} // verus!
