//! Expression nodes and the four things each of them can do: resolve for one
//! row, resolve for a batch of rows, give its static type, and render itself.

use vstd::prelude::*;
use vstd::string::StringExecFns;
use crate::state::{BatchContext, Bindings, Context, ExternalEnv, LocalEnv, Scope};
use crate::type_def::TypeDef;
use crate::value::{resolved_model, Fault, Resolved, ResolvedModel, Value, ValueModel};

pub mod if_statement;
pub mod levenstein;
pub mod variable;

verus! {

/// A node of the expression tree.
///
/// What a node means is given by four specification functions; the
/// executable methods are held to them.
pub trait Expression: Sized {
    /// What the node resolves to on a row with the variables `vars`.
    spec fn eval(&self, vars: Bindings) -> ResolvedModel;

    /// Whether the node can be resolved on a row with the variables `vars`
    /// without breaking an assumption that the type checker is trusted to
    /// have established (a predicate that does not yield a boolean).
    spec fn well_typed(&self, vars: Bindings) -> bool;

    /// The node's static type in the given environments.
    spec fn static_type(&self, local: Scope, external: ExternalEnv) -> TypeDef;

    /// The node's textual form.
    spec fn rendered(&self) -> Seq<char>;

    /// Resolves the node for the row of `ctx`, which it leaves as it was.
    fn resolve(&self, ctx: &mut Context) -> (r: Resolved)
        requires
            self.well_typed(old(ctx).state@),
        ensures
            resolved_model(r) == self.eval(old(ctx).state@),
            *final(ctx) == *old(ctx),
    ;

    /// Resolves the node for every row named in `selection_vector`, writing
    /// each row's outcome into its slot. Rows that are not named keep their
    /// slot, and no row's variables change. The node may reuse buffers of
    /// its own, but it stays the same program.
    fn resolve_batch(&mut self, ctx: &mut BatchContext, selection_vector: &[usize])
        requires
            old(ctx).wf(),
            forall|i: int| 0 <= i < selection_vector@.len() ==> {
                &&& (#[trigger] selection_vector@[i]) < old(ctx).rows()
                &&& old(self).well_typed(old(ctx).row(selection_vector@[i] as int))
            },
        ensures
            final(ctx).wf(),
            final(ctx).states == old(ctx).states,
            forall|r: usize| r < old(ctx).rows() ==> #[trigger] final(ctx).slot(r as int) == (
                if selection_vector@.contains(r) {
                    old(self).eval(old(ctx).row(r as int))
                } else {
                    old(ctx).slot(r as int)
                }),
            forall|vars: Bindings| #[trigger] final(self).eval(vars) == old(self).eval(vars),
            forall|vars: Bindings| #[trigger] final(self).well_typed(vars) == old(self).well_typed(vars),
            forall|local: Scope, external: ExternalEnv| #[trigger] final(self).static_type(local, external) == old(self).static_type(local, external),
            final(self).rendered() == old(self).rendered(),
    ;

    /// The node's static type.
    fn type_def(&self, state: (&LocalEnv, &ExternalEnv)) -> (t: TypeDef)
        ensures
            t == self.static_type(state.0@, *state.1),
    ;

    /// The node's textual form.
    fn render(&self) -> (s: String)
        ensures
            s@ == self.rendered(),
    ;
}

/// The decimal text of an integer.
pub uninterp spec fn decimal_text(n: i64) -> Seq<char>;

/// The decimal text of `n`, as `i64::to_string` of the standard library
/// writes it. The text is named, not described: it depends on `n` alone.
#[verifier::external_body]
fn integer_text(n: i64) -> (s: String)
    ensures
        s@ == decimal_text(n),
{
    n.to_string()
}

/// The textual form of a value: `null`, `true`, `false`, an integer in
/// decimal, a string between double quotes.
pub open spec fn value_text(v: ValueModel) -> Seq<char> {
    match v {
        ValueModel::Null => "null"@,
        ValueModel::Boolean(b) => if b { "true"@ } else { "false"@ },
        ValueModel::Integer(n) => decimal_text(n),
        ValueModel::Bytes(s) => "\""@ + s + "\""@,
    }
}

/// The static type of a value: exactly its kind, infallible.
pub open spec fn value_type(v: ValueModel) -> TypeDef {
    TypeDef {
        bytes: v is Bytes,
        integer: v is Integer,
        boolean: v is Boolean,
        null: v is Null,
        fallible: false,
    }
}

/// A constant.
#[derive(Debug, Clone, PartialEq, Eq)]
pub struct Literal {
    pub value: Value,
}

impl Literal {
    /// The node that always yields `value`.
    pub fn new(value: Value) -> (node: Literal)
        ensures
            node.value == value,
    {
        Literal { value }
    }
}

impl Expression for Literal {
    open spec fn eval(&self, vars: Bindings) -> ResolvedModel {
        Ok(self.value@)
    }

    open spec fn well_typed(&self, vars: Bindings) -> bool {
        true
    }

    open spec fn static_type(&self, local: Scope, external: ExternalEnv) -> TypeDef {
        value_type(self.value@)
    }

    open spec fn rendered(&self) -> Seq<char> {
        value_text(self.value@)
    }

    fn resolve(&self, ctx: &mut Context) -> (r: Resolved) {
        Ok(self.value.clone())
    }

    fn resolve_batch(&mut self, ctx: &mut BatchContext, selection_vector: &[usize]) {
        let mut i: usize = 0;
        while i < selection_vector.len()
            invariant
                i <= selection_vector@.len(),
                ctx.wf(),
                ctx.states == old(ctx).states,
                *self == *old(self),
                forall|k: int| 0 <= k < selection_vector@.len() ==> (#[trigger] selection_vector@[k]) < old(ctx).rows(),
                forall|r: usize| r < old(ctx).rows() ==> #[trigger] ctx.slot(r as int) == (
                    if selection_vector@.take(i as int).contains(r) {
                        old(self).eval(old(ctx).row(r as int))
                    } else {
                        old(ctx).slot(r as int)
                    }),
            decreases selection_vector@.len() - i,
        {
            let index = selection_vector[i];
            ctx.set_resolved(index, Ok(self.value.clone()));
            i += 1;
            proof {
                lemma_take_next(selection_vector@, i as int);
            }
        }
        assert(selection_vector@.take(i as int) =~= selection_vector@);
    }

    fn type_def(&self, state: (&LocalEnv, &ExternalEnv)) -> (t: TypeDef) {
        match &self.value {
            Value::Null => TypeDef::null(),
            Value::Boolean(_) => TypeDef::boolean(),
            Value::Integer(_) => TypeDef::integer(),
            Value::Bytes(_) => TypeDef::bytes(),
        }
    }

    fn render(&self) -> (s: String) {
        match &self.value {
            Value::Null => String::from_str("null"),
            Value::Boolean(b) => if *b {
                String::from_str("true")
            } else {
                String::from_str("false")
            },
            Value::Integer(n) => integer_text(*n),
            Value::Bytes(text) => {
                let mut s = String::from_str("\"");
                s.append(text.as_str());
                s.append("\"");
                s
            },
        }
    }
}

/// The node that faults on every row.
#[derive(Debug, Clone, Copy, PartialEq, Eq, Structural)]
pub struct Abort {
    pub fault: Fault,
}

impl Abort {
    /// The node that always faults with `fault`.
    pub fn new(fault: Fault) -> (node: Abort)
        ensures
            node.fault == fault,
    {
        Abort { fault }
    }
}

impl Expression for Abort {
    open spec fn eval(&self, vars: Bindings) -> ResolvedModel {
        Err(self.fault)
    }

    open spec fn well_typed(&self, vars: Bindings) -> bool {
        true
    }

    open spec fn static_type(&self, local: Scope, external: ExternalEnv) -> TypeDef {
        TypeDef { bytes: false, integer: false, boolean: false, null: false, fallible: true }
    }

    open spec fn rendered(&self) -> Seq<char> {
        "abort"@
    }

    fn resolve(&self, ctx: &mut Context) -> (r: Resolved) {
        Err(self.fault)
    }

    fn resolve_batch(&mut self, ctx: &mut BatchContext, selection_vector: &[usize]) {
        let mut i: usize = 0;
        while i < selection_vector.len()
            invariant
                i <= selection_vector@.len(),
                ctx.wf(),
                ctx.states == old(ctx).states,
                *self == *old(self),
                forall|k: int| 0 <= k < selection_vector@.len() ==> (#[trigger] selection_vector@[k]) < old(ctx).rows(),
                forall|r: usize| r < old(ctx).rows() ==> #[trigger] ctx.slot(r as int) == (
                    if selection_vector@.take(i as int).contains(r) {
                        old(self).eval(old(ctx).row(r as int))
                    } else {
                        old(ctx).slot(r as int)
                    }),
            decreases selection_vector@.len() - i,
        {
            let index = selection_vector[i];
            ctx.set_resolved(index, Err(self.fault));
            i += 1;
            proof {
                lemma_take_next(selection_vector@, i as int);
            }
        }
        assert(selection_vector@.take(i as int) =~= selection_vector@);
    }

    fn type_def(&self, state: (&LocalEnv, &ExternalEnv)) -> (t: TypeDef) {
        TypeDef::never().fallible()
    }

    fn render(&self) -> (s: String) {
        String::from_str("abort")
    }
}

/// A prefix one longer holds what the shorter prefix holds, and the element
/// that was added.
pub proof fn lemma_take_next(s: Seq<usize>, n: int)
    requires
        0 < n <= s.len(),
    ensures
        forall|r: usize| #[trigger] s.take(n).contains(r) == (s.take(n - 1).contains(r) || r == s[n - 1]),
{
    let before = s.take(n - 1);
    let after = s.take(n);
    assert forall|r: usize| #[trigger] after.contains(r) == (before.contains(r) || r == s[n - 1]) by {
        if before.contains(r) {
            let k = choose|k: int| 0 <= k < before.len() && before[k] == r;
            assert(after[k] == r);
        }
        if r == s[n - 1] {
            assert(after[n - 1] == r);
        }
        if after.contains(r) {
            let k = choose|k: int| 0 <= k < after.len() && after[k] == r;
            if k < n - 1 {
                assert(before[k] == r);
            }
        }
    }
}

/// Whether `after` is what resolving `node` for the rows of `selection`
/// makes of `before`: the selected rows hold what the node yields on them,
/// and nothing else has changed.
pub open spec fn batch_resolved<E: Expression>(
    node: E,
    before: BatchContext,
    after: BatchContext,
    selection: Seq<usize>,
) -> bool {
    &&& after.wf()
    &&& after.states == before.states
    &&& forall|r: usize| r < before.rows() ==> #[trigger] after.slot(r as int) == (
        if selection.contains(r) {
            node.eval(before.row(r as int))
        } else {
            before.slot(r as int)
        })
}

/// Resolving a row by itself and resolving it as one row of a batch give
/// the same value or the same fault.
pub proof fn lemma_scalar_and_batch_agree<E: Expression>(
    node: E,
    ctx: Context,
    scalar: Resolved,
    before: BatchContext,
    after: BatchContext,
    selection: Seq<usize>,
    row: usize,
)
    requires
        resolved_model(scalar) == node.eval(ctx.state@),
        batch_resolved(node, before, after, selection),
        row < before.rows(),
        selection.contains(row),
        before.row(row as int) == ctx.state@,
    ensures
        after.slot(row as int) == resolved_model(scalar),
{
}

/// What batch resolution leaves in a row's slot depends on that row alone:
/// two batches that agree on a row before agree on it after, whatever the
/// other rows hold and whatever happens to them.
pub proof fn lemma_rows_are_independent<E: Expression>(
    node: E,
    first: BatchContext,
    first_after: BatchContext,
    second: BatchContext,
    second_after: BatchContext,
    selection: Seq<usize>,
    row: usize,
)
    requires
        batch_resolved(node, first, first_after, selection),
        batch_resolved(node, second, second_after, selection),
        row < first.rows(),
        row < second.rows(),
        first.row(row as int) == second.row(row as int),
        first.slot(row as int) == second.slot(row as int),
    ensures
        first_after.slot(row as int) == second_after.slot(row as int),
{
}

} // verus!
