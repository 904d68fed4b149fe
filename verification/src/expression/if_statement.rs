//! The conditional node: `if <predicate> <consequent>`, optionally followed
//! by `else <alternative>`.

use vstd::prelude::*;
use vstd::string::StringExecFns;
use crate::expression::{lemma_take_next, Expression};
use crate::state::{BatchContext, Bindings, Context, ExternalEnv, LocalEnv, Scope};
use crate::type_def::TypeDef;
use crate::value::{resolved_model, Fault, Resolved, ResolvedModel, Value, ValueModel};

verus! {

/// Whether an outcome is the boolean `b`.
pub open spec fn holds_boolean(outcome: ResolvedModel, b: bool) -> bool {
    outcome == Ok::<ValueModel, Fault>(ValueModel::Boolean(b))
}

/// Whether an outcome is what a predicate may yield: a fault or a boolean.
pub open spec fn fault_or_boolean(outcome: ResolvedModel) -> bool {
    outcome is Err || holds_boolean(outcome, true) || holds_boolean(outcome, false)
}

/// What a conditional yields, given what its parts yield on the same row:
/// the predicate's fault; the consequent's outcome where the predicate is
/// true; else the alternative's outcome, or null where there is none.
pub open spec fn conditional_outcome(
    predicate: ResolvedModel,
    consequent: ResolvedModel,
    alternative: Option<ResolvedModel>,
) -> ResolvedModel {
    match predicate {
        Err(fault) => Err(fault),
        Ok(ValueModel::Boolean(true)) => consequent,
        Ok(_) => match alternative {
            Some(outcome) => outcome,
            None => Ok(ValueModel::Null),
        },
    }
}

/// The static type of a conditional: the union of its branches' types, an
/// absent alternative counting as null.
pub open spec fn conditional_type(consequent: TypeDef, alternative: Option<TypeDef>) -> TypeDef {
    match alternative {
        Some(other) => consequent.union(other),
        None => TypeDef { null: true, ..consequent },
    }
}

/// The two-element exchange of positions `i` and `j`.
pub open spec fn swapped(s: Seq<usize>, i: int, j: int) -> Seq<usize> {
    s.update(i, s[j]).update(j, s[i])
}

/// Exchanging two elements changes nothing in what a sequence holds.
pub proof fn lemma_swapped_holds_the_same(s: Seq<usize>, i: int, j: int)
    requires
        0 <= i < s.len(),
        0 <= j < s.len(),
    ensures
        forall|r: usize| #[trigger] swapped(s, i, j).contains(r) == s.contains(r),
{
    let t = swapped(s, i, j);
    assert forall|r: usize| #[trigger] t.contains(r) == s.contains(r) by {
        if s.contains(r) {
            let k = choose|k: int| 0 <= k < s.len() && s[k] == r;
            if k == i {
                assert(t[j] == r);
            } else if k == j {
                assert(t[i] == r);
            } else {
                assert(t[k] == r);
            }
        }
        if t.contains(r) {
            let k = choose|k: int| 0 <= k < t.len() && t[k] == r;
            if k == i {
                assert(s[j] == r);
            } else if k == j {
                assert(s[i] == r);
            } else {
                assert(s[k] == r);
            }
        }
    }
}

/// Exchanging two elements of a sequence without repetition leaves it
/// without repetition.
pub proof fn lemma_swapped_keeps_distinct(s: Seq<usize>, i: int, j: int)
    requires
        0 <= i < s.len(),
        0 <= j < s.len(),
        s.no_duplicates(),
    ensures
        swapped(s, i, j).no_duplicates(),
{
    let t = swapped(s, i, j);
    assert forall|a: int, b: int| 0 <= a < t.len() && 0 <= b < t.len() && a != b implies t[a] != t[b] by {
        let pa = if a == i { j } else if a == j { i } else { a };
        let pb = if b == i { j } else if b == j { i } else { b };
        assert(t[a] == s[pa]);
        assert(t[b] == s[pb]);
        assert(pa != pb);
    }
}

/// Whether `chosen` and `others` split `selection` by what the slots hold:
/// `chosen` holds the selected rows whose slot is true, `others` those whose
/// slot is false.
pub open spec fn splits(slots: Seq<Resolved>, selection: Seq<usize>, chosen: Seq<usize>, others: Seq<usize>) -> bool {
    &&& forall|r: usize| #[trigger] chosen.contains(r) <==> (selection.contains(r) && holds_boolean(
        resolved_model(slots[r as int]),
        true,
    ))
    &&& forall|r: usize| #[trigger] others.contains(r) <==> (selection.contains(r) && holds_boolean(
        resolved_model(slots[r as int]),
        false,
    ))
}

/// A split sends every selected row to exactly one of three places: the
/// rows of the consequent, the rows of the alternative, or, its slot being
/// a fault, neither; and it sends no row anywhere that was not selected.
pub proof fn lemma_split_is_exhaustive_and_disjoint(
    slots: Seq<Resolved>,
    selection: Seq<usize>,
    chosen: Seq<usize>,
    others: Seq<usize>,
    row: usize,
)
    requires
        splits(slots, selection, chosen, others),
        selection.contains(row) ==> fault_or_boolean(resolved_model(slots[row as int])),
    ensures
        selection.contains(row) ==> (chosen.contains(row) || others.contains(row) || resolved_model(
            slots[row as int],
        ) is Err),
        !(chosen.contains(row) && others.contains(row)),
        !(chosen.contains(row) && resolved_model(slots[row as int]) is Err),
        !(others.contains(row) && resolved_model(slots[row as int]) is Err),
        chosen.contains(row) || others.contains(row) ==> selection.contains(row),
{
}

/// Splits the rows of `selection_vector` by what their slots hold: rows
/// whose slot is the boolean true go to `selected_if`, rows whose slot is the
/// boolean false go to `selected_else`, and rows whose slot is a fault go to
/// neither. What the two buffers held before is discarded.
///
/// Every selected slot must hold a fault or a boolean.
pub fn partition_selection(
    slots: &Vec<Resolved>,
    selection_vector: &[usize],
    selected_if: &mut Vec<usize>,
    selected_else: &mut Vec<usize>,
)
    requires
        forall|i: int| 0 <= i < selection_vector@.len() ==> {
            &&& (#[trigger] selection_vector@[i]) < slots@.len()
            &&& fault_or_boolean(resolved_model(slots@[selection_vector@[i] as int]))
        },
    ensures
        splits(slots@, selection_vector@, final(selected_if)@, final(selected_else)@),
        final(selected_if)@.len() + final(selected_else)@.len() <= selection_vector@.len(),
        selection_vector@.no_duplicates() ==> final(selected_if)@.no_duplicates(),
        selection_vector@.no_duplicates() ==> final(selected_else)@.no_duplicates(),
{
    selected_if.clear();
    let mut c: usize = 0;
    while c < selection_vector.len()
        invariant
            c <= selection_vector@.len(),
            selected_if@ == selection_vector@.take(c as int),
        decreases selection_vector@.len() - c,
    {
        selected_if.push(selection_vector[c]);
        c += 1;
        assert(selected_if@ =~= selection_vector@.take(c as int));
    }
    assert(selected_if@ =~= selection_vector@);

    // Faulted rows move to the tail and leave the live window.
    let n: usize = selected_if.len();
    let mut len: usize = n;
    let mut i: usize = 0;
    while i < len
        invariant
            i <= len <= n,
            n == selected_if@.len(),
            n == selection_vector@.len(),
            forall|r: usize| #[trigger] selected_if@.contains(r) == selection_vector@.contains(r),
            selection_vector@.no_duplicates() ==> selected_if@.no_duplicates(),
            forall|k: int| 0 <= k < n ==> {
                &&& (#[trigger] selected_if@[k]) < slots@.len()
                &&& fault_or_boolean(resolved_model(slots@[selected_if@[k] as int]))
            },
            forall|k: int| 0 <= k < i ==> resolved_model(slots@[(#[trigger] selected_if@[k]) as int]) is Ok,
            forall|k: int| len <= k < n ==> resolved_model(slots@[(#[trigger] selected_if@[k]) as int]) is Err,
        decreases len - i,
    {
        let index = selected_if[i];
        if slots[index].is_err() {
            len -= 1;
            let last = selected_if[len];
            let ghost previous = selected_if@;
            selected_if.set(i, last);
            selected_if.set(len, index);
            proof {
                lemma_swapped_holds_the_same(previous, i as int, len as int);
                assert(selected_if@ =~= swapped(previous, i as int, len as int));
                if previous.no_duplicates() {
                    lemma_swapped_keeps_distinct(previous, i as int, len as int);
                }
            }
        } else {
            i += 1;
        }
    }
    let ghost shuffled = selected_if@;
    selected_if.truncate(len);
    let ghost live = selected_if@;
    assert(shuffled.no_duplicates() ==> live.no_duplicates());
    assert forall|r: usize| #[trigger] live.contains(r) == (selection_vector@.contains(r)
        && resolved_model(slots@[r as int]) is Ok) by {
        if live.contains(r) {
            let k = choose|k: int| 0 <= k < live.len() && live[k] == r;
            assert(shuffled[k] == r);
            assert(shuffled.contains(r));
        }
        if selection_vector@.contains(r) && resolved_model(slots@[r as int]) is Ok {
            assert(shuffled.contains(r));
            let k = choose|k: int| 0 <= k < shuffled.len() && shuffled[k] == r;
            assert(live[k] == r);
        }
    }

    // Rows whose predicate is false move to the tail and to the other buffer.
    selected_else.truncate(0);
    let n: usize = selected_if.len();
    let mut len: usize = n;
    let mut i: usize = 0;
    while i < len
        invariant
            i <= len <= n,
            n == selected_if@.len(),
            n <= selection_vector@.len(),
            selected_else@.len() == n - len,
            forall|r: usize| #[trigger] selected_if@.contains(r) == live.contains(r),
            live.no_duplicates() ==> selected_if@.no_duplicates(),
            forall|e: int| 0 <= e < n - len ==> #[trigger] selected_else@[e] == selected_if@[n - 1 - e],
            forall|k: int| 0 <= k < n ==> {
                &&& (#[trigger] selected_if@[k]) < slots@.len()
                &&& resolved_model(slots@[selected_if@[k] as int]) is Ok
                &&& fault_or_boolean(resolved_model(slots@[selected_if@[k] as int]))
            },
            forall|k: int| 0 <= k < i ==> holds_boolean(resolved_model(slots@[(#[trigger] selected_if@[k]) as int]), true),
            forall|k: int| len <= k < n ==> {
                &&& holds_boolean(resolved_model(slots@[(#[trigger] selected_if@[k]) as int]), false)
                &&& selected_else@.contains(selected_if@[k])
            },
            forall|e: int| 0 <= e < selected_else@.len() ==> {
                &&& holds_boolean(resolved_model(slots@[(#[trigger] selected_else@[e]) as int]), false)
                &&& live.contains(selected_else@[e])
            },
        decreases len - i,
    {
        let index = selected_if[i];
        let predicate = match &slots[index] {
            Ok(Value::Boolean(predicate)) => *predicate,
            _ => vstd::pervasive::unreached(),
        };
        if predicate {
            i += 1;
        } else {
            len -= 1;
            let last = selected_if[len];
            let ghost others = selected_else@;
            let ghost previous = selected_if@;
            selected_if.set(i, last);
            selected_if.set(len, index);
            selected_else.push(index);
            proof {
                lemma_swapped_holds_the_same(previous, i as int, len as int);
                assert(selected_if@ =~= swapped(previous, i as int, len as int));
                assert(previous[i as int] == index);
                assert(previous.contains(index));
                if previous.no_duplicates() {
                    lemma_swapped_keeps_distinct(previous, i as int, len as int);
                }
                assert(selected_else@[others.len() as int] == index);
                assert forall|k: int| len <= k < n implies selected_else@.contains(#[trigger] selected_if@[k]) by {
                    if k > len {
                        let e = choose|e: int| 0 <= e < others.len() && others[e] == selected_if@[k];
                        assert(selected_else@[e] == selected_if@[k]);
                    }
                }
            }
        }
    }
    let ghost sorted = selected_if@;
    selected_if.truncate(len);
    proof {
        let chosen = selected_if@;
        assert(sorted.no_duplicates() ==> chosen.no_duplicates());
        if sorted.no_duplicates() {
            assert forall|a: int, b: int| 0 <= a < selected_else@.len() && 0 <= b < selected_else@.len() && a
                != b implies selected_else@[a] != selected_else@[b] by {
                assert(selected_else@[a] == sorted[n - 1 - a]);
                assert(selected_else@[b] == sorted[n - 1 - b]);
            }
        }
        assert forall|r: usize| #[trigger] chosen.contains(r) <==> (selection_vector@.contains(r)
            && holds_boolean(resolved_model(slots@[r as int]), true)) by {
            if chosen.contains(r) {
                let k = choose|k: int| 0 <= k < chosen.len() && chosen[k] == r;
                assert(sorted[k] == r);
                assert(sorted.contains(r));
            }
            if selection_vector@.contains(r) && holds_boolean(resolved_model(slots@[r as int]), true) {
                assert(live.contains(r));
                assert(sorted.contains(r));
                let k = choose|k: int| 0 <= k < sorted.len() && sorted[k] == r;
                assert(chosen[k] == r);
            }
        }
        assert forall|r: usize| #[trigger] selected_else@.contains(r) <==> (selection_vector@.contains(r)
            && holds_boolean(resolved_model(slots@[r as int]), false)) by {
            if selected_else@.contains(r) {
                let e = choose|e: int| 0 <= e < selected_else@.len() && selected_else@[e] == r;
                assert(live.contains(selected_else@[e]));
            }
            if selection_vector@.contains(r) && holds_boolean(resolved_model(slots@[r as int]), false) {
                assert(live.contains(r));
                assert(sorted.contains(r));
                let k = choose|k: int| 0 <= k < sorted.len() && sorted[k] == r;
                assert(selected_else@.contains(sorted[k]));
            }
        }
    }
}

/// A conditional. The two selection buffers are scratch space for batch
/// resolution: what they hold between calls means nothing.
#[derive(Debug, Clone, PartialEq)]
pub struct IfStatement<P, C, A> {
    pub predicate: P,
    pub consequent: C,
    pub alternative: Option<A>,
    pub selection_vector_if: Vec<usize>,
    pub selection_vector_else: Vec<usize>,
}

impl<P: Expression, C: Expression, A: Expression> IfStatement<P, C, A> {
    /// The conditional made of the given parts, with empty buffers.
    #[must_use]
    pub fn new(predicate: P, consequent: C, alternative: Option<A>) -> (node: Self)
        ensures
            node.predicate == predicate,
            node.consequent == consequent,
            node.alternative == alternative,
            node.selection_vector_if@.len() == 0,
            node.selection_vector_else@.len() == 0,
    {
        IfStatement {
            predicate,
            consequent,
            alternative,
            selection_vector_if: Vec::new(),
            selection_vector_else: Vec::new(),
        }
    }

    /// What the alternative yields on a row, where there is one.
    pub open spec fn alternative_outcome(&self, vars: Bindings) -> Option<ResolvedModel> {
        match self.alternative {
            Some(alternative) => Some(alternative.eval(vars)),
            None => None,
        }
    }

    /// The alternative's static type, where there is one.
    pub open spec fn alternative_type(&self, local: Scope, external: ExternalEnv) -> Option<TypeDef> {
        match self.alternative {
            Some(alternative) => Some(alternative.static_type(local, external)),
            None => None,
        }
    }
}

impl<P: Expression, C: Expression, A: Expression> Expression for IfStatement<P, C, A> {
    open spec fn eval(&self, vars: Bindings) -> ResolvedModel {
        conditional_outcome(
            self.predicate.eval(vars),
            self.consequent.eval(vars),
            self.alternative_outcome(vars),
        )
    }

    /// The predicate yields a fault or a boolean, and the branch that it
    /// selects is well typed in turn.
    open spec fn well_typed(&self, vars: Bindings) -> bool {
        &&& self.predicate.well_typed(vars)
        &&& fault_or_boolean(self.predicate.eval(vars))
        &&& holds_boolean(self.predicate.eval(vars), true) ==> self.consequent.well_typed(vars)
        &&& holds_boolean(self.predicate.eval(vars), false) ==> match self.alternative {
            Some(alternative) => alternative.well_typed(vars),
            None => true,
        }
    }

    open spec fn static_type(&self, local: Scope, external: ExternalEnv) -> TypeDef {
        conditional_type(
            self.consequent.static_type(local, external),
            self.alternative_type(local, external),
        )
    }

    open spec fn rendered(&self) -> Seq<char> {
        "if "@ + self.predicate.rendered() + " "@ + self.consequent.rendered() + match self.alternative {
            Some(alternative) => " else "@ + alternative.rendered(),
            None => Seq::<char>::empty(),
        }
    }

    fn resolve(&self, ctx: &mut Context) -> (r: Resolved) {
        let predicate = match self.predicate.resolve(ctx) {
            Err(fault) => {
                return Err(fault);
            },
            Ok(Value::Boolean(predicate)) => predicate,
            Ok(_) => vstd::pervasive::unreached(),
        };
        if predicate {
            self.consequent.resolve(ctx)
        } else {
            match &self.alternative {
                Some(block) => block.resolve(ctx),
                None => Ok(Value::Null),
            }
        }
    }

    fn resolve_batch(&mut self, ctx: &mut BatchContext, selection_vector: &[usize]) {
        self.predicate.resolve_batch(ctx, selection_vector);
        let ghost decided = *ctx;
        proof {
            assert forall|i: int| 0 <= i < selection_vector@.len() implies fault_or_boolean(
                resolved_model(ctx.resolved_values@[(#[trigger] selection_vector@[i]) as int]),
            ) by {
                let r = selection_vector@[i];
                assert(selection_vector@.contains(r));
                assert(ctx.slot(r as int) == old(self).predicate.eval(old(ctx).row(r as int)));
            }
        }

        partition_selection(
            &ctx.resolved_values,
            selection_vector,
            &mut self.selection_vector_if,
            &mut self.selection_vector_else,
        );
        let ghost chosen = self.selection_vector_if@;
        let ghost others = self.selection_vector_else@;
        proof {
            assert forall|i: int| 0 <= i < chosen.len() implies (#[trigger] chosen[i]) < ctx.rows()
                && self.consequent.well_typed(ctx.row(chosen[i] as int)) by {
                let r = chosen[i];
                assert(chosen.contains(r));
                let j = choose|j: int| 0 <= j < selection_vector@.len() && selection_vector@[j] == r;
                assert(decided.slot(r as int) == old(self).predicate.eval(old(ctx).row(r as int)));
            }
            assert forall|i: int| 0 <= i < others.len() implies (#[trigger] others[i]) < ctx.rows()
                && (match old(self).alternative {
                    Some(alternative) => alternative.well_typed(old(ctx).row(others[i] as int)),
                    None => true,
                }) by {
                let r = others[i];
                assert(others.contains(r));
                let j = choose|j: int| 0 <= j < selection_vector@.len() && selection_vector@[j] == r;
                assert(decided.slot(r as int) == old(self).predicate.eval(old(ctx).row(r as int)));
            }
        }

        self.consequent.resolve_batch(ctx, self.selection_vector_if.as_slice());
        let ghost branched = *ctx;

        match &mut self.alternative {
            Some(alternative) => {
                alternative.resolve_batch(ctx, self.selection_vector_else.as_slice());
            },
            None => {
                let mut e: usize = 0;
                while e < self.selection_vector_else.len()
                    invariant
                        e <= others.len(),
                        others == self.selection_vector_else@,
                        ctx.wf(),
                        ctx.states == branched.states,
                        forall|k: int| 0 <= k < others.len() ==> (#[trigger] others[k]) < branched.rows(),
                        forall|r: usize| r < branched.rows() ==> #[trigger] ctx.slot(r as int) == (
                            if others.take(e as int).contains(r) {
                                Ok::<ValueModel, Fault>(ValueModel::Null)
                            } else {
                                branched.slot(r as int)
                            }),
                    decreases others.len() - e,
                {
                    let index = self.selection_vector_else[e];
                    ctx.set_resolved(index, Ok(Value::Null));
                    e += 1;
                    proof {
                        lemma_take_next(others, e as int);
                    }
                }
                assert(others.take(e as int) =~= others);
            },
        }

        proof {
            assert forall|r: usize| r < old(ctx).rows() implies #[trigger] ctx.slot(r as int) == (
                if selection_vector@.contains(r) {
                    old(self).eval(old(ctx).row(r as int))
                } else {
                    old(ctx).slot(r as int)
                }) by {
                let _ = branched.slot(r as int);
                let _ = decided.slot(r as int);
                let _ = chosen.contains(r);
                let _ = others.contains(r);
            }
        }
    }

    fn type_def(&self, state: (&LocalEnv, &ExternalEnv)) -> (t: TypeDef) {
        let type_def = self.consequent.type_def(state);
        match &self.alternative {
            None => type_def.add_null(),
            Some(alternative) => type_def.merge_deep(alternative.type_def(state)),
        }
    }

    fn render(&self) -> (s: String) {
        let mut s = String::from_str("if ");
        let predicate = self.predicate.render();
        s.append(predicate.as_str());
        s.append(" ");
        let consequent = self.consequent.render();
        s.append(consequent.as_str());
        match &self.alternative {
            Some(alternative) => {
                s.append(" else ");
                let text = alternative.render();
                s.append(text.as_str());
                proof {
                    assert(s@ =~= self.rendered());
                }
            },
            None => {
                proof {
                    assert(s@ =~= self.rendered());
                }
            },
        }
        s
    }
}

/// A conditional faults exactly with its predicate's fault where the
/// predicate faults: neither branch is consulted.
pub proof fn lemma_predicate_fault_is_kept<P: Expression, C: Expression, A: Expression>(
    node: IfStatement<P, C, A>,
    vars: Bindings,
    fault: Fault,
)
    requires
        node.predicate.eval(vars) == Err::<ValueModel, Fault>(fault),
    ensures
        node.eval(vars) == Err::<ValueModel, Fault>(fault),
{
}

/// A conditional yields what its consequent yields where the predicate is
/// true, and what its alternative yields where the predicate is false.
pub proof fn lemma_branch_is_taken<P: Expression, C: Expression, A: Expression>(
    node: IfStatement<P, C, A>,
    vars: Bindings,
)
    ensures
        holds_boolean(node.predicate.eval(vars), true) ==> node.eval(vars) == node.consequent.eval(vars),
        holds_boolean(node.predicate.eval(vars), false) && node.alternative is Some ==> node.eval(vars)
            == node.alternative->0.eval(vars),
{
}

/// Without an alternative, a conditional yields null wherever its predicate
/// is false. Scalar and batch resolution both yield what `eval` gives, so
/// this holds of both.
pub proof fn lemma_absent_alternative_yields_null<P: Expression, C: Expression, A: Expression>(
    node: IfStatement<P, C, A>,
    vars: Bindings,
)
    requires
        node.alternative is None,
        holds_boolean(node.predicate.eval(vars), false),
    ensures
        node.eval(vars) == Ok::<ValueModel, Fault>(ValueModel::Null),
{
}

} // verus!
