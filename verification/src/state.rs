//! Compile-time environments and runtime contexts.
//!
//! Both kinds of scope are kept as a list of bindings; where an identifier
//! occurs more than once, its latest binding is the one that counts.

use vstd::prelude::*;
use crate::type_def::TypeDef;
use crate::value::{resolved_model, Resolved, ResolvedModel, Value, ValueModel};

verus! {

/// The bindings of one row, as a list of identifier and value.
pub type Bindings = Seq<(Seq<char>, ValueModel)>;

/// The bindings of a lexical scope, as a list of identifier and details.
pub type Scope = Seq<(Seq<char>, DetailsModel)>;

/// What a list of bindings holds for `key`: the latest binding wins.
pub open spec fn assoc<V>(s: Seq<(Seq<char>, V)>, key: Seq<char>) -> Option<V>
    decreases s.len(),
{
    if s.len() == 0 {
        None
    } else if s.last().0 == key {
        Some(s.last().1)
    } else {
        assoc(s.drop_last(), key)
    }
}

/// Binding `key` makes it resolve to the new entry and leaves every other
/// identifier as it was.
pub proof fn lemma_assoc_push<V>(s: Seq<(Seq<char>, V)>, key: Seq<char>, v: V, other: Seq<char>)
    ensures
        assoc(s.push((key, v)), other) == if other == key { Some(v) } else { assoc(s, other) },
{
    assert(s.push((key, v)).drop_last() == s);
}

/// Whether a list of bindings holds one for `key`.
pub open spec fn declares<V>(s: Seq<(Seq<char>, V)>, key: Seq<char>) -> bool {
    exists|j: int| 0 <= j < s.len() && (#[trigger] s[j]).0 == key
}

/// Replacing the latest binding of `key` makes `key` resolve to the new
/// entry and leaves every other identifier as it was.
pub proof fn lemma_assoc_update<V>(s: Seq<(Seq<char>, V)>, i: int, key: Seq<char>, v: V, other: Seq<char>)
    requires
        0 <= i < s.len(),
        s[i].0 == key,
        forall|j: int| i < j < s.len() ==> (#[trigger] s[j]).0 != key,
    ensures
        assoc(s.update(i, (key, v)), other) == if other == key { Some(v) } else { assoc(s, other) },
    decreases s.len(),
{
    let t = s.update(i, (key, v));
    if i == s.len() - 1 {
        assert(t.drop_last() =~= s.drop_last());
    } else {
        assert(t.drop_last() =~= s.drop_last().update(i, (key, v)));
        assert(s.last().0 != key);
        lemma_assoc_update(s.drop_last(), i, key, v, other);
    }
}

/// What the compiler knows of a variable.
pub struct DetailsModel {
    pub type_def: TypeDef,
    pub value: Option<ValueModel>,
}

/// What the compiler knows of a variable: its static type and, where it is
/// known, its constant value.
#[derive(Debug, Clone, PartialEq, Eq)]
pub struct Details {
    pub type_def: TypeDef,
    pub value: Option<Value>,
}

impl View for Details {
    type V = DetailsModel;

    open spec fn view(&self) -> DetailsModel {
        DetailsModel {
            type_def: self.type_def,
            value: match self.value {
                Some(v) => Some(v@),
                None => None,
            },
        }
    }
}

/// One entry of a lexical scope.
#[derive(Debug, Clone, PartialEq, Eq)]
pub struct Declared {
    pub ident: String,
    pub details: Details,
}

/// The lexical scope that expressions are compiled against.
#[derive(Debug, Clone, PartialEq, Eq)]
pub struct LocalEnv {
    pub bindings: Vec<Declared>,
}

impl View for LocalEnv {
    type V = Scope;

    open spec fn view(&self) -> Scope {
        Seq::new(self.bindings@.len(), |i: int| (self.bindings@[i].ident@, self.bindings@[i].details@))
    }
}

impl LocalEnv {
    /// The empty scope.
    pub fn new() -> (env: LocalEnv)
        ensures
            env@ == Seq::<(Seq<char>, DetailsModel)>::empty(),
    {
        let env = LocalEnv { bindings: Vec::new() };
        assert(env@ =~= Seq::<(Seq<char>, DetailsModel)>::empty());
        env
    }

    /// Declares `ident` with the given details. A first declaration goes to
    /// the end of the scope; a later one takes the place of the one that
    /// `ident` last had, so that no identifier is listed twice for it.
    pub fn insert_variable(&mut self, ident: String, details: Details)
        ensures
            forall|other: Seq<char>| #[trigger] assoc(final(self)@, other) == if other == ident@ {
                Some(details@)
            } else {
                assoc(old(self)@, other)
            },
            !declares(old(self)@, ident@) ==> final(self)@ == old(self)@.push((ident@, details@)),
            declares(old(self)@, ident@) ==> final(self)@.len() == old(self)@.len() && forall|k: int|
                0 <= k < old(self)@.len() ==> (#[trigger] final(self)@[k]).0 == old(self)@[k].0,
    {
        let mut i: usize = self.bindings.len();
        while i > 0
            invariant
                i <= self.bindings.len(),
                *self == *old(self),
                forall|j: int| i <= j < self@.len() ==> (#[trigger] self@[j]).0 != ident@,
            decreases i,
        {
            i -= 1;
            if self.bindings[i].ident == ident {
                proof {
                    assert(self@[i as int].0 == ident@);
                    assert forall|other: Seq<char>| #[trigger] assoc(
                        self@.update(i as int, (ident@, details@)),
                        other,
                    ) == if other == ident@ {
                        Some(details@)
                    } else {
                        assoc(self@, other)
                    } by {
                        lemma_assoc_update(self@, i as int, ident@, details@, other);
                    }
                }
                self.bindings.set(i, Declared { ident, details });
                assert(self@ =~= old(self)@.update(i as int, (ident@, details@)));
                return;
            }
        }
        proof {
            assert forall|other: Seq<char>| #[trigger] assoc(old(self)@.push((ident@, details@)), other)
                == if other == ident@ {
                Some(details@)
            } else {
                assoc(old(self)@, other)
            } by {
                lemma_assoc_push(old(self)@, ident@, details@, other);
            }
        }
        self.bindings.push(Declared { ident, details });
        assert(self@ =~= old(self)@.push((ident@, details@)));
    }

    /// What the scope knows of `ident`, if it is declared.
    pub fn variable(&self, ident: &String) -> (r: Option<&Details>)
        ensures
            match r {
                Some(d) => assoc(self@, ident@) == Some(d@),
                None => assoc(self@, ident@) is None,
            },
    {
        let mut i: usize = self.bindings.len();
        assert(self@.take(i as int) =~= self@);
        while i > 0
            invariant
                i <= self.bindings.len(),
                assoc(self@, ident@) == assoc(self@.take(i as int), ident@),
            decreases i,
        {
            i -= 1;
            proof {
                let t = self@.take(i + 1);
                assert(t.last() == self@[i as int]);
                assert(t.drop_last() =~= self@.take(i as int));
            }
            if self.bindings[i].ident == *ident {
                return Some(&self.bindings[i].details);
            }
        }
        None
    }

    /// The declared identifiers, in the order of their declaration.
    pub fn variable_idents(&self) -> (r: Vec<String>)
        ensures
            r.len() == self@.len(),
            forall|i: int| 0 <= i < r.len() ==> (#[trigger] r[i])@ == self@[i].0,
    {
        let mut out: Vec<String> = Vec::new();
        let mut i: usize = 0;
        while i < self.bindings.len()
            invariant
                i <= self.bindings.len(),
                out.len() == i,
                forall|k: int| 0 <= k < i ==> (#[trigger] out[k])@ == self@[k].0,
            decreases self.bindings.len() - i,
        {
            out.push(self.bindings[i].ident.clone());
            i += 1;
        }
        out
    }
}

/// What is known of the event that the program runs on.
#[derive(Debug, Clone, Copy, PartialEq, Eq, Structural)]
pub struct ExternalEnv {
    pub target: TypeDef,
}

/// One variable of a row.
#[derive(Debug, Clone, PartialEq, Eq)]
pub struct Binding {
    pub ident: String,
    pub value: Value,
}

/// The live variables of one row.
#[derive(Debug, Clone, PartialEq, Eq)]
pub struct RuntimeState {
    pub variables: Vec<Binding>,
}

impl View for RuntimeState {
    type V = Bindings;

    open spec fn view(&self) -> Bindings {
        Seq::new(self.variables@.len(), |i: int| (self.variables@[i].ident@, self.variables@[i].value@))
    }
}

impl RuntimeState {
    /// A row with no variable.
    pub fn new() -> (state: RuntimeState)
        ensures
            state@ == Seq::<(Seq<char>, ValueModel)>::empty(),
    {
        let state = RuntimeState { variables: Vec::new() };
        assert(state@ =~= Seq::<(Seq<char>, ValueModel)>::empty());
        state
    }

    /// Binds `ident` to `value`. A first binding goes to the end of the row;
    /// a later one takes the place of the one that `ident` last had.
    pub fn insert_variable(&mut self, ident: String, value: Value)
        ensures
            forall|other: Seq<char>| #[trigger] assoc(final(self)@, other) == if other == ident@ {
                Some(value@)
            } else {
                assoc(old(self)@, other)
            },
            !declares(old(self)@, ident@) ==> final(self)@ == old(self)@.push((ident@, value@)),
            declares(old(self)@, ident@) ==> final(self)@.len() == old(self)@.len() && forall|k: int|
                0 <= k < old(self)@.len() ==> (#[trigger] final(self)@[k]).0 == old(self)@[k].0,
    {
        let mut i: usize = self.variables.len();
        while i > 0
            invariant
                i <= self.variables.len(),
                *self == *old(self),
                forall|j: int| i <= j < self@.len() ==> (#[trigger] self@[j]).0 != ident@,
            decreases i,
        {
            i -= 1;
            if self.variables[i].ident == ident {
                proof {
                    assert(self@[i as int].0 == ident@);
                    assert forall|other: Seq<char>| #[trigger] assoc(
                        self@.update(i as int, (ident@, value@)),
                        other,
                    ) == if other == ident@ {
                        Some(value@)
                    } else {
                        assoc(self@, other)
                    } by {
                        lemma_assoc_update(self@, i as int, ident@, value@, other);
                    }
                }
                self.variables.set(i, Binding { ident, value });
                assert(self@ =~= old(self)@.update(i as int, (ident@, value@)));
                return;
            }
        }
        proof {
            assert forall|other: Seq<char>| #[trigger] assoc(old(self)@.push((ident@, value@)), other)
                == if other == ident@ {
                Some(value@)
            } else {
                assoc(old(self)@, other)
            } by {
                lemma_assoc_push(old(self)@, ident@, value@, other);
            }
        }
        self.variables.push(Binding { ident, value });
        assert(self@ =~= old(self)@.push((ident@, value@)));
    }

    /// The value bound to `ident`, if there is one.
    pub fn variable(&self, ident: &String) -> (r: Option<&Value>)
        ensures
            match r {
                Some(v) => assoc(self@, ident@) == Some(v@),
                None => assoc(self@, ident@) is None,
            },
    {
        let mut i: usize = self.variables.len();
        assert(self@.take(i as int) =~= self@);
        while i > 0
            invariant
                i <= self.variables.len(),
                assoc(self@, ident@) == assoc(self@.take(i as int), ident@),
            decreases i,
        {
            i -= 1;
            proof {
                let t = self@.take(i + 1);
                assert(t.last() == self@[i as int]);
                assert(t.drop_last() =~= self@.take(i as int));
            }
            if self.variables[i].ident == *ident {
                return Some(&self.variables[i].value);
            }
        }
        None
    }
}

/// The execution context of one row.
#[derive(Debug, Clone, PartialEq, Eq)]
pub struct Context {
    pub state: RuntimeState,
}

impl Context {
    /// A context over the row's variables.
    pub fn new(state: RuntimeState) -> (ctx: Context)
        ensures
            ctx.state == state,
    {
        Context { state }
    }

    /// The row's variables.
    pub fn state(&self) -> (s: &RuntimeState)
        ensures
            *s == self.state,
    {
        &self.state
    }
}

/// The execution context of a batch of rows: for each row its variables and
/// the slot that holds what was last resolved for it.
#[derive(Debug, Clone, PartialEq, Eq)]
pub struct BatchContext {
    pub states: Vec<RuntimeState>,
    pub resolved_values: Vec<Resolved>,
}

impl BatchContext {
    /// Every row has exactly one slot.
    pub open spec fn wf(&self) -> bool {
        self.states@.len() == self.resolved_values@.len()
    }

    /// The number of rows.
    pub open spec fn rows(&self) -> nat {
        self.states@.len()
    }

    /// The variables of row `i`.
    pub open spec fn row(&self, i: int) -> Bindings {
        self.states@[i]@
    }

    /// What slot `i` holds.
    pub open spec fn slot(&self, i: int) -> ResolvedModel {
        resolved_model(self.resolved_values@[i])
    }

    /// A batch over the given rows, every slot holding null.
    pub fn new(states: Vec<RuntimeState>) -> (ctx: BatchContext)
        ensures
            ctx.wf(),
            ctx.states == states,
            forall|i: int| 0 <= i < ctx.rows() ==> #[trigger] ctx.slot(i) == Ok::<ValueModel, crate::value::Fault>(ValueModel::Null),
    {
        let mut resolved_values: Vec<Resolved> = Vec::new();
        let mut i: usize = 0;
        while i < states.len()
            invariant
                i <= states.len(),
                resolved_values.len() == i,
                forall|k: int| 0 <= k < i ==> resolved_model(#[trigger] resolved_values@[k]) == Ok::<ValueModel, crate::value::Fault>(ValueModel::Null),
            decreases states.len() - i,
        {
            resolved_values.push(Ok(Value::Null));
            i += 1;
        }
        BatchContext { states, resolved_values }
    }

    /// The number of rows.
    pub fn len(&self) -> (n: usize)
        requires
            self.wf(),
        ensures
            n == self.rows(),
    {
        self.states.len()
    }

    /// Writes `outcome` into slot `i` and leaves every other slot and every
    /// row's variables as they were.
    pub fn set_resolved(&mut self, i: usize, outcome: Resolved)
        requires
            old(self).wf(),
            i < old(self).rows(),
        ensures
            final(self).wf(),
            final(self).states == old(self).states,
            forall|r: usize| r < old(self).rows() ==> #[trigger] final(self).slot(r as int) == (
                if r == i {
                    resolved_model(outcome)
                } else {
                    old(self).slot(r as int)
                }),
    {
        self.resolved_values.set(i, outcome);
    }

    /// What was last resolved for row `i`.
    pub fn resolved(&self, i: usize) -> (r: &Resolved)
        requires
            self.wf(),
            i < self.rows(),
        ensures
            resolved_model(*r) == self.slot(i as int),
    {
        &self.resolved_values[i]
    }
}

} // verus!
