//! The variable-reference node, and the diagnostic of a reference to a
//! variable that the scope does not declare.

use vstd::prelude::*;
use vstd::string::StringExecFns;
use crate::expression::levenstein::{closest, is_closest, texts};
use crate::expression::{lemma_take_next, Expression};
use crate::state::{assoc, BatchContext, Bindings, Context, ExternalEnv, LocalEnv, Scope};
use crate::type_def::TypeDef;
use crate::value::{Resolved, ResolvedModel, Value, ValueModel};

verus! {

/// A range of the source text.
#[derive(Debug, Clone, Copy, PartialEq, Eq, Structural)]
pub struct Span {
    pub start: usize,
    pub end: usize,
}

/// A piece of text attached to a range of the source: the primary label
/// marks the place of the error, a context label adds to it.
#[derive(Debug, Clone, PartialEq, Eq)]
pub struct Label {
    pub message: String,
    pub primary: bool,
    pub span: Span,
}

impl Label {
    /// The primary label with the given text.
    pub fn primary(message: String, span: Span) -> (label: Label)
        ensures
            label.message == message,
            label.primary,
            label.span == span,
    {
        Label { message, primary: true, span }
    }

    /// A context label with the given text.
    pub fn context(message: String, span: Span) -> (label: Label)
        ensures
            label.message == message,
            !label.primary,
            label.span == span,
    {
        Label { message, primary: false, span }
    }
}

/// What the value captured for a variable is, where one was captured.
pub open spec fn captured(value: Option<Value>) -> Option<ValueModel> {
    match value {
        Some(v) => Some(v@),
        None => None,
    }
}

/// What a variable resolves to on a row: the value bound to it, or null
/// where the row does not bind it.
pub open spec fn variable_outcome(vars: Bindings, ident: Seq<char>) -> ResolvedModel {
    match assoc(vars, ident) {
        Some(v) => Ok(v),
        None => Ok(ValueModel::Null),
    }
}

/// The static type of a variable: the type that the scope records for it,
/// marked infallible; null where the scope does not declare it.
pub open spec fn variable_type(local: Scope, ident: Seq<char>) -> TypeDef {
    match assoc(local, ident) {
        Some(d) => TypeDef { fallible: false, ..d.type_def },
        None => TypeDef { bytes: false, integer: false, boolean: false, null: true, fallible: false },
    }
}

/// A reference to a variable. `value` is the constant that the scope knew
/// for the variable when the node was made; resolution never reads it.
#[derive(Debug, Clone, PartialEq, Eq)]
pub struct Variable {
    pub ident: String,
    pub value: Option<Value>,
}

impl Variable {
    /// The node that refers to `ident`, if `local` declares it; else the
    /// error of an undefined variable, which carries every identifier that
    /// `local` declares.
    pub fn new(span: Span, ident: String, local: &LocalEnv) -> (r: Result<Variable, Error>)
        ensures
            match assoc(local@, ident@) {
                Some(details) => r is Ok && r->Ok_0.ident == ident && captured(r->Ok_0.value)
                    == details.value,
                None => r is Err && r->Err_0.ident == ident && r->Err_0.span == span
                    && r->Err_0.variant.visible().len() == local@.len()
                    && forall|i: int| 0 <= i < local@.len() ==> #[trigger] r->Err_0.variant.visible()[i] == local@[i].0,
            },
    {
        let value = match local.variable(&ident) {
            Some(variable) => match &variable.value {
                Some(v) => Some(v.clone()),
                None => None,
            },
            None => {
                let idents = local.variable_idents();
                return Err(Error::undefined(ident, span, idents));
            },
        };
        Ok(Variable { ident, value })
    }

    /// The identifier that the node refers to.
    pub fn ident(&self) -> (ident: &String)
        ensures
            *ident == self.ident,
    {
        &self.ident
    }

    /// The constant captured when the node was made, if there was one.
    pub fn value(&self) -> (value: Option<&Value>)
        ensures
            match value {
                Some(v) => self.value == Some(*v),
                None => self.value is None,
            },
    {
        self.value.as_ref()
    }
}

impl Expression for Variable {
    open spec fn eval(&self, vars: Bindings) -> ResolvedModel {
        variable_outcome(vars, self.ident@)
    }

    open spec fn well_typed(&self, vars: Bindings) -> bool {
        true
    }

    open spec fn static_type(&self, local: Scope, external: ExternalEnv) -> TypeDef {
        variable_type(local, self.ident@)
    }

    open spec fn rendered(&self) -> Seq<char> {
        self.ident@
    }

    fn resolve(&self, ctx: &mut Context) -> (r: Resolved) {
        match ctx.state().variable(&self.ident) {
            Some(v) => Ok(v.clone()),
            None => Ok(Value::Null),
        }
    }

    fn resolve_batch(&mut self, ctx: &mut BatchContext, selection_vector: &[usize]) {
        let mut i: usize = 0;
        while i < selection_vector.len()
            invariant
                i <= selection_vector@.len(),
                ctx.wf(),
                ctx.states == old(ctx).states,
                *self == *old(self),
                forall|k: int| 0 <= k < selection_vector@.len() ==> (#[trigger] selection_vector@[k]) < old(ctx).rows(),
                forall|r: usize| r < old(ctx).rows() ==> #[trigger] ctx.slot(r as int) == (
                    if selection_vector@.take(i as int).contains(r) {
                        old(self).eval(old(ctx).row(r as int))
                    } else {
                        old(ctx).slot(r as int)
                    }),
            decreases selection_vector@.len() - i,
        {
            let index = selection_vector[i];
            let outcome = match ctx.states[index].variable(&self.ident) {
                Some(v) => Ok(v.clone()),
                None => Ok(Value::Null),
            };
            ctx.set_resolved(index, outcome);
            i += 1;
            proof {
                lemma_take_next(selection_vector@, i as int);
            }
        }
        assert(selection_vector@.take(i as int) =~= selection_vector@);
    }

    fn type_def(&self, state: (&LocalEnv, &ExternalEnv)) -> (t: TypeDef) {
        match state.0.variable(&self.ident) {
            Some(details) => details.type_def.infallible(),
            None => TypeDef::null().infallible(),
        }
    }

    fn render(&self) -> (s: String) {
        self.ident.clone()
    }
}

/// Why a variable node could not be made.
#[derive(Debug, Clone, PartialEq, Eq)]
pub enum ErrorVariant {
    /// The scope does not declare the variable; `idents` are the
    /// identifiers that it does declare.
    Undefined { idents: Vec<String> },
}

impl ErrorVariant {
    /// The identifiers that were visible where the error arose.
    pub open spec fn visible(&self) -> Seq<Seq<char>> {
        match self {
            ErrorVariant::Undefined { idents } => texts(idents@),
        }
    }
}

/// The names that the language itself defines.
pub open spec fn builtin_names() -> Seq<Seq<char>> {
    seq!["null"@, "true"@, "false"@]
}

/// The text of the hint that names `guess`.
pub open spec fn suggestion_text(guess: Seq<char>) -> Seq<char> {
    "did you mean \""@ + guess + "\"?"@
}

/// A compile-time error at a variable reference.
#[derive(Debug, Clone, PartialEq, Eq)]
pub struct Error {
    pub variant: ErrorVariant,
    pub ident: String,
    pub span: Span,
}

impl Error {
    /// The error of a reference to `ident`, at `span`, where only `idents`
    /// are declared.
    pub fn undefined(ident: String, span: Span, idents: Vec<String>) -> (e: Error)
        ensures
            e.ident == ident,
            e.span == span,
            e.variant == (ErrorVariant::Undefined { idents }),
    {
        Error { variant: ErrorVariant::Undefined { idents }, ident, span }
    }

    /// The names among which a suggestion is sought: the visible
    /// identifiers, then the names that the language defines.
    pub open spec fn candidates(&self) -> Seq<Seq<char>> {
        self.variant.visible() + builtin_names()
    }

    /// The error's message.
    pub fn message(&self) -> (s: String)
        ensures
            s@ == "call to undefined variable"@,
    {
        match &self.variant {
            ErrorVariant::Undefined { .. } => String::from_str("call to undefined variable"),
        }
    }

    /// The number by which tools classify the error.
    pub fn code(&self) -> (code: usize)
        ensures
            code == 701,
    {
        match &self.variant {
            ErrorVariant::Undefined { .. } => 701,
        }
    }

    /// The name suggested in place of the undefined one: the candidate at
    /// the least edit distance from it, the first of them where several are
    /// equally close.
    pub fn suggestion(&self) -> (guess: String)
        ensures
            exists|best: int| is_closest(self.ident@, self.candidates(), best) && guess@ == self.candidates()[best],
    {
        match &self.variant {
            ErrorVariant::Undefined { idents } => {
                let mut names: Vec<String> = Vec::new();
                let mut i: usize = 0;
                while i < idents.len()
                    invariant
                        i <= idents@.len(),
                        names@.len() == i,
                        forall|k: int| 0 <= k < i ==> (#[trigger] names@[k])@ == idents@[k]@,
                    decreases idents@.len() - i,
                {
                    names.push(idents[i].clone());
                    i += 1;
                }
                names.push(String::from_str("null"));
                names.push(String::from_str("true"));
                names.push(String::from_str("false"));
                assert(texts(names@) =~= self.candidates());
                let best: usize = match closest(&self.ident, &names) {
                    Some(best) => best,
                    None => vstd::pervasive::unreached(),
                };
                let guess = names[best].clone();
                proof {
                    assert(is_closest(self.ident@, self.candidates(), best as int));
                    assert(guess@ == self.candidates()[best as int]);
                }
                guess
            },
        }
    }

    /// The labels of the diagnostic: the primary label at the reference,
    /// then a context label, at the same place, that holds the suggestion.
    pub fn labels(&self) -> (labels: Vec<Label>)
        ensures
            labels@.len() == 2,
            labels@[0].primary,
            labels@[0].span == self.span,
            labels@[0].message@ == "undefined variable"@,
            !labels@[1].primary,
            labels@[1].span == self.span,
            exists|best: int| is_closest(self.ident@, self.candidates(), best) && labels@[1].message@
                == suggestion_text(self.candidates()[best]),
    {
        let mut labels: Vec<Label> = Vec::new();
        labels.push(Label::primary(String::from_str("undefined variable"), self.span));
        let guessed = self.suggestion();
        let mut text = String::from_str("did you mean \"");
        text.append(guessed.as_str());
        text.append("\"?");
        labels.push(Label::context(text, self.span));
        labels
    }
}

/// A variable resolves to the value that the row binds to it, and to null,
/// without a fault, where the row does not bind it.
pub proof fn lemma_variable_resolves_to_binding(node: Variable, vars: Bindings, value: ValueModel)
    ensures
        assoc(vars, node.ident@) == Some(value) ==> node.eval(vars) == Ok::<ValueModel, crate::value::Fault>(value),
        assoc(vars, node.ident@) is None ==> node.eval(vars) == Ok::<ValueModel, crate::value::Fault>(
            ValueModel::Null,
        ),
        node.eval(vars) is Ok,
{
}

} // verus!
