use vrl_expression::expression::if_statement::{partition_selection, IfStatement};
use vrl_expression::expression::variable::Variable;
use vrl_expression::expression::{Abort, Expression, Literal};
use vrl_expression::state::{BatchContext, Context, ExternalEnv, LocalEnv, RuntimeState};
use vrl_expression::type_def::TypeDef;
use vrl_expression::value::{Fault, Resolved, Value};

fn text(s: &str) -> Value {
    Value::Bytes(s.to_string())
}

fn lit(v: Value) -> Literal {
    Literal::new(v)
}

fn var(name: &str) -> Variable {
    Variable { ident: name.to_string(), value: None }
}

fn row(bindings: Vec<(&str, Value)>) -> RuntimeState {
    let mut state = RuntimeState::new();
    for (name, value) in bindings {
        state.insert_variable(name.to_string(), value);
    }
    state
}

fn empty_context() -> Context {
    Context::new(RuntimeState::new())
}

fn sorted(mut v: Vec<usize>) -> Vec<usize> {
    v.sort();
    v
}

#[test]
fn true_predicate_takes_the_consequent() {
    let node = IfStatement::new(lit(Value::Boolean(true)), lit(text("a")), Some(lit(text("b"))));
    assert_eq!(node.resolve(&mut empty_context()), Ok(text("a")));
}

#[test]
fn false_predicate_takes_the_alternative() {
    let node = IfStatement::new(lit(Value::Boolean(false)), lit(text("a")), Some(lit(text("b"))));
    assert_eq!(node.resolve(&mut empty_context()), Ok(text("b")));
}

#[test]
fn false_predicate_without_alternative_is_null() {
    let node: IfStatement<Literal, Literal, Literal> =
        IfStatement::new(lit(Value::Boolean(false)), lit(text("a")), None);
    assert_eq!(node.resolve(&mut empty_context()), Ok(Value::Null));
}

#[test]
fn true_predicate_without_alternative_takes_the_consequent() {
    let node: IfStatement<Literal, Literal, Literal> =
        IfStatement::new(lit(Value::Boolean(true)), lit(Value::Integer(7)), None);
    assert_eq!(node.resolve(&mut empty_context()), Ok(Value::Integer(7)));
}

#[test]
fn scalar_predicate_fault_is_returned() {
    let node = IfStatement::new(Abort::new(Fault { code: 9 }), lit(text("a")), Some(lit(text("b"))));
    assert_eq!(node.resolve(&mut empty_context()), Err(Fault { code: 9 }));
}

#[test]
fn new_starts_with_empty_buffers() {
    let node = IfStatement::new(lit(Value::Boolean(true)), lit(text("a")), Some(lit(text("b"))));
    assert!(node.selection_vector_if.is_empty());
    assert!(node.selection_vector_else.is_empty());
    assert_eq!(node.predicate, lit(Value::Boolean(true)));
    assert_eq!(node.consequent, lit(text("a")));
    assert_eq!(node.alternative, Some(lit(text("b"))));
}

#[test]
fn batch_routes_each_row_by_its_predicate() {
    let states = vec![
        row(vec![("p", Value::Boolean(true))]),
        row(vec![("p", Value::Boolean(false))]),
        row(vec![("p", Value::Boolean(true))]),
    ];
    let mut ctx = BatchContext::new(states);
    let mut node = IfStatement::new(var("p"), lit(Value::Integer(1)), Some(lit(Value::Integer(2))));
    node.resolve_batch(&mut ctx, &[0, 1, 2]);
    assert_eq!(
        ctx.resolved_values,
        vec![Ok(Value::Integer(1)), Ok(Value::Integer(2)), Ok(Value::Integer(1))]
    );
}

#[test]
fn batch_without_alternative_writes_null() {
    let states = vec![
        row(vec![("p", Value::Boolean(false))]),
        row(vec![("p", Value::Boolean(true))]),
        row(vec![("p", Value::Boolean(false))]),
    ];
    let mut ctx = BatchContext::new(states);
    let mut node: IfStatement<Variable, Literal, Literal> =
        IfStatement::new(var("p"), lit(text("yes")), None);
    node.resolve_batch(&mut ctx, &[2, 0, 1]);
    assert_eq!(ctx.resolved_values, vec![Ok(Value::Null), Ok(text("yes")), Ok(Value::Null)]);
}

#[test]
fn batch_leaves_unselected_rows_alone() {
    let states = vec![
        row(vec![("p", Value::Boolean(true))]),
        row(vec![("p", Value::Boolean(false))]),
        row(vec![("p", Value::Boolean(true))]),
    ];
    let mut ctx = BatchContext::new(states);
    ctx.set_resolved(1, Ok(text("kept")));
    let mut node = IfStatement::new(var("p"), lit(Value::Integer(1)), Some(lit(Value::Integer(2))));
    node.resolve_batch(&mut ctx, &[2, 0]);
    assert_eq!(
        ctx.resolved_values,
        vec![Ok(Value::Integer(1)), Ok(text("kept")), Ok(Value::Integer(1))]
    );
}

#[test]
fn batch_with_empty_selection_changes_nothing() {
    let states = vec![row(vec![("p", Value::Boolean(true))])];
    let mut ctx = BatchContext::new(states);
    ctx.set_resolved(0, Ok(Value::Integer(5)));
    let mut node = IfStatement::new(var("p"), lit(Value::Integer(1)), Some(lit(Value::Integer(2))));
    node.resolve_batch(&mut ctx, &[]);
    assert_eq!(ctx.resolved_values, vec![Ok(Value::Integer(5))]);
}

#[test]
fn batch_reuses_its_buffers_across_calls() {
    let mut node = IfStatement::new(var("p"), lit(Value::Integer(1)), Some(lit(Value::Integer(2))));
    let mut first = BatchContext::new(vec![
        row(vec![("p", Value::Boolean(true))]),
        row(vec![("p", Value::Boolean(true))]),
    ]);
    node.resolve_batch(&mut first, &[0, 1]);
    let mut second = BatchContext::new(vec![row(vec![("p", Value::Boolean(false))])]);
    node.resolve_batch(&mut second, &[0]);
    assert_eq!(first.resolved_values, vec![Ok(Value::Integer(1)), Ok(Value::Integer(1))]);
    assert_eq!(second.resolved_values, vec![Ok(Value::Integer(2))]);
}

// A predicate that faults on the rows where `broken` is true and is the
// boolean `p` elsewhere.
fn fragile_predicate() -> IfStatement<Variable, Abort, Variable> {
    IfStatement::new(var("broken"), Abort::new(Fault { code: 3 }), Some(var("p")))
}

#[test]
fn a_faulting_row_does_not_disturb_the_others() {
    let states = vec![
        row(vec![("broken", Value::Boolean(false)), ("p", Value::Boolean(true))]),
        row(vec![("broken", Value::Boolean(true)), ("p", Value::Boolean(true))]),
        row(vec![("broken", Value::Boolean(false)), ("p", Value::Boolean(false))]),
        row(vec![("broken", Value::Boolean(false)), ("p", Value::Boolean(true))]),
    ];
    let mut ctx = BatchContext::new(states);
    let mut node = IfStatement::new(
        fragile_predicate(),
        lit(Value::Integer(1)),
        Some(lit(Value::Integer(2))),
    );
    node.resolve_batch(&mut ctx, &[0, 1, 2, 3]);
    assert_eq!(
        ctx.resolved_values,
        vec![
            Ok(Value::Integer(1)),
            Err(Fault { code: 3 }),
            Ok(Value::Integer(2)),
            Ok(Value::Integer(1)),
        ]
    );
}

#[test]
fn scalar_and_batch_agree_on_every_row() {
    let rows = vec![
        vec![("broken", Value::Boolean(false)), ("p", Value::Boolean(true))],
        vec![("broken", Value::Boolean(true)), ("p", Value::Boolean(true))],
        vec![("broken", Value::Boolean(false)), ("p", Value::Boolean(false))],
    ];
    for bindings in rows {
        let mut node: IfStatement<_, Literal, Literal> =
            IfStatement::new(fragile_predicate(), lit(text("then")), None);
        let scalar = node.resolve(&mut Context::new(row(bindings.clone())));
        let mut ctx = BatchContext::new(vec![row(bindings)]);
        node.resolve_batch(&mut ctx, &[0]);
        assert_eq!(ctx.resolved_values[0], scalar);
    }
}

#[test]
fn partition_splits_by_slot() {
    let slots: Vec<Resolved> = vec![
        Ok(Value::Boolean(true)),
        Ok(Value::Boolean(false)),
        Err(Fault { code: 1 }),
        Ok(Value::Boolean(true)),
        Ok(Value::Boolean(false)),
        Ok(Value::Integer(0)),
    ];
    let mut chosen = vec![99, 98];
    let mut others = vec![97];
    partition_selection(&slots, &[4, 3, 2, 1, 0], &mut chosen, &mut others);
    assert_eq!(sorted(chosen), vec![0, 3]);
    assert_eq!(sorted(others), vec![1, 4]);
}

#[test]
fn partition_of_nothing_is_empty() {
    let slots: Vec<Resolved> = vec![Ok(Value::Boolean(true))];
    let mut chosen = vec![5];
    let mut others = vec![6];
    partition_selection(&slots, &[], &mut chosen, &mut others);
    assert!(chosen.is_empty());
    assert!(others.is_empty());
}

#[test]
fn partition_drops_all_faulted_rows() {
    let slots: Vec<Resolved> = vec![Err(Fault { code: 1 }), Err(Fault { code: 2 })];
    let mut chosen = Vec::new();
    let mut others = Vec::new();
    partition_selection(&slots, &[0, 1], &mut chosen, &mut others);
    assert!(chosen.is_empty());
    assert!(others.is_empty());
}

#[test]
fn type_is_the_union_of_both_branches() {
    let node = IfStatement::new(lit(Value::Boolean(true)), lit(text("a")), Some(lit(Value::Integer(1))));
    let local = LocalEnv::new();
    let external = ExternalEnv { target: TypeDef::null() };
    let expected = TypeDef { bytes: true, integer: true, boolean: false, null: false, fallible: false };
    assert_eq!(node.type_def((&local, &external)), expected);
}

#[test]
fn type_without_alternative_may_be_null() {
    let node: IfStatement<Literal, Literal, Literal> =
        IfStatement::new(lit(Value::Boolean(true)), lit(text("a")), None);
    let local = LocalEnv::new();
    let external = ExternalEnv { target: TypeDef::null() };
    let expected = TypeDef { bytes: true, integer: false, boolean: false, null: true, fallible: false };
    assert_eq!(node.type_def((&local, &external)), expected);
}

#[test]
fn type_is_fallible_where_a_branch_is() {
    let node = IfStatement::new(
        lit(Value::Boolean(true)),
        lit(Value::Integer(1)),
        Some(Abort::new(Fault { code: 1 })),
    );
    let local = LocalEnv::new();
    let external = ExternalEnv { target: TypeDef::null() };
    let expected = TypeDef { bytes: false, integer: true, boolean: false, null: false, fallible: true };
    assert_eq!(node.type_def((&local, &external)), expected);
}

#[test]
fn merge_is_commutative_on_an_example() {
    let a = TypeDef::bytes().fallible();
    let b = TypeDef::integer().add_null();
    assert_eq!(a.merge_deep(b), b.merge_deep(a));
    assert_eq!(
        a.merge_deep(b),
        TypeDef { bytes: true, integer: true, boolean: false, null: true, fallible: true }
    );
    assert_eq!(a.merge_deep(a), a);
    assert_eq!(TypeDef::never().merge_deep(TypeDef::boolean()), TypeDef::boolean());
    assert_eq!(TypeDef::null().fallible().infallible(), TypeDef::null());
}

#[test]
fn renders_with_and_without_else() {
    let with = IfStatement::new(lit(Value::Boolean(true)), lit(text("a")), Some(lit(Value::Integer(42))));
    assert_eq!(with.render(), "if true \"a\" else 42");
    let without: IfStatement<Variable, Literal, Literal> =
        IfStatement::new(var("ready"), lit(Value::Null), None);
    assert_eq!(without.render(), "if ready null");
}

#[test]
fn literal_renders_each_kind() {
    assert_eq!(lit(Value::Null).render(), "null");
    assert_eq!(lit(Value::Boolean(false)).render(), "false");
    assert_eq!(lit(Value::Integer(-17)).render(), "-17");
    assert_eq!(lit(text("x y")).render(), "\"x y\"");
    assert_eq!(Abort::new(Fault { code: 1 }).render(), "abort");
}

#[test]
fn literal_and_abort_resolve_in_batch() {
    let mut ctx = BatchContext::new(vec![RuntimeState::new(), RuntimeState::new(), RuntimeState::new()]);
    assert_eq!(ctx.len(), 3);
    lit(Value::Integer(4)).resolve_batch(&mut ctx, &[0, 2]);
    Abort::new(Fault { code: 8 }).resolve_batch(&mut ctx, &[2]);
    assert_eq!(ctx.resolved(0), &Ok(Value::Integer(4)));
    assert_eq!(ctx.resolved(1), &Ok(Value::Null));
    assert_eq!(ctx.resolved(2), &Err(Fault { code: 8 }));
}
