use vrl_expression::expression::levenstein::{chars_of, closest, distance};
use vrl_expression::expression::variable::{Error, ErrorVariant, Label, Span, Variable};
use vrl_expression::expression::Expression;
use vrl_expression::state::{BatchContext, Context, Details, ExternalEnv, LocalEnv, RuntimeState};
use vrl_expression::type_def::TypeDef;
use vrl_expression::value::Value;

fn span() -> Span {
    Span { start: 3, end: 6 }
}

fn env(names: Vec<&str>) -> LocalEnv {
    let mut local = LocalEnv::new();
    for name in names {
        local.insert_variable(name.to_string(), Details { type_def: TypeDef::integer(), value: None });
    }
    local
}

fn chars(s: &str) -> Vec<char> {
    s.chars().collect()
}

#[test]
fn undefined_variable_suggests_the_nearest_name() {
    let err = Variable::new(span(), "foo".to_string(), &env(vec!["bar", "food"])).unwrap_err();
    assert_eq!(err.suggestion(), "food");
    let labels = err.labels();
    assert_eq!(
        labels,
        vec![
            Label { message: "undefined variable".to_string(), primary: true, span: span() },
            Label { message: "did you mean \"food\"?".to_string(), primary: false, span: span() },
        ]
    );
}

#[test]
fn undefined_variable_in_empty_scope_suggests_a_builtin() {
    let err = Variable::new(span(), "foo".to_string(), &LocalEnv::new()).unwrap_err();
    let guess = err.suggestion();
    assert!(guess == "null" || guess == "true" || guess == "false");
    assert_eq!(guess, "null");
    assert_eq!(err.labels()[1].message, "did you mean \"null\"?");
}

#[test]
fn suggestion_prefers_the_first_of_equally_near_names() {
    let err = Error::undefined(
        "cat".to_string(),
        span(),
        vec!["bat".to_string(), "car".to_string(), "cut".to_string()],
    );
    assert_eq!(err.suggestion(), "bat");
    let near_builtin = Error::undefined("tru".to_string(), span(), vec!["zzzzzz".to_string()]);
    assert_eq!(near_builtin.suggestion(), "true");
}

#[test]
fn undefined_error_carries_what_it_was_given() {
    let err = Variable::new(span(), "foo".to_string(), &env(vec!["a", "b"])).unwrap_err();
    assert_eq!(err.ident, "foo");
    assert_eq!(err.span, span());
    assert_eq!(err.variant, ErrorVariant::Undefined { idents: vec!["a".to_string(), "b".to_string()] });
    assert_eq!(err.code(), 701);
    assert_eq!(err.message(), "call to undefined variable");
}

#[test]
fn declared_variable_makes_a_node() {
    let mut local = LocalEnv::new();
    local.insert_variable(
        "known".to_string(),
        Details { type_def: TypeDef::integer(), value: Some(Value::Integer(3)) },
    );
    local.insert_variable("plain".to_string(), Details { type_def: TypeDef::bytes(), value: None });
    let known = Variable::new(span(), "known".to_string(), &local).unwrap();
    assert_eq!(known.ident(), "known");
    assert_eq!(known.value(), Some(&Value::Integer(3)));
    let plain = Variable::new(span(), "plain".to_string(), &local).unwrap();
    assert_eq!(plain.value(), None);
    assert_eq!(plain.render(), "plain");
}

#[test]
fn later_declaration_replaces_the_earlier() {
    let mut local = LocalEnv::new();
    local.insert_variable("x".to_string(), Details { type_def: TypeDef::integer(), value: None });
    local.insert_variable("x".to_string(), Details { type_def: TypeDef::bytes(), value: None });
    assert_eq!(local.variable(&"x".to_string()).map(|d| d.type_def), Some(TypeDef::bytes()));
    assert_eq!(local.variable(&"y".to_string()), None);
    assert_eq!(local.variable_idents(), vec!["x".to_string()]);
    local.insert_variable("z".to_string(), Details { type_def: TypeDef::null(), value: None });
    local.insert_variable("x".to_string(), Details { type_def: TypeDef::boolean(), value: None });
    assert_eq!(local.variable_idents(), vec!["x".to_string(), "z".to_string()]);
    assert_eq!(local.variable(&"x".to_string()).map(|d| d.type_def), Some(TypeDef::boolean()));
    assert_eq!(local.variable(&"z".to_string()).map(|d| d.type_def), Some(TypeDef::null()));
}

#[test]
fn bound_variable_resolves_to_its_value() {
    let mut state = RuntimeState::new();
    state.insert_variable("v".to_string(), Value::Bytes("hello".to_string()));
    state.insert_variable("w".to_string(), Value::Integer(2));
    let node = Variable { ident: "v".to_string(), value: None };
    assert_eq!(node.resolve(&mut Context::new(state)), Ok(Value::Bytes("hello".to_string())));
}

#[test]
fn unbound_variable_resolves_to_null() {
    let mut state = RuntimeState::new();
    state.insert_variable("w".to_string(), Value::Integer(2));
    let node = Variable { ident: "v".to_string(), value: None };
    assert_eq!(node.resolve(&mut Context::new(state)), Ok(Value::Null));
}

#[test]
fn resolution_ignores_the_captured_constant() {
    let mut state = RuntimeState::new();
    state.insert_variable("v".to_string(), Value::Integer(10));
    let node = Variable { ident: "v".to_string(), value: Some(Value::Integer(1)) };
    assert_eq!(node.resolve(&mut Context::new(state)), Ok(Value::Integer(10)));
}

#[test]
fn rebinding_a_variable_replaces_its_value() {
    let mut state = RuntimeState::new();
    state.insert_variable("v".to_string(), Value::Integer(1));
    state.insert_variable("v".to_string(), Value::Integer(2));
    assert_eq!(state.variable(&"v".to_string()), Some(&Value::Integer(2)));
}

#[test]
fn batch_variable_resolves_each_selected_row() {
    let mut first = RuntimeState::new();
    first.insert_variable("v".to_string(), Value::Integer(1));
    let second = RuntimeState::new();
    let mut third = RuntimeState::new();
    third.insert_variable("v".to_string(), Value::Boolean(true));
    let mut ctx = BatchContext::new(vec![first, second, third]);
    ctx.set_resolved(2, Ok(Value::Integer(77)));
    let mut node = Variable { ident: "v".to_string(), value: None };
    node.resolve_batch(&mut ctx, &[1, 0]);
    assert_eq!(
        ctx.resolved_values,
        vec![Ok(Value::Integer(1)), Ok(Value::Null), Ok(Value::Integer(77))]
    );
}

#[test]
fn variable_type_is_the_declared_type_made_infallible() {
    let mut local = LocalEnv::new();
    local.insert_variable(
        "v".to_string(),
        Details { type_def: TypeDef::integer().fallible(), value: None },
    );
    let external = ExternalEnv { target: TypeDef::null() };
    let declared = Variable { ident: "v".to_string(), value: None };
    assert_eq!(declared.type_def((&local, &external)), TypeDef::integer());
    let missing = Variable { ident: "w".to_string(), value: None };
    assert_eq!(missing.type_def((&local, &external)), TypeDef::null());
}

#[test]
fn edit_distance_of_known_pairs() {
    assert_eq!(distance(&chars("kitten"), &chars("sitting")), 3);
    assert_eq!(distance(&chars(""), &chars("abc")), 3);
    assert_eq!(distance(&chars("abc"), &chars("")), 3);
    assert_eq!(distance(&chars(""), &chars("")), 0);
    assert_eq!(distance(&chars("same"), &chars("same")), 0);
    assert_eq!(distance(&chars("foo"), &chars("food")), 1);
    assert_eq!(distance(&chars("foo"), &chars("null")), 4);
    assert_eq!(distance(&chars("flaw"), &chars("lawn")), 2);
    assert_eq!(distance(&chars("a"), &chars("b")), 1);
}

#[test]
fn edit_distance_counts_characters_not_bytes() {
    assert_eq!(distance(&chars("héllo"), &chars("hello")), 1);
    assert_eq!(chars_of("héllo"), chars("héllo"));
    assert_eq!(chars_of(""), Vec::<char>::new());
}

#[test]
fn closest_of_no_candidates_is_none() {
    assert_eq!(closest(&"foo".to_string(), &vec![]), None);
    assert_eq!(
        closest(&"foo".to_string(), &vec!["zzz".to_string(), "fo".to_string(), "foo".to_string()]),
        Some(2)
    );
}
