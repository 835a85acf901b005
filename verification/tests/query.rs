use std::borrow::Cow;
use vrl::compiler::context::{Context, ContextModel, EventTarget, TargetValueRef};
use vrl::compiler::expression::container::Container;
use vrl::compiler::expression::error::{ExpressionError, Outcome, Resolved};
use vrl::compiler::expression::function_call::{Function, FunctionCall, FunctionExpression};
use vrl::compiler::expression::query::{Query, Target};
use vrl::compiler::expression::variable::Variable;
use vrl::compiler::expression::{Expr, Expression};
use vrl::compiler::ident::Ident;
use vrl::compiler::state::{
    ExternalEnv, LocalEnv, RuntimeState, TypeInfo, TypeInfoModel, TypeState, TypeStateModel,
};
use vrl::compiler::type_def::{Details, TypeDef};
use vrl::kind::{Collection, Kind, Position};
use vrl::path::{OwnedSegment, OwnedTargetPath, OwnedValuePath, PathPrefix, TargetPath};
use vrl::text::Wording;
use vrl::value::{ObjectMap, Value, ValueModel};

/// Reads a path of plain names and of indices in brackets. A dot alone is the root.
fn path(path: &str) -> OwnedValuePath {
    let mut segments = Vec::new();
    for part in path.split('.').filter(|part| !part.is_empty()) {
        let mut rest = part;
        if let Some(bracket) = part.find('[') {
            rest = &part[..bracket];
        }
        if !rest.is_empty() {
            segments.push(OwnedSegment::Field(rest.to_string()));
        }
        for index in part[rest.len()..].split(']').filter(|index| !index.is_empty()) {
            segments.push(OwnedSegment::Index(index[1..].parse().expect("valid path")));
        }
    }
    OwnedValuePath { segments }
}

fn wording(written: &str) -> Wording {
    Wording {
        written: written.to_string(),
        shown: format!("Shown({written})"),
    }
}

fn object(fields: Vec<(&str, Value)>) -> Value {
    let mut map = ObjectMap::new();
    for (name, value) in fields {
        map.insert(name.to_string(), value);
    }
    Value::from(map)
}

/// A `Query` over a variable named `var`, bound in the local environment so
/// that `Variable::new` accepts it.
fn variable_query(query_path: &str) -> Query {
    let mut local = LocalEnv::default();
    local.insert_variable(
        Ident::new("var"),
        Details {
            type_def: TypeDef::any(),
            value: None,
        },
    );

    let variable = Variable::new(Ident::new("var"), &local).expect("variable is bound");

    Query::new(Target::Internal(variable), path(query_path))
}

fn container(value: Value) -> Container {
    match value {
        Value::Object(fields) => Container::object(
            (0..fields.len())
                .map(|i| fields.entry(i))
                .map(|(name, field)| (name.clone(), Expr::Literal(field.clone())))
                .collect(),
            wording("{ .. }"),
        ),
        Value::Array(items) => Container::array(
            items.into_iter().map(Expr::Literal).collect(),
            wording("[ .. ]"),
        ),
        other => panic!("expected an array or an object, got {other:?}"),
    }
}

fn container_query(value: Value, query_path: &str) -> Query {
    Query::new(Target::Container(container(value)), path(query_path))
}

/// Runs `f` with a context whose event is `event` and whose runtime state
/// binds `var` to `variable`, when one is given.
fn with_context<T>(event: Value, variable: Option<Value>, f: impl FnOnce(&mut Context) -> T) -> T {
    let mut event = event;
    let mut metadata = object(vec![]);
    let target = TargetValueRef {
        value: &mut event,
        metadata: &mut metadata,
    };

    let mut state = RuntimeState::default();
    if let Some(variable) = variable {
        state.insert_variable(Ident::new("var"), variable);
    }

    let mut ctx = Context::new(target, &mut state);

    f(&mut ctx)
}

fn nested() -> Value {
    object(vec![(
        "a",
        object(vec![(
            "b",
            Value::from(vec![Value::from(1), Value::from(2)]),
        )]),
    )])
}

#[test]
fn variable_nested_path() {
    let query = variable_query("a.b[1]");
    let got = with_context(Value::Null, Some(nested()), |ctx| query.resolve(ctx));

    assert_eq!(got, Ok(Value::from(2)));
}

#[test]
fn variable_root_path_yields_whole_value() {
    let query = variable_query(".");
    let got = with_context(Value::Null, Some(nested()), |ctx| query.resolve(ctx));

    assert_eq!(got, Ok(nested()));
}

#[test]
fn variable_missing_path_is_null() {
    let query = variable_query("a.nope");
    let got = with_context(Value::Null, Some(nested()), |ctx| query.resolve(ctx));

    assert_eq!(got, Ok(Value::Null));
}

#[test]
fn variable_missing_index_is_null() {
    let query = variable_query("a.b[9]");
    let got = with_context(Value::Null, Some(nested()), |ctx| query.resolve(ctx));

    assert_eq!(got, Ok(Value::Null));
}

#[test]
fn variable_negative_index() {
    let query = variable_query("a.b[-1]");
    let got = with_context(Value::Null, Some(nested()), |ctx| query.resolve(ctx));

    assert_eq!(got, Ok(Value::from(2)));
}

#[test]
fn path_into_scalar_variable_is_null() {
    let query = variable_query("a");
    let got = with_context(Value::Null, Some(Value::from(42)), |ctx| query.resolve(ctx));

    assert_eq!(got, Ok(Value::Null));
}

/// The compiler rejects reads of unbound variables, so this is a defensive
/// path. It must still yield null rather than panicking, for both a root
/// and a nested query path.
#[test]
fn missing_variable_is_null() {
    for query_path in [".", "a.b"] {
        let query = variable_query(query_path);
        let got = with_context(Value::Null, None, |ctx| query.resolve(ctx));

        assert_eq!(got, Ok(Value::Null), "for path {query_path}");
    }
}

#[test]
fn resolve_ref_borrows_from_the_variable() {
    let query = variable_query("a.b[1]");

    with_context(Value::Null, Some(nested()), |ctx| {
        let got = query.resolve_ref(ctx).expect("resolves");
        assert!(
            matches!(got, Cow::Borrowed(_)),
            "expected a borrow of the variable, got {got:?}"
        );
        assert_eq!(got.into_owned(), Value::from(2));
    });
}

#[test]
fn resolve_ref_owns_when_the_path_misses() {
    let query = variable_query("a.nope");

    with_context(Value::Null, Some(nested()), |ctx| {
        let got = query.resolve_ref(ctx).expect("resolves");
        assert!(matches!(got, Cow::Owned(Value::Null)), "got {got:?}");
    });
}

#[test]
fn resolve_ref_borrows_from_the_event() {
    let query = Query::new(Target::External(PathPrefix::Event), path("a.b[1]"));

    with_context(nested(), None, |ctx| {
        let got = query.resolve_ref(ctx).expect("resolves");
        assert!(
            matches!(got, Cow::Borrowed(_)),
            "expected a borrow of the event, got {got:?}"
        );
        assert_eq!(got.into_owned(), Value::from(2));
    });
}

/// Containers are temporaries, so they must materialize. Both entry points
/// have to agree on the value.
#[test]
fn container_target_materializes() {
    let query = container_query(nested(), "a.b[1]");

    with_context(Value::Null, None, |ctx| {
        assert_eq!(query.resolve(ctx), Ok(Value::from(2)));

        let got = query.resolve_ref(ctx).expect("resolves");
        assert!(matches!(got, Cow::Owned(_)), "got {got:?}");
        assert_eq!(got.into_owned(), Value::from(2));
    });
}

#[test]
fn container_target_missing_path_is_null() {
    let query = container_query(nested(), "a.nope");
    let got = with_context(Value::Null, None, |ctx| query.resolve(ctx));

    assert_eq!(got, Ok(Value::Null));
}

#[test]
fn test_type_def() {
    let query = Query::new(Target::External(PathPrefix::Event), OwnedValuePath::root());

    let state = TypeState::default();
    let type_def = query.type_info(&state).result;

    assert!(type_def.is_infallible());
    assert!(type_def.is_object());

    let object = type_def.as_object().unwrap();

    assert!(object.is_any());
}

/// A function that fails, or gives a value and remembers in a variable that it was called.
struct Probe {
    outcome: Result<Value, &'static str>,
}

impl FunctionExpression for Probe {
    fn resolves(&self, _: ContextModel, _: ContextModel, _: Outcome) -> bool {
        unreachable!("ghost code does not run")
    }

    fn typed(&self, _: TypeStateModel) -> TypeInfoModel {
        unreachable!("ghost code does not run")
    }

    fn resolve(&self, ctx: &mut Context) -> Resolved {
        ctx.state_mut()
            .insert_variable(Ident::new("called"), Value::from(true));
        match &self.outcome {
            Ok(value) => Ok(value.clone()),
            Err(reason) => Err(ExpressionError::Error {
                reason: reason.to_string(),
            }),
        }
    }

    fn type_info(&self, state: &TypeState) -> TypeInfo {
        let mut after = state.clone();
        after.local.insert_variable(
            Ident::new("called"),
            Details {
                type_def: TypeDef::bytes(),
                value: None,
            },
        );
        let result = TypeDef::object(Collection::from_parts(
            vec![("a".to_string(), Kind::integer())],
            Kind::undefined(),
        ))
        .fallible();
        TypeInfo::new(after, result)
    }
}

fn call(outcome: Result<Value, &'static str>) -> FunctionCall {
    FunctionCall::new(
        wording("probe(1)"),
        Function {
            expression: Box::new(Probe { outcome }),
        },
    )
}

/// An event that cannot be read.
struct Unreadable;

impl EventTarget for Unreadable {
    fn found(&self, _: TargetPath) -> Option<ValueModel> {
        unreachable!("ghost code does not run")
    }

    fn target_get(&self, _: &OwnedTargetPath) -> Result<Option<&Value>, String> {
        Err("unreadable".to_string())
    }
}

#[test]
fn what_a_call_makes_known_is_known_afterwards() {
    let state = state_with(TypeDef::bytes(), None);
    let info = call(Ok(nested())).type_info(&state);
    let called = Ident::new("called");

    assert!(state.local.variable(&called).is_none());
    assert_eq!(
        info.state.local.variable(&called).unwrap().type_def,
        TypeDef::bytes()
    );
    assert!(!info.result.is_infallible());
}

#[test]
fn a_call_is_queried_when_it_succeeds() {
    let query = Query::new(Target::FunctionCall(call(Ok(nested()))), path("a.b[-2]"));

    with_context(Value::Null, None, |ctx| {
        assert_eq!(query.resolve(ctx), Ok(Value::from(1)));
        assert_eq!(
            ctx.state().variable(&Ident::new("called")),
            Some(&Value::from(true))
        );

        let got = query.resolve_ref(ctx).expect("resolves");
        assert!(matches!(got, Cow::Owned(_)));
        assert_eq!(got.into_owned(), Value::from(1));
    });
}

#[test]
fn the_error_of_a_call_is_the_error_of_the_query() {
    let query = Query::new(Target::FunctionCall(call(Err("boom"))), path("a"));
    let error = || {
        Err(ExpressionError::Error {
            reason: "boom".to_string(),
        })
    };

    with_context(Value::Null, None, |ctx| {
        assert_eq!(query.resolve(ctx), error());
        assert_eq!(query.resolve_ref(ctx).map(Cow::into_owned), error());
    });
}

#[test]
fn the_error_of_an_item_is_the_error_of_the_container() {
    let items = vec![
        Expr::FunctionCall(call(Err("first"))),
        Expr::FunctionCall(call(Err("second"))),
    ];
    let query = Query::new(
        Target::Container(Container::array(items, wording("[..]"))),
        path("[0]"),
    );

    assert_eq!(
        with_context(Value::Null, None, |ctx| query.resolve(ctx)),
        Err(ExpressionError::Error {
            reason: "first".to_string()
        })
    );
}

#[test]
fn errors_are_told_apart() {
    let abort = |message: Option<&str>| ExpressionError::Abort {
        message: message.map(str::to_string),
    };
    assert_eq!(abort(None), abort(None));
    assert_eq!(abort(Some("x")), abort(Some("x")));
    assert_ne!(abort(Some("x")), abort(None));
    assert_ne!(
        abort(Some("x")),
        ExpressionError::Error {
            reason: "x".to_string()
        }
    );
    assert_eq!(
        ExpressionError::Return {
            value: Value::from(1)
        },
        ExpressionError::Return {
            value: Value::from(1)
        }
    );
}

#[test]
fn an_unreadable_event_reads_as_null() {
    let query = Query::new(Target::External(PathPrefix::Event), path("a"));
    let mut state = RuntimeState::default();
    let mut ctx = Context {
        target: Box::new(Unreadable),
        state: &mut state,
    };

    assert_eq!(query.resolve(&mut ctx), Ok(Value::Null));
    assert!(matches!(
        query.resolve_ref(&mut ctx),
        Ok(Cow::Owned(Value::Null))
    ));
}

#[test]
fn the_metadata_is_another_place_than_the_event() {
    let mut event = object(vec![("a", Value::from(1))]);
    let mut metadata = object(vec![("a", Value::from(2))]);
    let mut state = RuntimeState::default();
    let mut ctx = Context::new(
        TargetValueRef {
            value: &mut event,
            metadata: &mut metadata,
        },
        &mut state,
    );
    let read = |prefix| Query::new(Target::External(prefix), path("a"));

    assert_eq!(
        read(PathPrefix::Event).resolve(&mut ctx),
        Ok(Value::from(1))
    );
    assert_eq!(
        read(PathPrefix::Metadata).resolve(&mut ctx),
        Ok(Value::from(2))
    );
}

/// Reading one field hands out the field itself, wherever it lies in the variable.
#[test]
fn a_field_of_a_variable_is_read_in_place() {
    let mut state = RuntimeState::default();
    state.insert_variable(Ident::new("var"), nested());
    let leaf = state
        .variable(&Ident::new("var"))
        .unwrap()
        .get(&path("a.b[0]"))
        .unwrap();
    let expected = format!("{leaf:p}");

    let mut event = Value::Null;
    let mut metadata = Value::Null;
    let mut ctx = Context::new(
        TargetValueRef {
            value: &mut event,
            metadata: &mut metadata,
        },
        &mut state,
    );
    let query = variable_query("a.b[0]");
    let got = query.resolve_ref(&mut ctx).unwrap();
    match got {
        Cow::Borrowed(value) => assert_eq!(format!("{value:p}"), expected),
        Cow::Owned(_) => panic!("expected a borrow"),
    }
}

#[test]
fn the_parts_of_a_query() {
    let query = variable_query("a.b[1]");
    assert_eq!(query.path(), &path("a.b[1]"));
    assert!(matches!(query.target(), Target::Internal(_)));
    assert!(!query.is_external());
    assert!(query.external_path().is_none());
    assert_eq!(query.as_variable().unwrap().ident(), &Ident::new("var"));
    assert_eq!(query.variable_ident(), Some(&Ident::new("var")));
    assert!(query.expression_target().is_none());

    let query = Query::new(Target::External(PathPrefix::Metadata), path("a"));
    assert!(query.is_external());
    assert_eq!(
        query.external_path(),
        Some(OwnedTargetPath {
            prefix: PathPrefix::Metadata,
            path: path("a"),
        })
    );
    assert!(query.as_variable().is_none());
    assert!(query.variable_ident().is_none());
    assert!(query.expression_target().is_none());
}

#[test]
fn the_expression_of_a_query_is_evaluated_without_the_path() {
    let query = container_query(nested(), "a.b[1]");
    let expression = query.expression_target().unwrap();
    assert_eq!(
        with_context(Value::Null, None, |ctx| expression.resolve(ctx)),
        Ok(nested())
    );

    let query = Query::new(Target::FunctionCall(call(Ok(Value::from(5)))), path("a"));
    let expression = query.expression_target().unwrap();
    assert_eq!(
        with_context(Value::Null, None, |ctx| expression.resolve(ctx)),
        Ok(Value::from(5))
    );
}

#[test]
fn queries_are_equal_if_target_and_path_are() {
    assert!(variable_query("a") == variable_query("a").clone());
    assert!(variable_query("a") != variable_query("b"));
    assert!(variable_query("a") != Query::new(Target::External(PathPrefix::Event), path("a")));
    assert!(Target::External(PathPrefix::Event) != Target::External(PathPrefix::Metadata));
    assert!(
        Target::FunctionCall(call(Ok(Value::Null))) == Target::FunctionCall(call(Err("other")))
    );
    assert!(container_query(nested(), "a") == container_query(nested(), "a"));
    assert!(container_query(nested(), "a") != container_query(object(vec![]), "a"));
    let array = Value::from(vec![Value::from(1)]);
    assert!(container_query(array, "a") != container_query(object(vec![("a", Value::from(1))]), "a"));
}

#[test]
fn how_queries_are_written() {
    let external = |prefix, steps: &str| Query::new(Target::External(prefix), path(steps));

    assert_eq!(variable_query(".").to_text(), "var");
    assert_eq!(variable_query("a.b[1]").to_text(), "var.a.b[1]");
    assert_eq!(variable_query("[-2].a").to_text(), "var[-2].a");
    assert_eq!(external(PathPrefix::Event, ".").to_text(), ".");
    assert_eq!(external(PathPrefix::Event, "a.b").to_text(), ".a.b");
    assert_eq!(external(PathPrefix::Metadata, "a[10]").to_text(), "%a[10]");
    assert_eq!(
        Query::new(Target::FunctionCall(call(Ok(Value::Null))), path("[0]")).to_text(),
        "probe(1)[0]"
    );
    assert_eq!(container_query(nested(), ".").to_text(), "{ .. }");
    assert_eq!(
        Query::new(
            Target::External(PathPrefix::Event),
            OwnedValuePath {
                segments: vec![OwnedSegment::Field("a b\"c".to_string())],
            },
        )
        .to_text(),
        ".\"a b\\\"c\""
    );
}

#[test]
fn how_queries_are_shown() {
    assert_eq!(
        variable_query("a.b[-1]").to_debug_text(),
        "Query(Internal(Variable { ident: Ident(\"var\") }), OwnedValuePath { segments: \
         [Field(\"a\"), Field(\"b\"), Index(-1)] })"
    );
    let external = |prefix| Query::new(Target::External(prefix), path(".")).to_debug_text();
    assert_eq!(
        external(PathPrefix::Event),
        "Query(External(Event), OwnedValuePath { segments: [] })"
    );
    assert_eq!(
        external(PathPrefix::Metadata),
        "Query(External(Metadata), OwnedValuePath { segments: [] })"
    );
    assert_eq!(
        Target::FunctionCall(call(Ok(Value::Null))).to_debug_text(),
        "Shown(probe(1))"
    );
    assert_eq!(
        Target::Container(container(nested())).to_debug_text(),
        "Shown({ .. })"
    );
}

#[test]
fn paths_and_variables_are_shown_as_they_are_made_up() {
    let odd = OwnedValuePath {
        segments: vec![
            OwnedSegment::Field("a\n\"b\\ \u{7f}\u{e9}".to_string()),
            OwnedSegment::Index(isize::MIN),
            OwnedSegment::Field(String::new()),
        ],
    };
    assert_eq!(odd.to_debug_text(), format!("{odd:?}"));
    assert_eq!(path("[0]").to_debug_text(), format!("{:?}", path("[0]")));

    let query = variable_query("a");
    let variable = query.as_variable().unwrap();
    assert_eq!(variable.to_debug_text(), format!("{variable:?}"));
    assert_eq!(
        query.to_debug_text(),
        format!("Query(Internal({variable:?}), {:?})", query.path())
    );
}

#[test]
fn an_unbound_variable_is_refused() {
    let mut local = LocalEnv::default();
    local.insert_variable(
        Ident::new("known"),
        Details {
            type_def: TypeDef::any(),
            value: None,
        },
    );
    let error = Variable::new(Ident::new("unknown"), &local).unwrap_err();
    assert_eq!(error.ident, Ident::new("unknown"));
    assert_eq!(error.idents.len(), 1);
    assert_eq!(error.idents[0], Ident::new("known"));
}

fn state_with(type_def: TypeDef, value: Option<Value>) -> TypeState {
    let mut state = TypeState::default();
    state
        .local
        .insert_variable(Ident::new("var"), Details { type_def, value });
    state
}

#[test]
fn constants_are_known_before_the_program_runs() {
    let state = state_with(TypeDef::any(), Some(nested()));
    assert_eq!(
        variable_query("a.b[1]").resolve_constant(&state),
        Some(Value::from(2))
    );
    assert_eq!(variable_query("a.nope").resolve_constant(&state), None);
    assert_eq!(
        variable_query("a").resolve_constant(&state_with(TypeDef::any(), None)),
        None
    );
    assert_eq!(
        variable_query("a").resolve_constant(&TypeState::default()),
        None
    );
    assert_eq!(container_query(nested(), "a").resolve_constant(&state), None);
    assert_eq!(
        Query::new(Target::External(PathPrefix::Event), path("a")).resolve_constant(&state),
        None
    );

    let items = vec![
        Expr::Literal(Value::from(1)),
        Expr::Query(Box::new(variable_query("a.b[0]"))),
    ];
    assert_eq!(
        Container::array(items, wording("")).resolve_constant(&state),
        Some(Value::from(vec![Value::from(1), Value::from(1)]))
    );
}

#[test]
fn the_type_of_a_variable_query() {
    let state = state_with(
        TypeDef::object(Collection::from_parts(
            vec![("a".to_string(), Kind::integer())],
            Kind::bytes(),
        )),
        None,
    );
    let kind = |steps: &str| {
        variable_query(steps)
            .type_info(&state)
            .result
            .kind()
            .clone()
    };

    assert_eq!(kind("a"), Kind::integer());
    assert_eq!(kind("other"), Kind::bytes().or_undefined());
    assert_eq!(kind("a.deeper"), Kind::undefined());
    assert_eq!(kind("other.deeper"), Kind::undefined());
    assert_eq!(
        variable_query("a")
            .type_info(&TypeState::default())
            .result,
        TypeDef::undefined()
    );
}

#[test]
fn the_type_of_a_call_query_may_be_fallible() {
    let query = Query::new(Target::FunctionCall(call(Ok(Value::Null))), path("a"));
    let info = query.type_info(&state_with(TypeDef::bytes(), None));

    assert_eq!(info.result, TypeDef::integer().fallible());
    assert_eq!(
        info.state.local.variable(&Ident::new("var")).unwrap().type_def,
        TypeDef::bytes()
    );
}

#[test]
fn the_type_of_a_container_query() {
    let state = TypeState::default();
    let fields = vec![
        ("x".to_string(), Expr::Literal(Value::from(1))),
        ("y".to_string(), Expr::Query(Box::new(variable_query("a")))),
        ("x".to_string(), Expr::Literal(Value::from(true))),
    ];
    let object = Target::Container(Container::object(fields, wording("")));
    let kind = |steps: &str| {
        Query::new(object.clone(), path(steps))
            .type_info(&state)
            .result
            .kind()
            .clone()
    };
    assert_eq!(kind("x"), Kind::boolean());
    assert_eq!(kind("y"), Kind::null());
    assert_eq!(kind("z"), Kind::undefined());
    assert_eq!(
        with_context(Value::Null, None, |ctx| Query::new(
            object.clone(),
            path("x")
        )
        .resolve(ctx)),
        Ok(Value::from(true))
    );

    let array = Container::array(
        vec![
            Expr::Literal(nested()),
            Expr::FunctionCall(call(Ok(Value::Null))),
        ],
        wording(""),
    );
    let info = array.type_info(&state);
    assert!(!info.result.is_infallible());
    assert_eq!(
        info.result.kind().at_path(&path("[0].a.b[1]")),
        Kind::integer()
    );
    assert_eq!(info.result.kind().at_path(&path("[-1].a")), Kind::integer());
    assert_eq!(info.result.kind().at_path(&path("[2]")), Kind::undefined());
}

#[test]
fn a_container_with_an_item_that_never_has_a_result_never_has_one() {
    let never = state_with(TypeDef::from(Kind::never()), None);
    let array = Container::array(
        vec![Expr::Query(Box::new(variable_query(".")))],
        wording(""),
    );
    assert_eq!(array.type_info(&never).result.kind(), &Kind::never());
}

fn event_kind() -> Kind {
    Kind::object(Collection::from_parts(
        vec![
            ("a".to_string(), Kind::integer()),
            (
                "b".to_string(),
                Kind::object(Collection::from_parts(
                    vec![("c".to_string(), Kind::bytes())],
                    Kind::undefined(),
                )),
            ),
        ],
        Kind::undefined(),
    ))
}

fn after_deleting(prefix: PathPrefix, steps: &str, compact: bool) -> ExternalEnv {
    let mut external = ExternalEnv::new_with_kind(event_kind(), event_kind());
    external.target_mut().value = Some(Value::from(1));
    Query::new(Target::External(prefix), path(steps)).delete_type_def(&mut external, compact);
    external
}

#[test]
fn deleting_from_the_event() {
    let external = after_deleting(PathPrefix::Event, "a", false);
    assert_eq!(
        external.target_kind().at_path(&path("a")),
        Kind::undefined()
    );
    assert_eq!(external.target_kind().at_path(&path("b.c")), Kind::bytes());
    assert_eq!(external.target().value, None);
    assert_eq!(external.metadata_kind(), &event_kind());
}

#[test]
fn deleting_from_the_metadata() {
    let external = after_deleting(PathPrefix::Metadata, "b.c", false);
    assert_eq!(external.target_kind(), &event_kind());
    assert_eq!(external.target().value, Some(Value::from(1)));
    assert_eq!(
        external.metadata_kind().at_path(&path("b")),
        Kind::object(Collection::empty())
    );
}

#[test]
fn deleting_with_compaction_takes_empty_objects_along() {
    let external = after_deleting(PathPrefix::Event, "b.c", true);
    assert_eq!(
        external.target_kind().at_path(&path("b")),
        Kind::undefined()
    );
    assert_eq!(external.target_kind().at_path(&path("a")), Kind::integer());
}

#[test]
fn deleting_everything_leaves_an_empty_object() {
    let external = after_deleting(PathPrefix::Event, ".", true);
    assert_eq!(external.target_kind(), &Kind::object(Collection::empty()));
}

#[test]
fn deleting_through_other_queries_is_ignored() {
    let mut external = ExternalEnv::new_with_kind(event_kind(), event_kind());
    variable_query("a").delete_type_def(&mut external, true);
    container_query(nested(), "a").delete_type_def(&mut external, false);

    assert_eq!(external.target_kind(), &event_kind());
    assert_eq!(external.metadata_kind(), &event_kind());
}

#[test]
fn deleting_an_item_moves_the_others_up() {
    let mut kind = Kind::array(Collection::from_parts(
        vec![
            (Position(0), Kind::integer()),
            (Position(1), Kind::bytes()),
            (Position(2), Kind::boolean()),
        ],
        Kind::undefined(),
    ));
    kind.remove(&path("[-2]"), false);
    assert_eq!(kind.at_path(&path("[0]")), Kind::integer());
    assert_eq!(kind.at_path(&path("[1]")), Kind::boolean());
    assert_eq!(kind.at_path(&path("[2]")), Kind::undefined());
}

/// Whether a value is of a kind: its own kind adds nothing to it.
fn admits(kind: &Kind, value: &Value) -> bool {
    kind.union(&Kind::of(value)) == *kind
}

#[test]
fn results_are_of_the_kind_that_was_computed() {
    let state = state_with(TypeDef::from(Kind::of(&nested())), Some(nested()));
    for steps in [".", "a", "a.b", "a.b[0]", "a.b[-1]", "a.b[-3]", "a.nope", "[0]"] {
        let query = variable_query(steps);
        let got = with_context(Value::Null, Some(nested()), |ctx| query.resolve(ctx)).unwrap();
        let kind = query.type_info(&state).result.kind().clone();

        assert!(admits(&kind.upgrade_undefined(), &got), "for path {steps}");
        if let Some(constant) = query.resolve_constant(&state) {
            assert_eq!(constant, got, "for path {steps}");
        }
    }
}

#[test]
fn merged_kinds_hold_of_the_values_of_either_branch() {
    let one = nested();
    let two = Value::from(vec![Value::Null]);
    let bound = |value: &Value| {
        let mut local = LocalEnv::default();
        local.insert_variable(
            Ident::new("var"),
            Details {
                type_def: TypeDef::from(Kind::of(value)),
                value: Some(value.clone()),
            },
        );
        local
    };
    let merged = bound(&one).merge(bound(&two));
    let details = merged.variable(&Ident::new("var")).unwrap();

    assert!(admits(details.type_def.kind(), &one));
    assert!(admits(details.type_def.kind(), &two));
    assert!(!admits(details.type_def.kind(), &Value::from(1)));
    assert_eq!(details.value, None);
}

#[test]
fn what_is_left_after_a_deletion_is_of_the_kind_that_was_computed() {
    let before = object(vec![(
        "a",
        Value::from(vec![Value::from(1), object(vec![("x", Value::Null)])]),
    )]);
    let after = |steps: &str, compact: bool| {
        let mut external = ExternalEnv::new_with_kind(Kind::of(&before), Kind::null());
        Query::new(Target::External(PathPrefix::Event), path(steps))
            .delete_type_def(&mut external, compact);
        external.target_kind().clone()
    };

    let without_item = object(vec![(
        "a",
        Value::from(vec![object(vec![("x", Value::Null)])]),
    )]);
    assert_eq!(after("a[0]", false), Kind::of(&without_item));
    assert_eq!(after("a[-2]", true), Kind::of(&without_item));

    let emptied = object(vec![(
        "a",
        Value::from(vec![Value::from(1), object(vec![])]),
    )]);
    assert_eq!(after("a[1].x", false), Kind::of(&emptied));

    let compacted = object(vec![("a", Value::from(vec![Value::from(1)]))]);
    assert_eq!(after("a[1].x", true), Kind::of(&compacted));

    assert_eq!(after("a[7]", true), Kind::of(&before));
    assert_eq!(after(".", true), Kind::of(&object(vec![])));
}

#[test]
fn a_path_is_followed_step_by_step() {
    let value = nested();
    let first = value.get(&path("a")).unwrap();
    assert_eq!(first.get(&path("b[1]")), value.get(&path("a.b[1]")));

    let kind = Kind::of(&value);
    assert_eq!(
        kind.at_path(&path("a")).at_path(&path("b[1]")),
        kind.at_path(&path("a.b[1]"))
    );
}
