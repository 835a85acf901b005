use vrl::compiler::ident::Ident;
use vrl::compiler::state::{ExternalEnv, LocalEnv, RuntimeState, TypeInfo, TypeState};
use vrl::compiler::type_def::{Details, TypeDef};
use vrl::kind::{Collection, Kind};
use vrl::path::PathPrefix;
use vrl::value::Value;

fn details(type_def: TypeDef, value: Option<Value>) -> Details {
    Details { type_def, value }
}

/// Two bindings whose kinds are deep enough that a merge is observable.
fn env(bar: TypeDef) -> LocalEnv {
    let mut env = LocalEnv::default();
    env.insert_variable(
        Ident::new("foo"),
        details(
            TypeDef::object(Collection::from_parts(
                vec![("a".into(), Kind::integer())],
                Kind::bytes(),
            )),
            Some(Value::from(1)),
        ),
    );
    env.insert_variable(Ident::new("bar"), details(bar, None));
    env
}

/// `LocalEnv::merge` short-circuits when both sides still share the binding map. The
/// result has to be what merging a *distinct but equal* env produces.
#[test]
fn merge_shared_bindings_matches_distinct_equal_env() {
    let this = env(TypeDef::bytes());

    // Same allocation (the short-circuit fires).
    let shared = this.clone();
    assert!(this.bindings.ptr_eq(&shared.bindings));

    // Equal by value, separate allocation (the short-circuit cannot fire).
    let distinct = env(TypeDef::bytes());
    assert!(!this.bindings.ptr_eq(&distinct.bindings));

    assert_eq!(this.clone().merge(shared), this.clone().merge(distinct));
    assert_eq!(this.clone().merge(env(TypeDef::bytes())), this);
}

/// The short-circuit must not fire once either side has written.
#[test]
fn merge_diverged_bindings_still_unions() {
    let this = env(TypeDef::bytes());
    let mut other = this.clone();
    other.insert_variable(Ident::new("bar"), details(TypeDef::integer(), None));
    other.insert_variable(Ident::new("baz"), details(TypeDef::null(), None));

    let merged = this.merge(other);

    assert_eq!(
        merged.variable(&Ident::new("bar")).unwrap().type_def,
        TypeDef::bytes().or_integer()
    );
    assert_eq!(
        merged.variable(&Ident::new("baz")).unwrap().type_def,
        TypeDef::null()
    );
}

#[test]
fn apply_child_scope_shared_matches_distinct_equal_env() {
    let this = env(TypeDef::bytes());
    let shared = this.clone();
    let distinct = env(TypeDef::bytes());

    assert_eq!(
        this.clone().apply_child_scope(shared),
        this.clone().apply_child_scope(distinct)
    );
    assert_eq!(this.clone().apply_child_scope(env(TypeDef::bytes())), this);
}

/// A child that did write still copies its updates back into the parent.
#[test]
fn apply_child_scope_diverged_child_overwrites() {
    let this = env(TypeDef::bytes());
    let mut child = this.clone();
    child.insert_variable(Ident::new("bar"), details(TypeDef::integer(), None));
    child.insert_variable(Ident::new("scoped"), details(TypeDef::null(), None));

    let applied = this.apply_child_scope(child);

    assert_eq!(
        applied.variable(&Ident::new("bar")).unwrap().type_def,
        TypeDef::integer()
    );
    assert!(applied.variable(&Ident::new("scoped")).is_none());
}

/// `TypeState::merge` of a state with a shared clone of itself is the identity.
#[test]
fn type_state_merge_with_shared_clone_is_identity() {
    let state = TypeState {
        local: env(TypeDef::bytes()),
        external: ExternalEnv::new_with_kind(
            Kind::object(Collection::from_parts(
                vec![("a".into(), Kind::integer())],
                Kind::bytes(),
            )),
            Kind::object(Collection::any()),
        ),
    };

    let merged = state.clone().merge(state.clone());

    assert_eq!(merged.local, state.local);
    assert_eq!(merged.external.target(), state.external.target());
    assert_eq!(
        merged.external.metadata_kind(),
        state.external.metadata_kind()
    );
}

#[test]
fn variables_can_be_changed_in_place_and_removed() {
    let mut this = env(TypeDef::bytes());
    let other = this.clone();

    this.variable_mut(&Ident::new("bar")).unwrap().value = Some(Value::from(7));
    assert_eq!(
        this.variable(&Ident::new("bar")),
        Some(&details(TypeDef::bytes(), Some(Value::from(7))))
    );
    assert!(this.variable_mut(&Ident::new("nope")).is_none());

    // The clone keeps what it had.
    assert_eq!(other, env(TypeDef::bytes()));
    assert!(!this.bindings.ptr_eq(&other.bindings));

    assert_eq!(
        this.remove_variable(&Ident::new("bar")),
        Some(details(TypeDef::bytes(), Some(Value::from(7))))
    );
    assert_eq!(this.remove_variable(&Ident::new("bar")), None);
    assert!(this.variable(&Ident::new("bar")).is_none());
    assert_ne!(this, other);
}

#[test]
fn each_variable_is_named_once() {
    let mut names: Vec<String> = env(TypeDef::null())
        .variable_idents()
        .iter()
        .map(|ident| ident.as_str().to_string())
        .collect();
    names.sort();
    assert_eq!(names, ["bar", "foo"]);
}

#[test]
fn equal_environments_may_list_variables_in_any_order() {
    let mut one = LocalEnv::default();
    one.insert_variable(Ident::new("a"), details(TypeDef::null(), None));
    one.insert_variable(Ident::new("b"), details(TypeDef::bytes(), None));
    let mut two = LocalEnv::default();
    two.insert_variable(Ident::new("b"), details(TypeDef::bytes(), None));
    two.insert_variable(Ident::new("a"), details(TypeDef::null(), None));
    assert_eq!(one, two);

    two.insert_variable(Ident::new("a"), details(TypeDef::bytes(), None));
    assert_ne!(one, two);
}

#[test]
fn merged_values_are_kept_if_they_are_equal() {
    let known = |value: Option<Value>| {
        let mut env = LocalEnv::default();
        env.insert_variable(Ident::new("x"), details(TypeDef::integer(), value));
        env
    };
    let value_of = |env: LocalEnv| env.variable(&Ident::new("x")).unwrap().value.clone();

    let one = known(Some(Value::from(1)));
    assert_eq!(
        value_of(one.clone().merge(known(Some(Value::from(1))))),
        Some(Value::from(1))
    );
    assert_eq!(value_of(one.clone().merge(known(Some(Value::from(2))))), None);
    assert_eq!(value_of(one.clone().merge(known(None))), None);
    assert_eq!(value_of(known(None).merge(one)), None);
}

#[test]
fn merging_does_not_depend_on_the_order() {
    let one = env(TypeDef::bytes());
    let mut two = env(TypeDef::integer());
    two.insert_variable(Ident::new("only"), details(TypeDef::null(), None));

    assert_eq!(one.clone().merge(two.clone()), two.merge(one));
}

#[test]
fn a_child_scope_that_lacks_a_variable_leaves_it_alone() {
    let this = env(TypeDef::bytes());
    let mut child = this.clone();
    child.remove_variable(&Ident::new("foo"));
    child.insert_variable(Ident::new("bar"), details(TypeDef::null(), None));

    let applied = this.clone().apply_child_scope(child);
    assert_eq!(
        applied.variable(&Ident::new("foo")),
        this.variable(&Ident::new("foo"))
    );
    assert_eq!(
        applied.variable(&Ident::new("bar")).unwrap().type_def,
        TypeDef::null()
    );
}

#[test]
fn fallibility_and_purity_are_merged() {
    let plain = TypeDef::integer();
    assert!(plain.is_infallible());
    assert!(plain.is_pure());

    let merged = plain.clone().fallible().union(TypeDef::bytes());
    assert!(!merged.is_infallible());
    assert!(merged.is_pure());
    assert_eq!(merged, TypeDef::bytes().or_integer().fallible());

    let merged = plain.union(TypeDef::bytes().impure());
    assert!(merged.is_infallible());
    assert!(!merged.is_pure());
}

#[test]
fn the_external_environment_starts_as_any_object() {
    let external = ExternalEnv::default();
    for prefix in [PathPrefix::Event, PathPrefix::Metadata] {
        assert_eq!(external.kind(prefix), Kind::object(Collection::any()));
    }
    assert_eq!(external.target().value, None);
    assert_eq!(external.target_kind(), external.metadata_kind());
}

#[test]
fn the_external_environment_can_be_changed() {
    let mut external = ExternalEnv::new_with_kind(Kind::bytes(), Kind::null());
    assert_eq!(external.kind(PathPrefix::Event), Kind::bytes());
    assert_eq!(external.kind(PathPrefix::Metadata), Kind::null());

    external.target_mut().value = Some(Value::from(true));
    assert_eq!(
        external.target(),
        &details(TypeDef::bytes(), Some(Value::from(true)))
    );

    external.update_target(details(TypeDef::integer(), None));
    assert_eq!(external.target_kind(), &Kind::integer());
    assert_eq!(external.metadata_kind(), &Kind::null());

    external.update_metadata(Kind::boolean());
    assert_eq!(external.metadata_kind(), &Kind::boolean());
    *external.metadata_kind_mut() = Kind::float();
    assert_eq!(external.metadata_kind(), &Kind::float());
    assert_eq!(external.target_kind(), &Kind::integer());
}

#[test]
fn external_environments_are_merged() {
    let one = ExternalEnv::new_with_kind(Kind::bytes(), Kind::null());
    let two = ExternalEnv::new_with_kind(Kind::integer(), Kind::null());
    let merged = one.merge(two);

    assert_eq!(merged.target_kind(), &Kind::bytes().union(&Kind::integer()));
    assert_eq!(merged.metadata_kind(), &Kind::null());
}

#[test]
fn type_info_keeps_the_state_when_the_result_is_mapped() {
    let state = TypeState {
        local: env(TypeDef::bytes()),
        external: ExternalEnv::default(),
    };
    let info = TypeInfo::new(&state, TypeDef::null()).map_result(TypeDef::or_integer);

    assert_eq!(info.result, TypeDef::null().or_integer());
    assert_eq!(info.state.local, state.local);

    let info = TypeInfo::new(state.clone(), TypeDef::bytes());
    assert_eq!(info.clone().state.local, state.local);
    assert_eq!(info.result, TypeDef::bytes());
}

#[test]
fn runtime_variables() {
    let x = Ident::new("x");
    let mut state = RuntimeState::default();
    assert!(state.is_empty());
    assert!(state.variable(&x).is_none());

    state.insert_variable(Ident::new("x"), Value::from(1));
    assert!(!state.is_empty());
    assert_eq!(state.variable(&x), Some(&Value::from(1)));

    *state.variable_mut(&x).unwrap() = Value::from(2);
    assert_eq!(state.variable(&x), Some(&Value::from(2)));
    assert!(state.variable_mut(&Ident::new("y")).is_none());

    state.remove_variable(&x);
    assert!(state.is_empty());

    state.insert_variable(Ident::new("x"), Value::from(3));
    state.clear();
    assert!(state.is_empty());
}

#[test]
fn a_swapped_variable_can_be_put_back() {
    let mut state = RuntimeState::default();
    assert_eq!(state.swap_variable(Ident::new("x"), Value::from(1)), None);
    assert_eq!(
        state.swap_variable(Ident::new("x"), Value::from(2)),
        Some(Value::from(1))
    );
    assert_eq!(
        state.swap_variable(Ident::new("x"), Value::from(1)),
        Some(Value::from(2))
    );
    assert_eq!(state.variable(&Ident::new("x")), Some(&Value::from(1)));
}
