//! What holds of states, queries and deletions taken together.
use crate::compiler::context;
use crate::compiler::context::ContextModel;
use crate::compiler::expression::error::{ErrorModel, Outcome};
use crate::compiler::expression::query;
use crate::compiler::expression::query::{Query, Target};
use crate::compiler::state;
use crate::compiler::state::{ExternalModel, TypeInfo, TypeState, TypeStateModel};
use crate::compiler::type_def;
use crate::compiler::type_def::{Details, DetailsModel, Fallibility, Purity, TypeDefModel};
use crate::kind::of_value;
use crate::kind::remove_exactness;
use crate::kind::remove_soundness;
use crate::kind::shape;
use crate::kind::shape::{Place, Shape};
use crate::kind::soundness;
use crate::kind::types::{Type, Types};
use crate::path::{PathPrefix, Step, TargetPath};
use crate::value;
use crate::value::{Value, ValueModel};
use vstd::prelude::*;

verus! {

/// A type that is merged with itself stays what it is.
pub proof fn type_def_merge_is_idempotent(type_def: TypeDefModel)
    ensures
        type_def.or(type_def) == type_def,
{
    assert(shape::either(type_def.kind, type_def.kind) =~= type_def.kind);
    assert(shape::either(type_def.returns, type_def.returns) =~= type_def.returns);
}

/// Details that are merged with themselves stay what they are.
pub proof fn details_merge_is_idempotent(details: DetailsModel)
    ensures
        details.or(details) == details,
{
    type_def_merge_is_idempotent(details.type_def);
}

/// Bindings that are merged with themselves stay what they are.
pub proof fn merge_is_idempotent(bindings: Map<Seq<char>, DetailsModel>)
    ensures
        state::merged(bindings, bindings) == bindings,
{
    assert forall|name: Seq<char>| bindings.contains_key(name) implies #[trigger] state::merged(
        bindings,
        bindings,
    )[name] == bindings[name] by {
        details_merge_is_idempotent(bindings[name]);
    }
    assert(state::merged(bindings, bindings) =~= bindings);
}

/// What is known of the event and its metadata stays what it is when it is merged with itself.
pub proof fn external_merge_is_idempotent(external: ExternalModel)
    ensures
        external.or(external) == external,
{
    details_merge_is_idempotent(external.target);
    assert(shape::either(external.metadata, external.metadata) =~= external.metadata);
}

/// A state that is merged with itself stays what it is.
pub proof fn type_state_merge_is_idempotent(state: TypeStateModel)
    ensures
        state.or(state) == state,
{
    merge_is_idempotent(state.local);
    external_merge_is_idempotent(state.external);
}

/// It does not matter which of two types is merged with the other.
pub proof fn type_def_merge_is_commutative(a: TypeDefModel, b: TypeDefModel)
    ensures
        a.or(b) == b.or(a),
{
    assert(shape::either(a.kind, b.kind) =~= shape::either(b.kind, a.kind));
    assert(shape::either(a.returns, b.returns) =~= shape::either(b.returns, a.returns));
}

/// It does not matter which of two states is merged with the other.
pub proof fn type_state_merge_is_commutative(a: TypeStateModel, b: TypeStateModel)
    ensures
        a.or(b) == b.or(a),
{
    assert forall|name: Seq<char>|
        a.local.contains_key(name) && b.local.contains_key(name) implies #[trigger] a.local[name].or(
        b.local[name],
    ) == b.local[name].or(a.local[name]) by {
        type_def_merge_is_commutative(a.local[name].type_def, b.local[name].type_def);
    }
    assert(state::merged(a.local, b.local) =~= state::merged(b.local, a.local));
    type_def_merge_is_commutative(a.external.target.type_def, b.external.target.type_def);
    assert(shape::either(a.external.metadata, b.external.metadata) =~= shape::either(
        b.external.metadata,
        a.external.metadata,
    ));
}

/// When branches meet, a variable may have any value that it may have in either branch.
pub proof fn merged_variable_admits_either(
    a: Map<Seq<char>, DetailsModel>,
    b: Map<Seq<char>, DetailsModel>,
    name: Seq<char>,
    value: ValueModel,
)
    requires
        ({
            ||| a.contains_key(name) && soundness::admits(a[name].type_def.kind, value)
            ||| b.contains_key(name) && soundness::admits(b[name].type_def.kind, value)
        }),
    ensures
        state::merged(a, b).contains_key(name),
        soundness::admits(state::merged(a, b)[name].type_def.kind, value),
{
    if a.contains_key(name) && b.contains_key(name) {
        soundness::union_admits_either(a[name].type_def.kind, b[name].type_def.kind, value);
    }
}

/// When branches meet, the value of a variable is known only if it is the same one in each branch
/// that binds the variable.
pub proof fn merged_value_is_known_in_both(
    a: Map<Seq<char>, DetailsModel>,
    b: Map<Seq<char>, DetailsModel>,
    name: Seq<char>,
    value: ValueModel,
)
    requires
        state::merged(a, b).contains_key(name),
        state::merged(a, b)[name].value == Some(value),
    ensures
        a.contains_key(name) ==> a[name].value == Some(value),
        b.contains_key(name) ==> b[name].value == Some(value),
{
}

/// When branches meet, the event and its metadata may be any that they may be in either branch.
pub proof fn merged_external_admits_either(
    a: ExternalModel,
    b: ExternalModel,
    prefix: PathPrefix,
    value: ValueModel,
)
    requires
        soundness::admits(a.kind(prefix), value) || soundness::admits(b.kind(prefix), value),
    ensures
        soundness::admits(a.or(b).kind(prefix), value),
{
    soundness::union_admits_either(a.kind(prefix), b.kind(prefix), value);
}

/// Whether an expression may fail, where it consists of two: it cannot if neither can, and always
/// does if one of them always does.
pub proof fn a_whole_fails_if_a_part_does(a: Fallibility, b: Fallibility)
    ensures
        a.or(b) == Fallibility::CannotFail <==> a == Fallibility::CannotFail && b
            == Fallibility::CannotFail,
        a.or(b) == Fallibility::AlwaysFails <==> a == Fallibility::AlwaysFails || b
            == Fallibility::AlwaysFails,
{
}

/// Whether an expression has an effect, where it consists of two: it has none if neither has one.
pub proof fn a_whole_has_an_effect_if_a_part_does(a: Purity, b: Purity)
    ensures
        a.or(b) == Purity::Pure <==> a == Purity::Pure && b == Purity::Pure,
{
}

/// What is known of a result that comes from one of two expressions is no more and no less than what
/// is known of either: a type may be found at a place if and only if it may be found there in one of
/// the two.
pub proof fn a_merged_type_is_the_least_one(
    a: TypeDefModel,
    b: TypeDefModel,
    at: Seq<Place>,
    t: Type,
)
    ensures
        (a.or(b).kind)(at).has(t) <==> (a.kind)(at).has(t) || (b.kind)(at).has(t),
        (a.or(b).returns)(at).has(t) <==> (a.returns)(at).has(t) || (b.returns)(at).has(t),
        a.or(b).fallibility == Fallibility::CannotFail <==> a.fallibility
            == Fallibility::CannotFail && b.fallibility == Fallibility::CannotFail,
        a.or(b).fallibility == Fallibility::AlwaysFails <==> a.fallibility
            == Fallibility::AlwaysFails || b.fallibility == Fallibility::AlwaysFails,
        a.or(b).purity == Purity::Pure <==> a.purity == Purity::Pure && b.purity == Purity::Pure,
{
}

/// What is known when details are merged: the value if and only if both know the same one, and of
/// the type what is known of either.
pub proof fn merged_details_are_the_least_ones(
    a: DetailsModel,
    b: DetailsModel,
    at: Seq<Place>,
    t: Type,
)
    ensures
        a.value == b.value ==> a.or(b).value == a.value,
        a.value != b.value ==> a.or(b).value is None,
        (a.or(b).type_def.kind)(at).has(t) <==> (a.type_def.kind)(at).has(t) || (b.type_def.kind)(
            at,
        ).has(t),
        (a.or(b).type_def.returns)(at).has(t) <==> (a.type_def.returns)(at).has(t) || (
        b.type_def.returns)(at).has(t),
        a.or(b).type_def.fallibility == a.type_def.fallibility.or(b.type_def.fallibility),
        a.or(b).type_def.purity == a.type_def.purity.or(b.type_def.purity),
{
}

/// When branches meet, what is known of a variable is what is known of it in the branches that bind
/// it, and no other variable is known.
pub proof fn merged_bindings_are_the_least_ones(
    a: Map<Seq<char>, DetailsModel>,
    b: Map<Seq<char>, DetailsModel>,
    name: Seq<char>,
    at: Seq<Place>,
    t: Type,
)
    ensures
        state::merged(a, b).contains_key(name) <==> a.contains_key(name) || b.contains_key(name),
        a.contains_key(name) && !b.contains_key(name) ==> state::merged(a, b)[name] == a[name],
        b.contains_key(name) && !a.contains_key(name) ==> state::merged(a, b)[name] == b[name],
        a.contains_key(name) && b.contains_key(name) ==> {
            let both = state::merged(a, b)[name];
            &&& (both.type_def.kind)(at).has(t) <==> (a[name].type_def.kind)(at).has(t) || (
            b[name].type_def.kind)(at).has(t)
            &&& (both.type_def.returns)(at).has(t) <==> (a[name].type_def.returns)(at).has(t) || (
            b[name].type_def.returns)(at).has(t)
            &&& both.type_def.fallibility == a[name].type_def.fallibility.or(
                b[name].type_def.fallibility,
            )
            &&& both.type_def.purity == a[name].type_def.purity.or(b[name].type_def.purity)
            &&& a[name].value == b[name].value ==> both.value == a[name].value
            &&& a[name].value != b[name].value ==> both.value is None
        },
{
    if a.contains_key(name) && b.contains_key(name) {
        merged_details_are_the_least_ones(a[name], b[name], at, t);
    }
}

/// When branches meet, what is known of the event and its metadata is what is known in either
/// branch, and no more is lost: a type may be found at a place if and only if it may be found there
/// in one of the branches.
pub proof fn merged_external_is_the_least_one(
    a: ExternalModel,
    b: ExternalModel,
    prefix: PathPrefix,
    at: Seq<Place>,
    t: Type,
)
    ensures
        (a.or(b).kind(prefix))(at).has(t) <==> (a.kind(prefix))(at).has(t) || (b.kind(prefix))(
            at,
        ).has(t),
        (a.or(b).metadata)(at).has(t) <==> (a.metadata)(at).has(t) || (b.metadata)(at).has(t),
        (a.or(b).target.type_def.kind)(at).has(t) <==> (a.target.type_def.kind)(at).has(t) || (
        b.target.type_def.kind)(at).has(t),
        (a.or(b).target.type_def.returns)(at).has(t) <==> (a.target.type_def.returns)(at).has(t)
            || (b.target.type_def.returns)(at).has(t),
        a.or(b).target.type_def.fallibility == a.target.type_def.fallibility.or(
            b.target.type_def.fallibility,
        ),
        a.or(b).target.type_def.purity == a.target.type_def.purity.or(b.target.type_def.purity),
        a.target.value == b.target.value ==> a.or(b).target.value == a.target.value,
        a.target.value != b.target.value ==> a.or(b).target.value is None,
{
    merged_details_are_the_least_ones(a.target, b.target, at, t);
}

/// A kind that holds of the event or the metadata in both branches holds of it when they meet.
pub proof fn what_covers_both_branches_covers_the_merged_kind(
    a: ExternalModel,
    b: ExternalModel,
    prefix: PathPrefix,
    shape: Shape,
)
    requires
        forall|at: Seq<Place>, t: Type|
            (a.kind(prefix)(at).has(t) || b.kind(prefix)(at).has(t)) ==> #[trigger] shape(at).has(
                t,
            ),
    ensures
        forall|at: Seq<Place>, t: Type| #[trigger]
            a.or(b).kind(prefix)(at).has(t) ==> shape(at).has(t),
{
    assert forall|at: Seq<Place>, t: Type| #[trigger]
        a.or(b).kind(prefix)(at).has(t) implies shape(at).has(t) by {
        merged_external_is_the_least_one(a, b, prefix, at, t);
    }
}

/// What is known of an expression of which only the kind is given: it cannot fail, has no effect, and
/// does not return early. With another kind, the rest stays as it was.
pub proof fn a_kind_alone_says_nothing_else(
    kind: Shape,
    type_def: TypeDefModel,
    path: Seq<Step>,
    at: Seq<Place>,
)
    ensures
        TypeDefModel::plain(kind).kind == kind,
        TypeDefModel::plain(kind).fallibility == Fallibility::CannotFail,
        TypeDefModel::plain(kind).purity == Purity::Pure,
        (TypeDefModel::plain(kind).returns)(at) == Types::none(),
        type_def.with_kind(kind).kind == kind,
        type_def.with_kind(kind).fallibility == type_def.fallibility,
        type_def.with_kind(kind).purity == type_def.purity,
        type_def.with_kind(kind).returns == type_def.returns,
        type_def.at_path(path).kind == shape::at_path(type_def.kind, path),
        type_def.at_path(path).fallibility == type_def.fallibility,
        type_def.at_path(path).purity == type_def.purity,
        type_def.at_path(path).returns == type_def.returns,
{
}

/// What is known of an event and metadata of which the kinds are given, and where it is found.
pub proof fn what_kinds_say_of_the_event(
    target: Shape,
    metadata: Shape,
    external: ExternalModel,
    at: Seq<Place>,
)
    ensures
        ({
            let known = ExternalModel::of_kinds(target, metadata);
            &&& known.target.type_def.kind == target
            &&& known.target.type_def.fallibility == Fallibility::CannotFail
            &&& known.target.type_def.purity == Purity::Pure
            &&& (known.target.type_def.returns)(at) == Types::none()
            &&& known.target.value is None
            &&& known.metadata == metadata
        }),
        external.kind(PathPrefix::Event) == external.target.type_def.kind,
        external.kind(PathPrefix::Metadata) == external.metadata,
{
}

/// Of an object of which nothing is known, each field may be anything, or missing.
pub proof fn of_any_object_nothing_is_known(name: Seq<char>, i: nat, at: Seq<Place>)
    ensures
        state::any_object()(Seq::empty()) == (Types { object: true, ..Types::none() }),
        state::any_object()(seq![Place::Field(name)] + at) == Types::all(),
        state::any_object()(seq![Place::Item(i)] + at) == Types::none(),
{
    assert((seq![Place::Field(name)] + at)[0] == Place::Field(name));
    assert((seq![Place::Item(i)] + at)[0] == Place::Item(i));
}

/// What is known of variables, and their values, are what is held under their names.
pub proof fn what_is_held_under_a_name(
    bindings: Map<Seq<char>, Details>,
    variables: Map<Seq<char>, Value>,
    name: Seq<char>,
)
    ensures
        state::bindings_model(bindings).contains_key(name) <==> bindings.contains_key(name),
        bindings.contains_key(name) ==> state::bindings_model(bindings)[name] == bindings[name]@,
        state::values_model(variables).contains_key(name) <==> variables.contains_key(name),
        variables.contains_key(name) ==> state::values_model(variables)[name] == variables[name]@,
{
}

/// What states, details and types say follows from how they are held.
pub proof fn what_is_held_is_what_is_known(state: TypeState, info: TypeInfo, details: Details)
    ensures
        state@.local == state.local@,
        state@.external == state.external@,
        info@.state == info.state@,
        info@.result == info.result@,
        details@.type_def == details.type_def@,
        details@.value == match details.value {
            Some(value) => Some(value@),
            None => None,
        },
        type_def::value_model(details.value) == match details.value {
            Some(value) => Some(value@),
            None => None,
        },
{
}

/// The states of two branches are merged part by part.
pub proof fn merged_states_are_merged_in_parts(a: TypeStateModel, b: TypeStateModel)
    ensures
        a.or(b).local == state::merged(a.local, b.local),
        a.or(b).external == a.external.or(b.external),
{
}

/// A child scope that changed nothing leaves its parent as it is.
pub proof fn an_idle_child_changes_nothing(parent: Map<Seq<char>, DetailsModel>)
    ensures
        state::after_child(parent, parent) == parent,
{
    assert(state::after_child(parent, parent) =~= parent);
}

/// A child scope neither adds variables to its parent nor takes any away. What it knows of the
/// parent's variables is taken over, and variables that it does not bind stay as they were.
pub proof fn a_child_changes_only_variables_of_its_parent(
    parent: Map<Seq<char>, DetailsModel>,
    child: Map<Seq<char>, DetailsModel>,
    name: Seq<char>,
)
    ensures
        state::after_child(parent, child).dom() == parent.dom(),
        parent.contains_key(name) && child.contains_key(name) ==> state::after_child(
            parent,
            child,
        )[name] == child[name],
        parent.contains_key(name) && !child.contains_key(name) ==> state::after_child(
            parent,
            child,
        )[name] == parent[name],
{
    assert(state::after_child(parent, child).dom() =~= parent.dom());
}

/// Swapping in a value for a variable can be undone: by swapping the previous value in again, or,
/// where there was none, by forgetting the variable.
pub proof fn a_swap_can_be_undone(
    variables: Map<Seq<char>, ValueModel>,
    name: Seq<char>,
    value: ValueModel,
)
    ensures
        variables.contains_key(name) ==> variables.insert(name, value).insert(
            name,
            variables[name],
        ) == variables,
        !variables.contains_key(name) ==> variables.insert(name, value).remove(name) == variables,
{
    if variables.contains_key(name) {
        assert(variables.insert(name, value).insert(name, variables[name]) =~= variables);
    } else {
        assert(variables.insert(name, value).remove(name) =~= variables);
    }
}

/// Whether a query looks into a variable, or into the event or its metadata.
pub open spec fn looks_into_a_place(query: Query) -> bool {
    query.looks_into() is Internal || query.looks_into() is External
}

/// A query of a variable, of the event or of the metadata has one outcome, which is a value, and
/// changes nothing: however it is evaluated, the value is the same.
pub proof fn a_query_of_a_place_has_one_outcome(
    query: Query,
    before: ContextModel,
    after: (ContextModel, ContextModel),
    outcome: (Outcome, Outcome),
)
    requires
        looks_into_a_place(query),
        query::query_resolves(query, before, after.0, outcome.0),
        query::query_resolves(query, before, after.1, outcome.1),
    ensures
        outcome.0 == outcome.1,
        outcome.0 is Ok,
        after.0 == before,
        after.1 == before,
{
}

/// A query with the root path gives the whole value of a variable, and null if it has none.
pub proof fn a_root_query_gives_the_whole_variable(
    query: Query,
    before: ContextModel,
    after: ContextModel,
    outcome: Outcome,
)
    requires
        query.looks_into() is Internal,
        query.steps().len() == 0,
        query::query_resolves(query, before, after, outcome),
    ensures
        outcome == Ok::<ValueModel, ErrorModel>(
            query.looks_into()->Internal_0.value(before.variables),
        ),
{
}

/// A query of a variable whose value the compiler knows gives, when the program runs, what the
/// compiler takes it to give.
pub proof fn a_constant_query_gives_the_constant(
    query: Query,
    state: TypeStateModel,
    before: ContextModel,
    after: ContextModel,
    outcome: Outcome,
    constant: ValueModel,
)
    requires
        query.looks_into() matches Target::Internal(variable) ==> {
            &&& before.variables.contains_key(variable.name())
            &&& variable.constant_in(state) == Some(before.variables[variable.name()])
        },
        query::query_constant(query, state) == Some(constant),
        query::query_resolves(query, before, after, outcome),
    ensures
        outcome == Ok::<ValueModel, ErrorModel>(constant),
{
}

/// Whether what is known holds: the event, the metadata and the variables that are bound are of the
/// kinds that they are known to be of.
pub open spec fn holds_in(
    state: TypeStateModel,
    event: ValueModel,
    metadata: ValueModel,
    running: ContextModel,
) -> bool {
    &&& soundness::admits(state.external.kind(PathPrefix::Event), event)
    &&& soundness::admits(state.external.kind(PathPrefix::Metadata), metadata)
    &&& forall|path: TargetPath| #[trigger]
        (running.found)(path) == context::found_in(event, metadata, path)
    &&& forall|name: Seq<char>| #[trigger]
        state.local.contains_key(name) ==> running.variables.contains_key(name)
            && soundness::admits(state.local[name].type_def.kind, running.variables[name])
}

/// A missing value that is read as null is allowed where a missing value is.
pub(crate) proof fn lemma_null_if_missing(shape: Shape, found: Option<ValueModel>)
    requires
        soundness::admits_found(shape, found),
    ensures
        soundness::admits(shape::null_if_missing(shape), query::or_null(found)),
{
    let read = query::or_null(found);
    let part = of_value::shape_of(read);
    let after = shape::null_if_missing(shape);
    assert forall|at: Seq<Place>| (#[trigger] part(at)).within(after(at)) by {
        if at.len() == 0 {
            assert(at =~= Seq::<Place>::empty());
        }
        if let Some(value) = found {
            assert(of_value::shape_of(value)(at).within(shape(at)));
        }
    }
}

/// What a query of a bound variable, of the event or of the metadata gives is of the kind that the
/// compiler takes it to be of, if what the compiler knows beforehand holds. A missing value is read
/// as null. What is known stays the same, and a query of the event or its metadata cannot fail.
pub proof fn a_query_gives_what_its_type_says(
    query: Query,
    state: TypeStateModel,
    event: ValueModel,
    metadata: ValueModel,
    before: ContextModel,
    after: ContextModel,
    outcome: Outcome,
)
    requires
        looks_into_a_place(query),
        query.looks_into() matches Target::Internal(variable) ==> state.local.contains_key(
            variable.name(),
        ),
        holds_in(state, event, metadata, before),
        query::query_resolves(query, before, after, outcome),
    ensures
        query::query_typed(query, state).state == state,
        query.looks_into() is External ==> query::query_typed(query, state).result.fallibility
            == Fallibility::CannotFail,
        outcome matches Ok(value) && soundness::admits(
            shape::null_if_missing(query::query_typed(query, state).result.kind),
            value,
        ),
{
    let path = query.steps();
    let kind = query::query_typed(query, state).result.kind;
    match query.looks_into() {
        Target::External(prefix) => {
            let place = match prefix {
                PathPrefix::Event => event,
                PathPrefix::Metadata => metadata,
            };
            soundness::at_path_is_sound(state.external.kind(prefix), place, path);
            lemma_null_if_missing(kind, value::lookup(place, path));
            assert((before.found)(TargetPath { prefix, path }) == value::lookup(place, path));
        },
        Target::Internal(variable) => {
            let name = variable.name();
            assert(state.local.contains_key(name));
            soundness::at_path_is_sound(
                state.local[name].type_def.kind,
                before.variables[name],
                path,
            );
            lemma_null_if_missing(kind, value::lookup(before.variables[name], path));
        },
        _ => {},
    }
}

/// What a query of a call or of a container gives is of the kind that the compiler takes it to be
/// of, if the result of the call or of the container is.
pub proof fn a_query_of_a_result_gives_what_its_type_says(
    query: Query,
    state: TypeStateModel,
    before: ContextModel,
    after: ContextModel,
    value: ValueModel,
)
    requires
        !looks_into_a_place(query),
        forall|result: ValueModel|
            query::target_resolves(query.looks_into(), before, after, Ok(result))
                ==> #[trigger] soundness::admits(
                query::target_typed(query.looks_into(), state).result.kind,
                result,
            ),
        query::query_resolves(query, before, after, Ok(value)),
    ensures
        query::query_typed(query, state).state == query::target_typed(
            query.looks_into(),
            state,
        ).state,
        soundness::admits(
            shape::null_if_missing(query::query_typed(query, state).result.kind),
            value,
        ),
{
    let path = query.steps();
    let whole: Outcome = Ok(value);
    let outcome = choose|outcome: Outcome|
        whole == #[trigger] query::found_in_result(outcome, path) && query::target_resolves(
            query.looks_into(),
            before,
            after,
            outcome,
        );
    assert(whole == query::found_in_result(outcome, path));
    let result = outcome->Ok_0;
    let kind = query::target_typed(query.looks_into(), state).result.kind;
    assert(soundness::admits(kind, result));
    soundness::at_path_is_sound(kind, result, path);
    lemma_null_if_missing(shape::at_path(kind, path), value::lookup(result, path));
}

/// After a deletion from the event or its metadata, what is known holds of what is left. Nothing is
/// known any more of the value of an event from which something was deleted.
pub proof fn a_deletion_leaves_what_is_known_true(
    prefix: PathPrefix,
    path: Seq<Step>,
    external: ExternalModel,
    compact: bool,
    value: ValueModel,
)
    requires
        soundness::admits(external.kind(prefix), value),
    ensures
        soundness::admits(
            query::after_deletion(Target::External(prefix), path, external, compact).kind(prefix),
            remove_soundness::removed(value, path, compact),
        ),
        prefix == PathPrefix::Event ==> query::after_deletion(
            Target::External(prefix),
            path,
            external,
            compact,
        ).target.value is None,
{
    remove_soundness::remove_is_sound(external.kind(prefix), value, path, compact);
}

/// A deletion from the event or its metadata is a removal at the path of the query from their kind.
/// Nothing else that is known of the event changes, but for its value, which is no longer known.
pub proof fn a_deletion_is_a_removal_from_the_kind(
    path: Seq<Step>,
    external: ExternalModel,
    compact: bool,
)
    ensures
        ({
            let after = query::after_deletion(
                Target::External(PathPrefix::Event),
                path,
                external,
                compact,
            );
            &&& after.target.type_def.kind == shape::remove(
                external.target.type_def.kind,
                path,
                compact,
            )
            &&& after.target.type_def.fallibility == external.target.type_def.fallibility
            &&& after.target.type_def.purity == external.target.type_def.purity
            &&& after.target.type_def.returns == external.target.type_def.returns
            &&& after.target.value is None
            &&& after.metadata == external.metadata
        }),
        ({
            let after = query::after_deletion(
                Target::External(PathPrefix::Metadata),
                path,
                external,
                compact,
            );
            &&& after.metadata == shape::remove(external.metadata, path, compact)
            &&& after.target == external.target
        }),
{
}

/// With compaction, an object in the event or its metadata that has another field each time stays
/// where it is when something inside it is deleted, and what is known of the other field stays.
pub proof fn a_deletion_leaves_an_object_with_another_field(
    prefix: PathPrefix,
    external: ExternalModel,
    compact: bool,
    name: Seq<char>,
    inner: Seq<char>,
    rest: Seq<Step>,
    sibling: Seq<char>,
    at: Seq<Place>,
)
    requires
        sibling != inner,
        !external.kind(prefix)(seq![Place::Field(name)]).array,
        !external.kind(prefix)(seq![Place::Field(name), Place::Field(sibling)]).undefined,
    ensures
        ({
            let path = seq![Step::Field(name), Step::Field(inner)] + rest;
            let before = external.kind(prefix);
            let after = query::after_deletion(
                Target::External(prefix),
                path,
                external,
                compact,
            ).kind(prefix);
            &&& after(seq![Place::Field(name)]) == before(seq![Place::Field(name)])
            &&& after(seq![Place::Field(name), Place::Field(sibling)] + at) == before(
                seq![Place::Field(name), Place::Field(sibling)] + at,
            )
        }),
{
    remove_exactness::an_object_with_another_field_stays(
        external.kind(prefix),
        name,
        inner,
        rest,
        compact,
        sibling,
        at,
    );
}

/// A deletion from the event leaves the metadata alone, and the other way round. A deletion through
/// any other query changes nothing.
pub proof fn a_deletion_changes_nothing_else(
    target: Target,
    path: Seq<Step>,
    external: ExternalModel,
    compact: bool,
)
    ensures
        target != Target::External(PathPrefix::Event) ==> query::after_deletion(
            target,
            path,
            external,
            compact,
        ).target == external.target,
        target != Target::External(PathPrefix::Metadata) ==> query::after_deletion(
            target,
            path,
            external,
            compact,
        ).metadata == external.metadata,
        !(target is External) ==> query::after_deletion(target, path, external, compact)
            == external,
{
}

/// A path can be followed in two parts.
pub proof fn a_path_can_be_followed_in_two_parts(
    value: ValueModel,
    first: Seq<Step>,
    second: Seq<Step>,
)
    ensures
        value::lookup(value, first + second) == match value::lookup(value, first) {
            Some(found) => value::lookup(found, second),
            None => None,
        },
    decreases first.len(),
{
    if first.len() == 0 {
        assert(first + second =~= second);
    } else {
        assert((first + second)[0] == first[0]);
        assert((first + second).drop_first() =~= first.drop_first() + second);
        if let Some(next) = value::child(value, first[0]) {
            a_path_can_be_followed_in_two_parts(next, first.drop_first(), second);
        }
    }
}

/// The kind of what is found at a path can be had in two parts.
pub proof fn a_kind_can_be_found_in_two_parts(shape: Shape, first: Seq<Step>, second: Seq<Step>)
    ensures
        shape::at_path(shape, first + second) == shape::at_path(
            shape::at_path(shape, first),
            second,
        ),
    decreases first.len(),
{
    if first.len() == 0 {
        assert(first + second =~= second);
    } else {
        assert((first + second)[0] == first[0]);
        assert((first + second).drop_first() =~= first.drop_first() + second);
        a_kind_can_be_found_in_two_parts(
            shape::at_step(shape, first[0]),
            first.drop_first(),
            second,
        );
    }
}

} // verus!
