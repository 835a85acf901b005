//! Expressions give what their types say: a value of the kind that was worked out for them, and an
//! error only where they were said to be able to fail.
use crate::compiler::context::ContextModel;
use crate::compiler::expression;
use crate::compiler::expression::container;
use crate::compiler::expression::container::Container;
use crate::compiler::expression::error::{ErrorModel, Outcome};
use crate::compiler::expression::function_call::FunctionCall;
use crate::compiler::expression::laws as parts;
use crate::compiler::expression::query;
use crate::compiler::expression::query::{Query, Target};
use crate::compiler::expression::variable::Variable;
use crate::compiler::expression::Expr;
use crate::compiler::laws;
use crate::compiler::state::TypeStateModel;
use crate::compiler::type_def::{Fallibility, TypeDefModel};
use crate::kind::of_value;
use crate::kind::remove_soundness;
use crate::kind::shape;
use crate::kind::shape::{CollectionModel, Place, Shape};
use crate::kind::soundness;
use crate::kind::types::{Type, Types};
use crate::path::Step;
use crate::value;
use crate::value::{Value, ValueModel};
use vstd::prelude::*;

verus! {

/// Whether what is known holds of some event and metadata, and of the variables. The variables with
/// these names are known.
pub open spec fn is_true_of(
    state: TypeStateModel,
    names: Set<Seq<char>>,
    running: ContextModel,
) -> bool {
    &&& names.subset_of(state.local.dom())
    &&& exists|event: ValueModel, metadata: ValueModel| #[trigger]
        laws::holds_in(state, event, metadata, running)
}

/// Whether an expression that ends so is of this type. A value is of its kind, where null stands for
/// a missing value. It fails only if it can. A value that ends the program early is of the kind that
/// it returns.
pub open spec fn fits(type_def: TypeDefModel, outcome: Outcome) -> bool {
    match outcome {
        Ok(value) => soundness::admits(shape::null_if_missing(type_def.kind), value),
        Err(ErrorModel::Error(_)) => type_def.fallibility != Fallibility::CannotFail,
        Err(ErrorModel::Return(value)) => soundness::admits(type_def.returns, value),
        Err(ErrorModel::Abort(_)) => true,
    }
}

/// Whether an expression that mentions only variables with these names is always of its type, and
/// leaves what is known afterwards true.
pub open spec fn keeps_its_type(expr: Expr, names: Set<Seq<char>>) -> bool {
    forall|state: TypeStateModel, before: ContextModel, after: ContextModel, outcome: Outcome|
        #![trigger is_true_of(state, names, before), expression::expr_resolves(
            expr, before, after, outcome)]
        is_true_of(state, names, before) && expression::expr_resolves(expr, before, after, outcome)
            ==> {
            &&& fits(expression::expr_typed(expr, state).result, outcome)
            &&& outcome is Ok ==> is_true_of(
                expression::expr_typed(expr, state).state,
                names,
                after,
            )
        }
}

/// Where null stands for a missing value, a value is allowed that was allowed before.
proof fn lemma_read(shape: Shape, value: ValueModel)
    requires
        soundness::admits(shape, value),
    ensures
        soundness::admits(shape::null_if_missing(shape), value),
{
    let part = of_value::shape_of(value);
    let read = shape::null_if_missing(shape);
    assert forall|at: Seq<Place>| (#[trigger] part(at)).within(read(at)) by {
        assert(part(at).within(shape(at)));
        if at.len() == 0 {
            assert(at =~= Seq::<Place>::empty());
        }
    }
}

/// A value that stands for itself, and not for a missing one, is allowed as such.
proof fn lemma_not_missing(shape: Shape, value: ValueModel)
    requires
        soundness::admits(shape::null_if_missing(shape), value),
        !(value is Null) || !shape::top(shape).undefined,
    ensures
        soundness::admits(shape, value),
{
    let part = of_value::shape_of(value);
    let read = shape::null_if_missing(shape);
    assert forall|at: Seq<Place>| (#[trigger] part(at)).within(shape(at)) by {
        assert(part(at).within(read(at)));
        if at.len() == 0 {
            assert(at =~= Seq::<Place>::empty());
        }
    }
}

/// A literal is of its type.
pub proof fn a_literal_keeps_its_type(literal: Value, names: Set<Seq<char>>)
    ensures
        keeps_its_type(Expr::Literal(literal), names),
{
    lemma_read(of_value::shape_of(literal@), literal@);
}

/// A variable that is known is of its type.
pub proof fn a_variable_keeps_its_type(variable: Variable, names: Set<Seq<char>>)
    requires
        names.contains(variable.name()),
    ensures
        keeps_its_type(Expr::Variable(variable), names),
{
    let expr = Expr::Variable(variable);
    let name = variable.name();
    assert forall|state: TypeStateModel, before: ContextModel, after: ContextModel, outcome: Outcome|
        #![trigger is_true_of(state, names, before), expression::expr_resolves(
            expr, before, after, outcome)]
        is_true_of(state, names, before) && expression::expr_resolves(
            expr,
            before,
            after,
            outcome,
        ) implies fits(expression::expr_typed(expr, state).result, outcome) && (outcome is Ok
        ==> is_true_of(expression::expr_typed(expr, state).state, names, after)) by {
        let (event, metadata) = choose|event: ValueModel, metadata: ValueModel| #[trigger]
            laws::holds_in(state, event, metadata, before);
        assert(state.local.contains_key(name));
        lemma_read(state.local[name].type_def.kind, before.variables[name]);
    }
}

/// A query of the event or its metadata, or of a variable that is known, is of its type.
pub proof fn a_query_of_a_place_keeps_its_type(query: Query, names: Set<Seq<char>>)
    requires
        laws::looks_into_a_place(query),
        query.looks_into() matches Target::Internal(variable) ==> names.contains(variable.name()),
    ensures
        keeps_its_type(Expr::Query(Box::new(query)), names),
{
    let expr = Expr::Query(Box::new(query));
    assert forall|state: TypeStateModel, before: ContextModel, after: ContextModel, outcome: Outcome|
        #![trigger is_true_of(state, names, before), expression::expr_resolves(
            expr, before, after, outcome)]
        is_true_of(state, names, before) && expression::expr_resolves(
            expr,
            before,
            after,
            outcome,
        ) implies fits(expression::expr_typed(expr, state).result, outcome) && (outcome is Ok
        ==> is_true_of(expression::expr_typed(expr, state).state, names, after)) by {
        let (event, metadata) = choose|event: ValueModel, metadata: ValueModel| #[trigger]
            laws::holds_in(state, event, metadata, before);
        if let Target::Internal(variable) = query.looks_into() {
            assert(state.local.dom().contains(variable.name()));
        }
        laws::a_query_gives_what_its_type_says(
            query,
            state,
            event,
            metadata,
            before,
            after,
            outcome,
        );
    }
}

/// What a path finds in a result, or null, is of the kind that it finds in the kind of the result.
proof fn lemma_found_in_result(kind: Shape, result: ValueModel, path: Seq<Step>)
    requires
        soundness::admits(shape::null_if_missing(kind), result),
    ensures
        soundness::admits(
            shape::null_if_missing(shape::at_path(kind, path)),
            value::leaf(result, path),
        ),
{
    if result is Null && shape::top(kind).undefined {
        if path.len() > 0 {
            soundness::lemma_missing_stays_missing(kind, path);
            laws::lemma_null_if_missing(shape::at_path(kind, path), None);
        }
    } else {
        lemma_not_missing(kind, result);
        soundness::at_path_is_sound(kind, result, path);
        laws::lemma_null_if_missing(shape::at_path(kind, path), value::lookup(result, path));
    }
}

/// A query of a call is of its type if the call is.
pub proof fn a_query_of_a_call_keeps_its_type(
    query: Query,
    call: FunctionCall,
    names: Set<Seq<char>>,
)
    requires
        query.looks_into() == Target::FunctionCall(call),
        keeps_its_type(Expr::FunctionCall(call), names),
    ensures
        keeps_its_type(Expr::Query(Box::new(query)), names),
{
    let expr = Expr::Query(Box::new(query));
    let inner = Expr::FunctionCall(call);
    assert forall|state: TypeStateModel, before: ContextModel, after: ContextModel, outcome: Outcome|
        #![trigger is_true_of(state, names, before), expression::expr_resolves(
            expr, before, after, outcome)]
        is_true_of(state, names, before) && expression::expr_resolves(
            expr,
            before,
            after,
            outcome,
        ) implies fits(expression::expr_typed(expr, state).result, outcome) && (outcome is Ok
        ==> is_true_of(expression::expr_typed(expr, state).state, names, after)) by {
        parts::a_query_of_a_call_follows_its_path(query, call, before, after, outcome);
        let result = choose|result: Outcome|
            {
                &&& #[trigger] call.function().expression.resolves(before, after, result)
                &&& outcome == match result {
                    Ok(whole) => Ok::<ValueModel, ErrorModel>(
                        match value::lookup(whole, query.steps()) {
                            Some(found) => found,
                            None => ValueModel::Null,
                        },
                    ),
                    Err(error) => Err(error),
                }
            };
        assert(expression::expr_resolves(inner, before, after, result));
        if let Ok(whole) = result {
            lemma_found_in_result(
                expression::expr_typed(inner, state).result.kind,
                whole,
                query.steps(),
            );
        }
    }
}

/// A query of a container is of its type if the container is.
pub proof fn a_query_of_a_container_keeps_its_type(
    query: Query,
    container: Container,
    names: Set<Seq<char>>,
)
    requires
        query.looks_into() == Target::Container(container),
        keeps_its_type(Expr::Container(container), names),
    ensures
        keeps_its_type(Expr::Query(Box::new(query)), names),
{
    let expr = Expr::Query(Box::new(query));
    let inner = Expr::Container(container);
    assert forall|state: TypeStateModel, before: ContextModel, after: ContextModel, outcome: Outcome|
        #![trigger is_true_of(state, names, before), expression::expr_resolves(
            expr, before, after, outcome)]
        is_true_of(state, names, before) && expression::expr_resolves(
            expr,
            before,
            after,
            outcome,
        ) implies fits(expression::expr_typed(expr, state).result, outcome) && (outcome is Ok
        ==> is_true_of(expression::expr_typed(expr, state).state, names, after)) by {
        parts::a_query_of_a_container_follows_its_path(query, container, before, after, outcome);
        let result = choose|result: Outcome|
            {
                &&& #[trigger] container::container_resolves(container, before, after, result)
                &&& outcome == match result {
                    Ok(whole) => Ok::<ValueModel, ErrorModel>(
                        match value::lookup(whole, query.steps()) {
                            Some(found) => found,
                            None => ValueModel::Null,
                        },
                    ),
                    Err(error) => Err(error),
                }
            };
        assert(expression::expr_resolves(inner, before, after, result));
        if let Ok(whole) = result {
            lemma_found_in_result(
                expression::expr_typed(inner, state).result.kind,
                whole,
                query.steps(),
            );
        }
    }
}

/// What is known before each of several items.
spec fn known_before(items: Seq<Expr>, state: TypeStateModel) -> Seq<TypeStateModel> {
    Seq::new(
        items.len() + 1,
        |i: int| container::items_typed(items, i as nat, state).0,
    )
}

/// What is known holds before each item, and the values that the items gave are of their kinds.
proof fn lemma_items_keep_their_types(
    items: Seq<Expr>,
    names: Set<Seq<char>>,
    state: TypeStateModel,
    contexts: Seq<ContextModel>,
    values: Seq<ValueModel>,
    count: nat,
)
    requires
        forall|i: int| 0 <= i < items.len() ==> keeps_its_type(#[trigger] items[i], names),
        values.len() <= items.len(),
        contexts.len() == values.len() + 1,
        is_true_of(state, names, contexts[0]),
        forall|i: int|
            0 <= i < values.len() ==> expression::expr_resolves(
                items[i],
                contexts[i],
                contexts[i + 1],
                Ok(#[trigger] values[i]),
            ),
        count <= values.len(),
    ensures
        is_true_of(known_before(items, state)[count as int], names, contexts[count as int]),
        forall|i: int|
            0 <= i < count ==> soundness::admits(
                shape::null_if_missing(
                    expression::expr_typed(items[i], known_before(items, state)[i]).result.kind,
                ),
                #[trigger] values[i],
            ),
    decreases count,
{
    let states = known_before(items, state);
    assert(states[0] == state);
    if count > 0 {
        let last = count - 1;
        lemma_items_keep_their_types(items, names, state, contexts, values, (count - 1) as nat);
        assert(keeps_its_type(items[last], names));
        assert(expression::expr_resolves(
            items[last],
            contexts[last],
            contexts[last + 1],
            Ok(values[last]),
        ));
        assert(states[last + 1] == expression::expr_typed(items[last], states[last]).state);
        assert(fits(
            expression::expr_typed(items[last], states[last]).result,
            Ok::<ValueModel, ErrorModel>(values[last]),
        ));
    }
}

/// A container is of its type if its items are.
pub proof fn a_container_keeps_its_type(container: Container, names: Set<Seq<char>>)
    requires
        forall|i: int|
            0 <= i < container.items().len() ==> keeps_its_type(
                #[trigger] container.items()[i],
                names,
            ),
        container.names() matches Some(texts) ==> texts.len() == container.items().len(),
    ensures
        keeps_its_type(Expr::Container(container), names),
{
    let expr = Expr::Container(container);
    assert forall|state: TypeStateModel, before: ContextModel, after: ContextModel, outcome: Outcome|
        #![trigger is_true_of(state, names, before), expression::expr_resolves(
            expr, before, after, outcome)]
        is_true_of(state, names, before) && expression::expr_resolves(
            expr,
            before,
            after,
            outcome,
        ) implies fits(expression::expr_typed(expr, state).result, outcome) && (outcome is Ok
        ==> is_true_of(expression::expr_typed(expr, state).state, names, after)) by {
        lemma_container(container, names, state, before, after, outcome);
    }
}

proof fn lemma_container(
    container: Container,
    names: Set<Seq<char>>,
    state: TypeStateModel,
    before: ContextModel,
    after: ContextModel,
    outcome: Outcome,
)
    requires
        forall|i: int|
            0 <= i < container.items().len() ==> keeps_its_type(
                #[trigger] container.items()[i],
                names,
            ),
        container.names() matches Some(texts) ==> texts.len() == container.items().len(),
        is_true_of(state, names, before),
        container::container_resolves(container, before, after, outcome),
    ensures
        fits(container::container_typed(container, state).result, outcome),
        outcome is Ok ==> is_true_of(
            container::container_typed(container, state).state,
            names,
            after,
        ),
{
    let items = container.items();
    let states = known_before(items, state);
    let type_defs = container::items_typed(items, items.len(), state).1;
    let (contexts, values) = parts::lemma_run(container, before, after, outcome);
    assert(states[0] == state);
    assert forall|i: int| 0 <= i < items.len() implies #[trigger] states[i + 1]
        == expression::expr_typed(items[i], states[i]).state by {}
    parts::lemma_items_typed(items, items.len(), state, states);
    lemma_items_keep_their_types(items, names, state, contexts, values, values.len());
    match outcome {
        Ok(whole) => {
            assert forall|i: int| 0 <= i < items.len() implies soundness::admits(
                shape::null_if_missing((#[trigger] type_defs[i]).kind),
                values[i],
            ) by {
                assert(soundness::admits(
                    shape::null_if_missing(
                        expression::expr_typed(items[i], states[i]).result.kind,
                    ),
                    values[i],
                ));
            }
            lemma_made_of(container.names(), type_defs, values);
            lemma_read(container::container_type(container.names(), type_defs).kind, whole);
            assert(states[items.len() as int] == states.last());
        },
        Err(error) => {
            let k = values.len() as int;
            assert(keeps_its_type(items[k], names));
            assert(fits(
                expression::expr_typed(items[k], states[k]).result,
                Err::<ValueModel, ErrorModel>(error),
            ));
            assert(type_defs[k] == expression::expr_typed(items[k], states[k]).result);
            parts::lemma_combined(type_defs, Seq::empty(), Type::Null);
            if let ErrorModel::Return(value) = error {
                let part = of_value::shape_of(value);
                let all = container::combined(type_defs).returns;
                assert forall|at: Seq<Place>| (#[trigger] part(at)).within(all(at)) by {
                    assert(part(at).within((type_defs[k].returns)(at)));
                    soundness::lemma_within(part(at), (type_defs[k].returns)(at));
                    assert forall|t: Type| #[trigger] part(at).has(t) implies all(at).has(t) by {
                        parts::lemma_combined(type_defs, at, t);
                        assert((type_defs[k].returns)(at).has(t));
                    }
                    soundness::lemma_within(part(at), all(at));
                }
            }
        },
    }
}

/// What is made of values is of the kind that is made of their kinds.
proof fn lemma_made_of(
    names: Option<Seq<Seq<char>>>,
    type_defs: Seq<TypeDefModel>,
    values: Seq<ValueModel>,
)
    requires
        type_defs.len() == values.len(),
        names matches Some(texts) ==> texts.len() == values.len(),
        forall|i: int|
            0 <= i < values.len() ==> soundness::admits(
                shape::null_if_missing((#[trigger] type_defs[i]).kind),
                values[i],
            ),
    ensures
        soundness::admits(
            container::container_type(names, type_defs).kind,
            container::made_of(names, values),
        ),
{
    let kind = container::container_type(names, type_defs).kind;
    assert(!container::some_never(type_defs)) by {
        if container::some_never(type_defs) {
            let i = choose|i: int|
                0 <= i < type_defs.len() && shape::top((#[trigger] type_defs[i]).kind)
                    == Types::none();
            let part = of_value::shape_of(values[i]);
            let read = shape::null_if_missing(type_defs[i].kind);
            assert(part(Seq::empty()).within(read(Seq::empty())));
        }
    }
    match names {
        None => {
            let members = CollectionModel {
                known: container::known_items(type_defs),
                unknown: shape::missing(),
            };
            assert forall|i: nat| #[trigger]
                soundness::admits_found(
                    shape::below(kind, Place::Item(i)),
                    of_value::member_of(ValueModel::Array(values), Place::Item(i))->0,
                ) by {
                shape::lemma_below_compose(
                    Types { array: true, ..Types::none() },
                    Some(members),
                    None,
                    Place::Item(i),
                );
                if i < values.len() {
                    assert(soundness::admits(
                        shape::null_if_missing(type_defs[i as int].kind),
                        values[i as int],
                    ));
                }
            }
            remove_soundness::lemma_array_is_admitted(kind, values);
        },
        Some(texts) => {
            let members = CollectionModel {
                known: container::known_fields(texts, type_defs),
                unknown: shape::missing(),
            };
            let fields = container::object_of(texts, values);
            lemma_fields(texts, type_defs, values);
            assert forall|name: Seq<char>| #[trigger]
                soundness::admits_found(
                    shape::below(kind, Place::Field(name)),
                    of_value::member_of(ValueModel::Object(fields), Place::Field(name))->0,
                ) by {
                shape::lemma_below_compose(
                    Types { object: true, ..Types::none() },
                    None,
                    Some(members),
                    Place::Field(name),
                );
                assert(fields.contains_key(name) == members.known.contains_key(name));
            }
            remove_soundness::lemma_object_is_admitted(kind, fields);
        },
    }
}

/// Each field is of the kind that is known of it.
proof fn lemma_fields(
    names: Seq<Seq<char>>,
    type_defs: Seq<TypeDefModel>,
    values: Seq<ValueModel>,
)
    requires
        names.len() == type_defs.len() == values.len(),
        forall|i: int|
            0 <= i < values.len() ==> soundness::admits(
                shape::null_if_missing((#[trigger] type_defs[i]).kind),
                values[i],
            ),
    ensures
        forall|name: Seq<char>|
            #![trigger container::object_of(names, values).contains_key(name)]
            container::object_of(names, values).contains_key(name)
                == container::known_fields(names, type_defs).contains_key(name) && (
            container::object_of(names, values).contains_key(name) ==> soundness::admits(
                container::known_fields(names, type_defs)[name],
                container::object_of(names, values)[name],
            )),
    decreases names.len(),
{
    if names.len() > 0 {
        let fewer = type_defs.drop_last();
        assert forall|i: int| 0 <= i < values.len() - 1 implies soundness::admits(
            shape::null_if_missing((#[trigger] fewer[i]).kind),
            values.drop_last()[i],
        ) by {
            assert(fewer[i] == type_defs[i]);
        }
        lemma_fields(names.drop_last(), fewer, values.drop_last());
        assert(type_defs.last() == type_defs[type_defs.len() - 1]);
        let before = container::object_of(names.drop_last(), values.drop_last());
        assert forall|name: Seq<char>|
            #![trigger container::object_of(names, values).contains_key(name)]
            container::object_of(names, values).contains_key(name)
                == container::known_fields(names, type_defs).contains_key(name) && (
            container::object_of(names, values).contains_key(name) ==> soundness::admits(
                container::known_fields(names, type_defs)[name],
                container::object_of(names, values)[name],
            )) by {
            assert(before.contains_key(name) == before.contains_key(name));
            if name != names.last() {
                assert(container::object_of(names, values).contains_key(name)
                    == before.contains_key(name));
            }
        }
    }
}

/// An expression that is always of its type fails only if it was said to be able to fail.
pub proof fn an_expression_that_cannot_fail_does_not(
    expr: Expr,
    names: Set<Seq<char>>,
    state: TypeStateModel,
    before: ContextModel,
    after: ContextModel,
    reason: Seq<char>,
)
    requires
        keeps_its_type(expr, names),
        is_true_of(state, names, before),
        expression::expr_resolves(expr, before, after, Err(ErrorModel::Error(reason))),
    ensures
        expression::expr_typed(expr, state).result.fallibility != Fallibility::CannotFail,
{
}

} // verus!
