//! What holds of expressions: how their results come from those of their parts.
use crate::compiler::context::ContextModel;
use crate::compiler::expression;
use crate::compiler::expression::container;
use crate::compiler::expression::container::{Container, Outcomes};
use crate::compiler::expression::error;
use crate::compiler::expression::error::{ErrorModel, ExpressionError, Outcome};
use crate::compiler::expression::function_call::FunctionCall;
use crate::compiler::expression::query;
use crate::compiler::expression::query::{Query, Target};
use crate::compiler::expression::variable;
use crate::compiler::expression::variable::Variable;
use crate::compiler::expression::{Expr, Expression};
use crate::compiler::ident::Ident;
use crate::compiler::state::TypeStateModel;
use crate::compiler::type_def::{Fallibility, Purity, TypeDefModel};
use crate::kind::of_value;
use crate::kind::shape;
use crate::kind::shape::Place;
use crate::kind::types::{Type, Types};
use crate::path;
use crate::path::{PathPrefix, Step, TargetPath};
use crate::text;
use crate::value;
use crate::value::{Value, ValueModel};
use std::borrow::Cow;
use vstd::prelude::*;

verus! {

/// What is said of expressions inside others is said of each sort of expression by itself.
pub proof fn an_expression_resolves_as_what_it_is(
    expr: Expr,
    before: ContextModel,
    after: ContextModel,
    outcome: Outcome,
)
    requires
        expr.resolves(before, after, outcome),
    ensures
        expression::expr_resolves(expr, before, after, outcome),
        match expr {
            Expr::Literal(literal) => true,
            Expr::Container(container) => container.resolves(before, after, outcome),
            Expr::Query(query) => (*query).resolves(before, after, outcome),
            Expr::FunctionCall(call) => call.resolves(before, after, outcome),
            Expr::Variable(variable) => variable.resolves(before, after, outcome),
        },
{
}

/// Each sort of expression resolves as the laws on it say.
pub proof fn each_sort_of_expression_resolves_so(
    container: Container,
    query: Query,
    call: FunctionCall,
    variable: Variable,
    before: ContextModel,
    after: ContextModel,
    outcome: Outcome,
)
    ensures
        container.resolves(before, after, outcome) ==> container::container_resolves(
            container,
            before,
            after,
            outcome,
        ),
        query.resolves(before, after, outcome) ==> query::query_resolves(
            query,
            before,
            after,
            outcome,
        ),
        call.resolves(before, after, outcome) ==> call.function().expression.resolves(
            before,
            after,
            outcome,
        ),
        variable.resolves(before, after, outcome) ==> expression::expr_resolves(
            Expr::Variable(variable),
            before,
            after,
            outcome,
        ),
        expression::expr_resolves(Expr::Container(container), before, after, outcome)
            ==> container::container_resolves(container, before, after, outcome),
        expression::expr_resolves(Expr::Query(Box::new(query)), before, after, outcome)
            ==> query::query_resolves(query, before, after, outcome),
{
}

/// Each sort of expression is known, and has its type, as the laws on it say.
pub proof fn each_sort_of_expression_is_known_so(
    expr: Expr,
    container: Container,
    query: Query,
    call: FunctionCall,
    variable: Variable,
    state: TypeStateModel,
)
    ensures
        expr.constant(state) == expression::expr_constant(expr, state),
        container.constant(state) == expression::expr_constant(Expr::Container(container), state),
        query.constant(state) == expression::expr_constant(Expr::Query(Box::new(query)), state),
        call.constant(state) is None,
        variable.constant(state) == expression::expr_constant(Expr::Variable(variable), state),
        expr.typed(state) == expression::expr_typed(expr, state),
        container.typed(state) == expression::expr_typed(Expr::Container(container), state),
        query.typed(state) == expression::expr_typed(Expr::Query(Box::new(query)), state),
        query.typed(state) == query::query_typed(query, state),
        call.typed(state) == expression::expr_typed(Expr::FunctionCall(call), state),
        variable.typed(state) == expression::expr_typed(Expr::Variable(variable), state),
{
}

/// What a query looks into resolves, is known, and has its type as the expression that it is.
pub proof fn what_a_query_looks_into_is_an_expression(
    call: FunctionCall,
    container: Container,
    before: ContextModel,
    after: ContextModel,
    outcome: Outcome,
    state: TypeStateModel,
)
    ensures
        query::target_resolves(Target::FunctionCall(call), before, after, outcome)
            == expression::expr_resolves(Expr::FunctionCall(call), before, after, outcome),
        query::target_resolves(Target::Container(container), before, after, outcome)
            == expression::expr_resolves(Expr::Container(container), before, after, outcome),
        query::target_constant(Target::FunctionCall(call), state) is None,
        query::target_constant(Target::Container(container), state) == expression::expr_constant(
            Expr::Container(container),
            state,
        ),
        query::target_typed(Target::FunctionCall(call), state) == expression::expr_typed(
            Expr::FunctionCall(call),
            state,
        ),
        query::target_typed(Target::Container(container), state) == expression::expr_typed(
            Expr::Container(container),
            state,
        ),
{
}

/// What a query finds in the event, its metadata or a variable, if anything.
pub proof fn what_a_query_finds(
    context: ContextModel,
    prefix: PathPrefix,
    variable: Variable,
    path: Seq<Step>,
)
    ensures
        query::found_outside(context, prefix, path) == (context.found)(TargetPath { prefix, path }),
        context.variables.contains_key(variable.name()) ==> query::found_in_variable(
            context,
            variable,
            path,
        ) == value::lookup(context.variables[variable.name()], path),
        !context.variables.contains_key(variable.name()) ==> query::found_in_variable(
            context,
            variable,
            path,
        ) is None,
{
}

/// Names stand for their texts, one by one.
pub proof fn names_stand_for_their_texts(idents: Seq<Ident>, names: Seq<String>, i: int)
    ensures
        variable::texts(idents).len() == idents.len(),
        0 <= i < idents.len() ==> variable::texts(idents)[i] == idents[i]@,
        container::texts(names).len() == names.len(),
        0 <= i < names.len() ==> container::texts(names)[i] == names[i]@,
{
}

/// How an evaluation ended is what it gave, a value or an error.
pub proof fn an_outcome_is_what_was_given(
    value: Value,
    error: ExpressionError,
    reason: String,
    message: Option<String>,
)
    ensures
        error::outcome(Ok(value)) == Ok::<ValueModel, ErrorModel>(value@),
        error::outcome(Err(error)) == Err::<ValueModel, ErrorModel>(error@),
        error::borrowed_outcome(Ok(Cow::Owned(value))) == Ok::<ValueModel, ErrorModel>(value@),
        error::borrowed_outcome(Ok(Cow::Borrowed(&value))) == Ok::<ValueModel, ErrorModel>(value@),
        error::borrowed_outcome(Err(error)) == Err::<ValueModel, ErrorModel>(error@),
        (ExpressionError::Error { reason })@ == ErrorModel::Error(reason@),
        (ExpressionError::Return { value })@ == ErrorModel::Return(value@),
        (ExpressionError::Abort { message })@ == ErrorModel::Abort(
            match message {
                Some(text) => Some(text@),
                None => None,
            },
        ),
{
}

/// A query is written as what it looks into and its path behind that. A dot stands between a variable
/// and a field of it.
pub proof fn a_query_is_written_as_its_parts(query: Query)
    ensures
        ({
            let written = query::query_text(query.looks_into(), query.steps());
            let path = path::path_text(query.steps());
            match query.looks_into() {
                Target::Internal(variable) => written == if query.steps().len() > 0
                    && query.steps()[0] is Field {
                    variable.name() + seq!['.'] + path
                } else {
                    variable.name() + path
                },
                Target::External(PathPrefix::Event) => written == seq!['.'] + path,
                Target::External(PathPrefix::Metadata) => written == seq!['%'] + path,
                Target::FunctionCall(call) => written == call.text() + path,
                Target::Container(container) => written == container.text() + path,
            }
        }),
        query::target_text(query.looks_into()) == match query.looks_into() {
            Target::Internal(variable) => variable.name(),
            Target::External(PathPrefix::Event) => seq!['.'],
            Target::External(PathPrefix::Metadata) => seq!['%'],
            Target::FunctionCall(call) => call.text(),
            Target::Container(container) => container.text(),
        },
{
}

/// A query is shown as what it looks into and its path.
pub proof fn a_query_is_shown_as_its_parts(query: Query)
    ensures
        query::query_debug_text(query.looks_into(), query.steps()) == "Query("@
            + query::target_debug_text(query.looks_into()) + ", "@ + path::path_debug_text(
            query.steps(),
        ) + ")"@,
        query::target_debug_text(query.looks_into()) == match query.looks_into() {
            Target::Internal(variable) => "Internal("@ + ("Variable { ident: Ident("@
                + text::debug_text(variable.name()) + ") }"@) + ")"@,
            Target::External(PathPrefix::Event) => "External(Event)"@,
            Target::External(PathPrefix::Metadata) => "External(Metadata)"@,
            Target::FunctionCall(call) => call.debug_text(),
            Target::Container(container) => container.debug_text(),
        },
{
}

/// A literal evaluates to its value, and changes nothing.
pub proof fn a_literal_is_its_value(
    literal: Value,
    before: ContextModel,
    after: ContextModel,
    outcome: Outcome,
)
    requires
        expression::expr_resolves(Expr::Literal(literal), before, after, outcome),
    ensures
        outcome == Ok::<ValueModel, ErrorModel>(literal@),
        after == before,
{
}

/// A variable evaluates to its value, or to null where it has none, and changes nothing.
pub proof fn a_variable_is_its_value(
    variable: Variable,
    before: ContextModel,
    after: ContextModel,
    outcome: Outcome,
)
    requires
        expression::expr_resolves(Expr::Variable(variable), before, after, outcome),
    ensures
        before.variables.contains_key(variable.name()) ==> outcome == Ok::<ValueModel, ErrorModel>(
            before.variables[variable.name()],
        ),
        !before.variables.contains_key(variable.name()) ==> outcome == Ok::<
            ValueModel,
            ErrorModel,
        >(ValueModel::Null),
        after == before,
{
}

/// A call evaluates to what its function gives.
pub proof fn a_call_is_what_its_function_gives(
    call: FunctionCall,
    before: ContextModel,
    after: ContextModel,
    outcome: Outcome,
)
    requires
        expression::expr_resolves(Expr::FunctionCall(call), before, after, outcome),
    ensures
        call.function().expression.resolves(before, after, outcome),
{
}

/// A query of a variable gives what its path finds in the value of the variable, and null where it
/// finds nothing. It changes nothing.
pub proof fn a_query_of_a_variable_follows_its_path(
    query: Query,
    variable: Variable,
    before: ContextModel,
    after: ContextModel,
    outcome: Outcome,
)
    requires
        query.looks_into() == Target::Internal(variable),
        query::query_resolves(query, before, after, outcome),
    ensures
        after == before,
        outcome == Ok::<ValueModel, ErrorModel>(
            if before.variables.contains_key(variable.name()) {
                match value::lookup(before.variables[variable.name()], query.steps()) {
                    Some(found) => found,
                    None => ValueModel::Null,
                }
            } else {
                ValueModel::Null
            },
        ),
{
}

/// A query of the event or its metadata gives what is found there at its path, and null where
/// nothing is found. It changes nothing.
pub proof fn a_query_of_the_event_follows_its_path(
    query: Query,
    prefix: PathPrefix,
    before: ContextModel,
    after: ContextModel,
    outcome: Outcome,
)
    requires
        query.looks_into() == Target::External(prefix),
        query::query_resolves(query, before, after, outcome),
    ensures
        after == before,
        outcome == Ok::<ValueModel, ErrorModel>(
            match (before.found)(TargetPath { prefix, path: query.steps() }) {
                Some(found) => found,
                None => ValueModel::Null,
            },
        ),
{
}

/// A query of a call gives what its path finds in the result of the call, and null where it finds
/// nothing. An error of the call is handed on. What the call changes stays changed.
pub proof fn a_query_of_a_call_follows_its_path(
    query: Query,
    call: FunctionCall,
    before: ContextModel,
    after: ContextModel,
    outcome: Outcome,
)
    requires
        query.looks_into() == Target::FunctionCall(call),
        query::query_resolves(query, before, after, outcome),
    ensures
        exists|result: Outcome|
            {
                &&& #[trigger] call.function().expression.resolves(before, after, result)
                &&& outcome == match result {
                    Ok(whole) => Ok::<ValueModel, ErrorModel>(
                        match value::lookup(whole, query.steps()) {
                            Some(found) => found,
                            None => ValueModel::Null,
                        },
                    ),
                    Err(error) => Err(error),
                }
            },
{
    let result = choose|result: Outcome|
        outcome == #[trigger] query::found_in_result(result, query.steps()) && call.resolves_to(
            before,
            after,
            result,
        );
    assert(call.function().expression.resolves(before, after, result));
}

/// A query of a container gives what its path finds in the value of the container, and null where it
/// finds nothing. An error of the container is handed on.
pub proof fn a_query_of_a_container_follows_its_path(
    query: Query,
    container: Container,
    before: ContextModel,
    after: ContextModel,
    outcome: Outcome,
)
    requires
        query.looks_into() == Target::Container(container),
        query::query_resolves(query, before, after, outcome),
    ensures
        exists|result: Outcome|
            {
                &&& #[trigger] container::container_resolves(container, before, after, result)
                &&& outcome == match result {
                    Ok(whole) => Ok::<ValueModel, ErrorModel>(
                        match value::lookup(whole, query.steps()) {
                            Some(found) => found,
                            None => ValueModel::Null,
                        },
                    ),
                    Err(error) => Err(error),
                }
            },
{
    let result = choose|result: Outcome|
        outcome == #[trigger] query::found_in_result(result, query.steps())
            && container::container_resolves(container, before, after, result);
    assert(container::container_resolves(container, before, after, result));
}

/// An array that is written out evaluates to the values of its items, in their order, each of them
/// evaluated once, in the context that the one before it left.
pub proof fn an_array_holds_what_its_items_give(
    container: Container,
    before: ContextModel,
    after: ContextModel,
    whole: ValueModel,
)
    requires
        container.names() is None,
        container::container_resolves(container, before, after, Ok(whole)),
    ensures
        whole matches ValueModel::Array(values) && {
            &&& values.len() == container.items().len()
            &&& exists|contexts: Seq<ContextModel>|
                {
                    &&& #[trigger] contexts.len() == values.len() + 1
                    &&& contexts[0] == before
                    &&& contexts.last() == after
                    &&& forall|i: int|
                        0 <= i < values.len() ==> expression::expr_resolves(
                            container.items()[i],
                            contexts[i],
                            contexts[i + 1],
                            Ok(#[trigger] values[i]),
                        )
                }
        },
{
    let (contexts, values) = lemma_run(container, before, after, Ok(whole));
}

/// An object that is written out has the fields that are named and no others. The value of a field is
/// that of the last item with its name. The items are evaluated once each, in their order.
pub proof fn an_object_holds_what_its_fields_give(
    container: Container,
    names: Seq<Seq<char>>,
    before: ContextModel,
    after: ContextModel,
    whole: ValueModel,
)
    requires
        container.names() == Some(names),
        names.len() == container.items().len(),
        container::container_resolves(container, before, after, Ok(whole)),
    ensures
        whole matches ValueModel::Object(fields) && {
            &&& forall|name: Seq<char>| #[trigger]
                fields.contains_key(name) <==> names.contains(name)
            &&& exists|contexts: Seq<ContextModel>, values: Seq<ValueModel>|
                {
                    &&& #[trigger] contexts.len() == #[trigger] values.len() + 1
                    &&& values.len() == names.len()
                    &&& contexts[0] == before
                    &&& contexts.last() == after
                    &&& forall|i: int|
                        0 <= i < values.len() ==> expression::expr_resolves(
                            container.items()[i],
                            contexts[i],
                            contexts[i + 1],
                            Ok(#[trigger] values[i]),
                        )
                    &&& forall|i: int|
                        0 <= i < names.len() && (forall|j: int|
                            i < j < names.len() ==> #[trigger] names[j] != names[i])
                            ==> fields[#[trigger] names[i]] == values[i]
                }
        },
{
    let (contexts, values) = lemma_run(container, before, after, Ok(whole));
    lemma_object_of(names, values);
}

/// A container fails where one of its items fails, with the error of that item. The items before it
/// were evaluated, those behind it are not.
pub proof fn a_container_fails_as_its_item_does(
    container: Container,
    before: ContextModel,
    after: ContextModel,
    error: ErrorModel,
)
    requires
        container::container_resolves(container, before, after, Err(error)),
    ensures
        exists|contexts: Seq<ContextModel>, values: Seq<ValueModel>|
            {
                &&& #[trigger] contexts.len() == #[trigger] values.len() + 1
                &&& values.len() < container.items().len()
                &&& contexts[0] == before
                &&& forall|i: int|
                    0 <= i < values.len() ==> expression::expr_resolves(
                        container.items()[i],
                        contexts[i],
                        contexts[i + 1],
                        Ok(#[trigger] values[i]),
                    )
                &&& expression::expr_resolves(
                    container.items()[values.len() as int],
                    contexts.last(),
                    after,
                    Err(error),
                )
            },
{
    let (contexts, values) = lemma_run(container, before, after, Err(error));
}

/// How the items of a container were evaluated.
pub(super) proof fn lemma_run(
    container: Container,
    before: ContextModel,
    after: ContextModel,
    outcome: Outcome,
) -> (r: (Seq<ContextModel>, Seq<ValueModel>))
    requires
        container::container_resolves(container, before, after, outcome),
    ensures
        r.0.len() == r.1.len() + 1,
        r.0[0] == before,
        forall|i: int|
            0 <= i < r.1.len() ==> expression::expr_resolves(
                container.items()[i],
                r.0[i],
                r.0[i + 1],
                Ok(#[trigger] r.1[i]),
            ),
        match outcome {
            Ok(whole) => {
                &&& r.1.len() == container.items().len()
                &&& r.0.last() == after
                &&& whole == container::made_of(container.names(), r.1)
            },
            Err(error) => {
                &&& r.1.len() < container.items().len()
                &&& expression::expr_resolves(
                    container.items()[r.1.len() as int],
                    r.0.last(),
                    after,
                    Err(error),
                )
            },
        },
{
    let items = container.items();
    let outcomes = choose|outcomes: Outcomes|
        outcome == #[trigger] container::assembled(container.names(), outcomes)
            && container::items_resolve(items, before, after, outcomes);
    assert(outcome == container::assembled(container.names(), outcomes));
    assert(container::items_resolve(items, before, after, outcomes));
    let (contexts, values) = choose|contexts: Seq<ContextModel>, values: Seq<ValueModel>|
        {
            &&& #[trigger] container::is_trace(items, contexts, values)
            &&& contexts[0] == before
            &&& forall|i: int|
                0 <= i < values.len() && i < items.len() ==> expression::expr_resolves(
                    items[i],
                    contexts[i],
                    contexts[i + 1],
                    Ok(#[trigger] values[i]),
                )
            &&& match outcomes {
                Ok(all) => values.len() == items.len() && all == values && after
                    == contexts.last(),
                Err(error) => values.len() < items.len() && expression::expr_resolves(
                    items[values.len() as int],
                    contexts.last(),
                    after,
                    Err(error),
                ),
            }
        };
    (contexts, values)
}

/// What an object holds under a name.
proof fn lemma_object_of(names: Seq<Seq<char>>, values: Seq<ValueModel>)
    requires
        names.len() == values.len(),
    ensures
        forall|name: Seq<char>| #[trigger]
            container::object_of(names, values).contains_key(name) <==> names.contains(name),
        forall|i: int|
            0 <= i < names.len() && (forall|j: int|
                i < j < names.len() ==> #[trigger] names[j] != names[i])
                ==> container::object_of(names, values)[#[trigger] names[i]] == values[i],
    decreases names.len(),
{
    let all = container::object_of(names, values);
    if names.len() > 0 {
        let first = names.drop_last();
        lemma_object_of(first, values.drop_last());
        let before = container::object_of(first, values.drop_last());
        assert(all == before.insert(names.last(), values.last()));
        assert forall|name: Seq<char>| #[trigger] all.contains_key(name) <==> names.contains(
            name,
        ) by {
            assert(before.contains_key(name) <==> first.contains(name));
            if first.contains(name) {
                let i = choose|i: int| 0 <= i < first.len() && first[i] == name;
                assert(names[i] == name);
            }
            if names.contains(name) {
                let i = choose|i: int| 0 <= i < names.len() && names[i] == name;
                if i < first.len() {
                    assert(first[i] == name);
                }
            }
            assert(names.last() == names[names.len() - 1]);
        }
        assert forall|i: int|
            0 <= i < names.len() && (forall|j: int|
                i < j < names.len() ==> #[trigger] names[j] != names[i]) implies all[
            #[trigger] names[i]] == values[i] by {
            if i < first.len() {
                assert(names[names.len() - 1] != names[i]);
                assert(first[i] == names[i]);
                assert forall|j: int| i < j < first.len() implies #[trigger] first[j]
                    != first[i] by {
                    assert(names[j] != names[i]);
                }
            }
        }
    }
}

/// A literal is known before the program runs.
pub proof fn a_literal_is_a_constant(literal: Value, state: TypeStateModel)
    ensures
        expression::expr_constant(Expr::Literal(literal), state) == Some(literal@),
{
}

/// A variable is known before the program runs if its value is, and the result of a call never is.
pub proof fn a_variable_is_a_constant_if_its_value_is_known(
    variable: Variable,
    call: FunctionCall,
    state: TypeStateModel,
)
    ensures
        state.local.contains_key(variable.name()) ==> expression::expr_constant(
            Expr::Variable(variable),
            state,
        ) == state.local[variable.name()].value,
        !state.local.contains_key(variable.name()) ==> expression::expr_constant(
            Expr::Variable(variable),
            state,
        ) is None,
        expression::expr_constant(Expr::FunctionCall(call), state) is None,
{
}

/// A query is known before the program runs if and only if it looks into a variable whose value is
/// known, and its path finds something there. It is what is found.
pub proof fn a_query_is_a_constant_if_its_variable_is(query: Query, state: TypeStateModel)
    ensures
        query.looks_into() matches Target::Internal(variable) ==> query::query_constant(
            query,
            state,
        ) == if state.local.contains_key(variable.name()) {
            match state.local[variable.name()].value {
                Some(whole) => value::lookup(whole, query.steps()),
                None => None,
            }
        } else {
            None
        },
        !(query.looks_into() is Internal) ==> query::query_constant(query, state) is None,
        expression::expr_constant(Expr::Query(Box::new(query)), state) == query::query_constant(
            query,
            state,
        ),
{
}

/// A container is known before the program runs if and only if all of its items are. An array is made
/// of their values, in their order.
pub proof fn an_array_is_a_constant_if_its_items_are(container: Container, state: TypeStateModel)
    ensures
        container::container_constant(container, state) is None <==> exists|i: int|
            0 <= i < container.items().len() && #[trigger] expression::expr_constant(
                container.items()[i],
                state,
            ) is None,
        container.names() is None ==> (container::container_constant(container, state) matches Some(
            whole,
        ) ==> {
            &&& whole matches ValueModel::Array(values)
            &&& values.len() == container.items().len()
            &&& forall|i: int|
                0 <= i < values.len() ==> #[trigger] expression::expr_constant(
                    container.items()[i],
                    state,
                ) == Some(values[i])
        }),
        expression::expr_constant(Expr::Container(container), state)
            == container::container_constant(container, state),
{
    lemma_items_constant(container.items(), container.items().len(), state);
}

/// An object that is known before the program runs has the fields that are named and no others. The
/// value of a field is that of the last item with its name.
pub proof fn an_object_is_a_constant_if_its_fields_are(
    container: Container,
    names: Seq<Seq<char>>,
    state: TypeStateModel,
    whole: ValueModel,
)
    requires
        container.names() == Some(names),
        names.len() == container.items().len(),
        container::container_constant(container, state) == Some(whole),
    ensures
        whole matches ValueModel::Object(fields) && {
            &&& forall|name: Seq<char>| #[trigger]
                fields.contains_key(name) <==> names.contains(name)
            &&& forall|i: int|
                0 <= i < names.len() && (forall|j: int|
                    i < j < names.len() ==> #[trigger] names[j] != names[i])
                    ==> expression::expr_constant(container.items()[i], state) == Some(
                    fields[#[trigger] names[i]],
                )
        },
{
    let items = container.items();
    lemma_items_constant(items, items.len(), state);
    let values = container::items_constant(items, items.len(), state)->0;
    lemma_object_of(names, values);
    let fields = container::object_of(names, values);
    assert forall|i: int|
        0 <= i < names.len() && (forall|j: int|
            i < j < names.len() ==> #[trigger] names[j]
                != names[i]) implies expression::expr_constant(items[i], state) == Some(
        fields[#[trigger] names[i]],
    ) by {
        assert(fields[names[i]] == values[i]);
    }
}

proof fn lemma_items_constant(items: Seq<Expr>, count: nat, state: TypeStateModel)
    requires
        count <= items.len(),
    ensures
        container::items_constant(items, count, state) is None <==> exists|i: int|
            0 <= i < count && #[trigger] expression::expr_constant(items[i], state) is None,
        container::items_constant(items, count, state) matches Some(values) ==> {
            &&& values.len() == count
            &&& forall|i: int|
                0 <= i < count ==> #[trigger] expression::expr_constant(items[i], state) == Some(
                    values[i],
                )
        },
    decreases count,
{
    if count > 0 {
        lemma_items_constant(items, (count - 1) as nat, state);
        let last = expression::expr_constant(items[count - 1], state);
        if container::items_constant(items, (count - 1) as nat, state) is None {
            let i = choose|i: int|
                0 <= i < count - 1 && #[trigger] expression::expr_constant(items[i], state) is None;
            assert(expression::expr_constant(items[i], state) is None);
        }
    }
}

/// The type of a literal is that of its value. It cannot fail, has no effect, and changes nothing
/// that is known.
pub proof fn the_type_of_a_literal(literal: Value, state: TypeStateModel, at: Seq<Place>)
    ensures
        ({
            let info = expression::expr_typed(Expr::Literal(literal), state);
            &&& info.state == state
            &&& info.result.kind == of_value::shape_of(literal@)
            &&& info.result.fallibility == Fallibility::CannotFail
            &&& info.result.purity == Purity::Pure
            &&& (info.result.returns)(at) == Types::none()
        }),
{
}

/// The type of a variable is what is known of it. Nothing is found in one of which nothing is known.
pub proof fn the_type_of_a_variable(variable: Variable, state: TypeStateModel, at: Seq<Place>)
    ensures
        ({
            let info = expression::expr_typed(Expr::Variable(variable), state);
            &&& info.state == state
            &&& state.local.contains_key(variable.name()) ==> info.result
                == state.local[variable.name()].type_def
            &&& !state.local.contains_key(variable.name()) ==> {
                &&& (info.result.kind)(at) == (Types { undefined: at.len() == 0, ..Types::none() })
                &&& info.result.fallibility == Fallibility::CannotFail
                &&& info.result.purity == Purity::Pure
                &&& (info.result.returns)(at) == Types::none()
            }
        }),
{
}

/// The type of a call is that which its function says, and so is what is known afterwards.
pub proof fn the_type_of_a_call(call: FunctionCall, state: TypeStateModel)
    ensures
        expression::expr_typed(Expr::FunctionCall(call), state) == call.function().expression.typed(
            state,
        ),
{
}

/// The kind of a query of the event or its metadata is what its path finds in their kind. It cannot
/// fail, has no effect, and changes nothing that is known.
pub proof fn the_type_of_a_query_of_the_event(
    query: Query,
    prefix: PathPrefix,
    state: TypeStateModel,
    at: Seq<Place>,
)
    requires
        query.looks_into() == Target::External(prefix),
    ensures
        ({
            let info = query::query_typed(query, state);
            &&& info.state == state
            &&& info.result.kind == shape::at_path(
                match prefix {
                    PathPrefix::Event => state.external.target.type_def.kind,
                    PathPrefix::Metadata => state.external.metadata,
                },
                query.steps(),
            )
            &&& info.result.fallibility == Fallibility::CannotFail
            &&& info.result.purity == Purity::Pure
            &&& (info.result.returns)(at) == Types::none()
        }),
{
}

/// The kind of a query of anything else is what its path finds in the kind of what it looks into. It
/// can fail if that can, has an effect if that has one, and returns early what that returns. What is
/// known afterwards is what is known after that.
pub proof fn the_type_of_a_query_of_an_expression(query: Query, state: TypeStateModel)
    requires
        !(query.looks_into() is External),
    ensures
        ({
            let info = query::query_typed(query, state);
            let whole = match query.looks_into() {
                Target::Internal(variable) => expression::expr_typed(
                    Expr::Variable(variable),
                    state,
                ),
                Target::FunctionCall(call) => expression::expr_typed(
                    Expr::FunctionCall(call),
                    state,
                ),
                Target::Container(container) => expression::expr_typed(
                    Expr::Container(container),
                    state,
                ),
                Target::External(_) => info,
            };
            &&& info.state == whole.state
            &&& info.result.kind == shape::at_path(whole.result.kind, query.steps())
            &&& info.result.fallibility == whole.result.fallibility
            &&& info.result.purity == whole.result.purity
            &&& info.result.returns == whole.result.returns
            &&& expression::expr_typed(Expr::Query(Box::new(query)), state) == info
        }),
{
}

/// A container can fail, has an effect and returns early if and only if one of its items does, each
/// of them taken with what is known after the one before it.
#[verifier::rlimit(60)]
#[verifier::spinoff_prover]
pub proof fn the_type_of_a_container(
    container: Container,
    state: TypeStateModel,
    states: Seq<TypeStateModel>,
    at: Seq<Place>,
    t: Type,
)
    requires
        states.len() == container.items().len() + 1,
        states[0] == state,
        forall|i: int|
            0 <= i < container.items().len() ==> #[trigger] states[i + 1]
                == expression::expr_typed(container.items()[i], states[i]).state,
    ensures
        ({
            let items = container.items();
            let info = container::container_typed(container, state);
            &&& info.state == states.last()
            &&& info.result.fallibility == Fallibility::CannotFail <==> forall|i: int|
                0 <= i < items.len() ==> (#[trigger] expression::expr_typed(
                    items[i],
                    states[i],
                )).result.fallibility == Fallibility::CannotFail
            &&& info.result.fallibility == Fallibility::AlwaysFails <==> exists|i: int|
                0 <= i < items.len() && (#[trigger] expression::expr_typed(
                    items[i],
                    states[i],
                )).result.fallibility == Fallibility::AlwaysFails
            &&& info.result.purity == Purity::Pure <==> forall|i: int|
                0 <= i < items.len() ==> (#[trigger] expression::expr_typed(
                    items[i],
                    states[i],
                )).result.purity == Purity::Pure
            &&& (info.result.returns)(at).has(t) <==> exists|i: int|
                0 <= i < items.len() && ((#[trigger] expression::expr_typed(
                    items[i],
                    states[i],
                )).result.returns)(at).has(t)
            &&& expression::expr_typed(Expr::Container(container), state) == info
        }),
{
    let items = container.items();
    let type_defs = container::items_typed(items, items.len(), state).1;
    lemma_items_typed(items, items.len(), state, states);
    lemma_combined(type_defs, at, t);
    let info = container::container_typed(container, state);
    assert forall|i: int| 0 <= i < items.len() implies type_defs[i] == (
    #[trigger] expression::expr_typed(items[i], states[i])).result by {}
    if info.result.fallibility != Fallibility::CannotFail {
        let i = choose|i: int|
            0 <= i < type_defs.len() && (#[trigger] type_defs[i]).fallibility
                != Fallibility::CannotFail;
        assert(type_defs[i] == expression::expr_typed(items[i], states[i]).result);
    }
    if info.result.fallibility == Fallibility::AlwaysFails {
        let i = choose|i: int|
            0 <= i < type_defs.len() && (#[trigger] type_defs[i]).fallibility
                == Fallibility::AlwaysFails;
        assert(type_defs[i] == expression::expr_typed(items[i], states[i]).result);
    }
    if info.result.purity != Purity::Pure {
        let i = choose|i: int|
            0 <= i < type_defs.len() && (#[trigger] type_defs[i]).purity != Purity::Pure;
        assert(type_defs[i] == expression::expr_typed(items[i], states[i]).result);
    }
    if (info.result.returns)(at).has(t) {
        let i = choose|i: int|
            0 <= i < type_defs.len() && ((#[trigger] type_defs[i]).returns)(at).has(t);
        assert(type_defs[i] == expression::expr_typed(items[i], states[i]).result);
    }
}

/// There is no value of an array or an object if one of its items never has a result.
pub proof fn the_kind_of_a_container_that_is_never_made(
    container: Container,
    state: TypeStateModel,
    states: Seq<TypeStateModel>,
    i: int,
    at: Seq<Place>,
)
    requires
        states.len() == container.items().len() + 1,
        states[0] == state,
        forall|i: int|
            0 <= i < container.items().len() ==> #[trigger] states[i + 1]
                == expression::expr_typed(container.items()[i], states[i]).state,
        0 <= i < container.items().len(),
        (expression::expr_typed(container.items()[i], states[i]).result.kind)(Seq::empty())
            == Types::none(),
    ensures
        (container::container_typed(container, state).result.kind)(at) == Types::none(),
{
    let items = container.items();
    let type_defs = container::items_typed(items, items.len(), state).1;
    lemma_items_typed(items, items.len(), state, states);
    assert(shape::top(type_defs[i].kind) == Types::none());
}

/// The kind of an array that is written out is an array with an item for each that is written, of the
/// kind of that one, where a missing value is null. There are no items behind these.
pub proof fn the_kind_of_an_array_is_that_of_its_items(
    container: Container,
    state: TypeStateModel,
    states: Seq<TypeStateModel>,
    i: nat,
    at: Seq<Place>,
)
    requires
        states.len() == container.items().len() + 1,
        states[0] == state,
        forall|i: int|
            0 <= i < container.items().len() ==> #[trigger] states[i + 1]
                == expression::expr_typed(container.items()[i], states[i]).state,
        container.names() is None,
        forall|j: int|
            0 <= j < container.items().len() ==> ((#[trigger] expression::expr_typed(
                container.items()[j],
                states[j],
            )).result.kind)(Seq::empty()) != Types::none(),
    ensures
        ({
            let kind = container::container_typed(container, state).result.kind;
            let item = expression::expr_typed(container.items()[i as int], states[i as int]).result.kind;
            &&& kind(Seq::empty()) == (Types { array: true, ..Types::none() })
            &&& i < container.items().len() && at.len() > 0 ==> kind(seq![Place::Item(i)] + at)
                == item(at)
            &&& i < container.items().len() ==> kind(seq![Place::Item(i)]) == (Types {
                null: item(Seq::empty()).null || item(Seq::empty()).undefined,
                undefined: false,
                ..item(Seq::empty())
            })
            &&& i >= container.items().len() ==> kind(seq![Place::Item(i)] + at) == (Types {
                undefined: at.len() == 0,
                ..Types::none()
            })
            &&& at.len() > 0 && at[0] is Field ==> kind(at) == Types::none()
        }),
{
    let items = container.items();
    let type_defs = container::items_typed(items, items.len(), state).1;
    lemma_items_typed(items, items.len(), state, states);
    lemma_not_never(items, type_defs, states);
    assert((seq![Place::Item(i)] + at).drop_first() =~= at);
    assert(seq![Place::Item(i)].drop_first() =~= Seq::<Place>::empty());
    if i < items.len() {
        assert(type_defs[i as int] == expression::expr_typed(
            items[i as int],
            states[i as int],
        ).result);
    }
}

/// The kind of an object that is written out is an object with the fields that are named, each of the
/// kind of the last one with its name, where a missing value is null. There are no other fields.
#[verifier::rlimit(60)]
#[verifier::spinoff_prover]
pub proof fn the_kind_of_an_object_is_that_of_its_fields(
    container: Container,
    names: Seq<Seq<char>>,
    state: TypeStateModel,
    states: Seq<TypeStateModel>,
    name: Seq<char>,
    at: Seq<Place>,
)
    requires
        states.len() == container.items().len() + 1,
        states[0] == state,
        forall|i: int|
            0 <= i < container.items().len() ==> #[trigger] states[i + 1]
                == expression::expr_typed(container.items()[i], states[i]).state,
        container.names() == Some(names),
        names.len() == container.items().len(),
        forall|j: int|
            0 <= j < container.items().len() ==> ((#[trigger] expression::expr_typed(
                container.items()[j],
                states[j],
            )).result.kind)(Seq::empty()) != Types::none(),
    ensures
        ({
            let kind = container::container_typed(container, state).result.kind;
            &&& kind(Seq::empty()) == (Types { object: true, ..Types::none() })
            &&& forall|i: int|
                0 <= i < names.len() && names[i] == name && (forall|j: int|
                    i < j < names.len() ==> #[trigger] names[j] != name) ==> {
                    let field = (#[trigger] expression::expr_typed(
                        container.items()[i],
                        states[i],
                    )).result.kind;
                    &&& at.len() > 0 ==> kind(seq![Place::Field(name)] + at) == field(at)
                    &&& kind(seq![Place::Field(name)]) == (Types {
                        null: field(Seq::empty()).null || field(Seq::empty()).undefined,
                        undefined: false,
                        ..field(Seq::empty())
                    })
                }
            &&& !names.contains(name) ==> kind(seq![Place::Field(name)] + at) == (Types {
                undefined: at.len() == 0,
                ..Types::none()
            })
            &&& at.len() > 0 && at[0] is Item ==> kind(at) == Types::none()
        }),
{
    let items = container.items();
    let type_defs = container::items_typed(items, items.len(), state).1;
    lemma_items_typed(items, items.len(), state, states);
    lemma_not_never(items, type_defs, states);
    lemma_known_fields(names, type_defs);
    assert((seq![Place::Field(name)] + at).drop_first() =~= at);
    assert(seq![Place::Field(name)].drop_first() =~= Seq::<Place>::empty());
    let known = container::known_fields(names, type_defs);
    assert(known.contains_key(name) <==> names.contains(name));
    let kind = container::container_typed(container, state).result.kind;
    assert forall|i: int|
        0 <= i < names.len() && names[i] == name && (forall|j: int|
            i < j < names.len() ==> #[trigger] names[j] != name) implies {
        let field = (#[trigger] expression::expr_typed(items[i], states[i])).result.kind;
        &&& at.len() > 0 ==> kind(seq![Place::Field(name)] + at) == field(at)
        &&& kind(seq![Place::Field(name)]) == (Types {
            null: field(Seq::empty()).null || field(Seq::empty()).undefined,
            undefined: false,
            ..field(Seq::empty())
        })
    } by {
        assert(names.contains(names[i]));
        assert(known[names[i]] == shape::null_if_missing(type_defs[i].kind));
    }
}

proof fn lemma_not_never(
    items: Seq<Expr>,
    type_defs: Seq<TypeDefModel>,
    states: Seq<TypeStateModel>,
)
    requires
        type_defs.len() == items.len(),
        forall|i: int|
            0 <= i < items.len() ==> #[trigger] type_defs[i] == expression::expr_typed(
                items[i],
                states[i],
            ).result,
        forall|j: int|
            0 <= j < items.len() ==> ((#[trigger] expression::expr_typed(
                items[j],
                states[j],
            )).result.kind)(Seq::empty()) != Types::none(),
    ensures
        !container::some_never(type_defs),
{
    if container::some_never(type_defs) {
        let i = choose|i: int|
            0 <= i < type_defs.len() && shape::top((#[trigger] type_defs[i]).kind)
                == Types::none();
        assert(type_defs[i] == expression::expr_typed(items[i], states[i]).result);
    }
}

/// What is known of items one after the other.
pub(super) proof fn lemma_items_typed(
    items: Seq<Expr>,
    count: nat,
    state: TypeStateModel,
    states: Seq<TypeStateModel>,
)
    requires
        count <= items.len(),
        states.len() == items.len() + 1,
        states[0] == state,
        forall|i: int|
            0 <= i < items.len() ==> #[trigger] states[i + 1] == expression::expr_typed(
                items[i],
                states[i],
            ).state,
    ensures
        container::items_typed(items, count, state).0 == states[count as int],
        container::items_typed(items, count, state).1.len() == count,
        forall|i: int|
            0 <= i < count ==> #[trigger] container::items_typed(items, count, state).1[i]
                == expression::expr_typed(items[i], states[i]).result,
    decreases count,
{
    if count > 0 {
        lemma_items_typed(items, (count - 1) as nat, state, states);
        assert(states[count - 1 + 1] == expression::expr_typed(
            items[count - 1],
            states[count - 1],
        ).state);
    }
}

/// What is known of one of several results.
pub(super) proof fn lemma_combined(type_defs: Seq<TypeDefModel>, at: Seq<Place>, t: Type)
    ensures
        ({
            let all = container::combined(type_defs);
            &&& all.fallibility == Fallibility::CannotFail <==> forall|i: int|
                0 <= i < type_defs.len() ==> (#[trigger] type_defs[i]).fallibility
                    == Fallibility::CannotFail
            &&& all.fallibility == Fallibility::AlwaysFails <==> exists|i: int|
                0 <= i < type_defs.len() && (#[trigger] type_defs[i]).fallibility
                    == Fallibility::AlwaysFails
            &&& all.purity == Purity::Pure <==> forall|i: int|
                0 <= i < type_defs.len() ==> (#[trigger] type_defs[i]).purity == Purity::Pure
            &&& (all.returns)(at).has(t) <==> exists|i: int|
                0 <= i < type_defs.len() && ((#[trigger] type_defs[i]).returns)(at).has(t)
        }),
    decreases type_defs.len(),
{
    if type_defs.len() > 0 {
        let first = type_defs.drop_last();
        let n = type_defs.len() - 1;
        lemma_combined(first, at, t);
        assert(type_defs.last() == type_defs[n]);
        assert forall|i: int| 0 <= i < n implies #[trigger] first[i] == type_defs[i] by {}
        assert forall|i: int| 0 <= i < n implies first[i] == #[trigger] type_defs[i] by {}
        let all = container::combined(first);
        if all.fallibility != Fallibility::CannotFail {
            let i = choose|i: int|
                0 <= i < n && (#[trigger] first[i]).fallibility != Fallibility::CannotFail;
            assert(type_defs[i].fallibility != Fallibility::CannotFail);
        }
        if all.fallibility == Fallibility::AlwaysFails {
            let i = choose|i: int|
                0 <= i < n && (#[trigger] first[i]).fallibility == Fallibility::AlwaysFails;
            assert(type_defs[i].fallibility == Fallibility::AlwaysFails);
        }
        if all.purity != Purity::Pure {
            let i = choose|i: int| 0 <= i < n && (#[trigger] first[i]).purity != Purity::Pure;
            assert(type_defs[i].purity != Purity::Pure);
        }
        if (all.returns)(at).has(t) {
            let i = choose|i: int| 0 <= i < n && ((#[trigger] first[i]).returns)(at).has(t);
            assert((type_defs[i].returns)(at).has(t));
        }
    }
}

/// What is known of a field.
proof fn lemma_known_fields(names: Seq<Seq<char>>, type_defs: Seq<TypeDefModel>)
    requires
        names.len() == type_defs.len(),
    ensures
        forall|name: Seq<char>| #[trigger]
            container::known_fields(names, type_defs).contains_key(name) <==> names.contains(name),
        forall|i: int|
            0 <= i < names.len() && (forall|j: int|
                i < j < names.len() ==> #[trigger] names[j] != names[i])
                ==> container::known_fields(names, type_defs)[#[trigger] names[i]]
                == shape::null_if_missing(type_defs[i].kind),
    decreases names.len(),
{
    let all = container::known_fields(names, type_defs);
    if names.len() > 0 {
        let first = names.drop_last();
        lemma_known_fields(first, type_defs.drop_last());
        let before = container::known_fields(first, type_defs.drop_last());
        assert forall|name: Seq<char>| #[trigger] all.contains_key(name) <==> names.contains(
            name,
        ) by {
            assert(before.contains_key(name) <==> first.contains(name));
            if first.contains(name) {
                let i = choose|i: int| 0 <= i < first.len() && first[i] == name;
                assert(names[i] == name);
            }
            if names.contains(name) {
                let i = choose|i: int| 0 <= i < names.len() && names[i] == name;
                if i < first.len() {
                    assert(first[i] == name);
                }
            }
            assert(names.last() == names[names.len() - 1]);
        }
        assert forall|i: int|
            0 <= i < names.len() && (forall|j: int|
                i < j < names.len() ==> #[trigger] names[j] != names[i]) implies all[
            #[trigger] names[i]] == shape::null_if_missing(type_defs[i].kind) by {
            if i < first.len() {
                assert(names[names.len() - 1] != names[i]);
                assert(first[i] == names[i]);
                assert forall|j: int| i < j < first.len() implies #[trigger] first[j]
                    != first[i] by {
                    assert(names[j] != names[i]);
                }
            }
        }
    }
}

} // verus!
