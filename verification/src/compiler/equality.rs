//! When two things are equal: if they are made up the same.
use crate::compiler::expression;
use crate::compiler::expression::container;
use crate::compiler::expression::container::Container;
use crate::compiler::expression::error::ExpressionError;
use crate::compiler::expression::function_call::FunctionCall;
use crate::compiler::expression::query::{Query, Target};
use crate::compiler::expression::variable::Variable;
use crate::compiler::expression::Expr;
use crate::compiler::ident::Ident;
use crate::compiler::state::{LocalEnv, SharedBindings};
use crate::compiler::type_def::{Details, TypeDef};
use crate::kind::Kind;
use crate::path::{OwnedSegment, OwnedTargetPath, OwnedValuePath};
use crate::value::Value;
use crate::value_regex::ValueRegex;
use vstd::prelude::*;
use vstd::std_specs::cmp::PartialEqSpec;

verus! {

/// Two values are equal if and only if they are the same, whatever they are held in.
pub proof fn equal_values_are_the_same(a: Value, b: Value, c: ValueRegex, d: ValueRegex)
    ensures
        a.eq_spec(&b) <==> a@ == b@,
        c.eq_spec(&d) <==> c@ == d@,
{
}

/// Two paths are equal if and only if they lead the same way.
pub proof fn equal_paths_are_the_same(
    segments: (OwnedSegment, OwnedSegment),
    paths: (OwnedValuePath, OwnedValuePath),
    targets: (OwnedTargetPath, OwnedTargetPath),
)
    ensures
        segments.0.eq_spec(&segments.1) <==> segments.0@ == segments.1@,
        paths.0.eq_spec(&paths.1) <==> paths.0@ == paths.1@,
        targets.0.eq_spec(&targets.1) <==> targets.0@ == targets.1@,
{
}

/// Two kinds, types, details or environments are equal if and only if they say the same.
pub proof fn what_is_equal_says_the_same(
    kinds: (Kind, Kind),
    type_defs: (TypeDef, TypeDef),
    details: (Details, Details),
    bindings: (SharedBindings, SharedBindings),
    envs: (LocalEnv, LocalEnv),
    idents: (Ident, Ident),
    errors: (ExpressionError, ExpressionError),
)
    ensures
        kinds.0.eq_spec(&kinds.1) <==> kinds.0@ == kinds.1@,
        type_defs.0.eq_spec(&type_defs.1) <==> type_defs.0@ == type_defs.1@,
        details.0.eq_spec(&details.1) <==> details.0@ == details.1@,
        bindings.0.eq_spec(&bindings.1) <==> bindings.0@ == bindings.1@,
        envs.0.eq_spec(&envs.1) <==> envs.0@ == envs.1@,
        idents.0.eq_spec(&idents.1) <==> idents.0@ == idents.1@,
        errors.0.eq_spec(&errors.1) <==> errors.0@ == errors.1@,
{
}

/// Two queries are equal if and only if they follow the same path into equal targets.
pub proof fn equal_queries_look_into_the_same(a: Query, b: Query)
    ensures
        a.eq_spec(&b) <==> a.steps() == b.steps() && a.looks_into().eq_spec(&b.looks_into()),
{
}

/// Two targets are equal if they are variables of the same name, the same part of the event, calls
/// that are written the same, or equal containers.
pub proof fn equal_targets_are_of_one_sort(a: Target, b: Target)
    ensures
        a.eq_spec(&b) <==> {
            ||| a is Internal && b is Internal && a->Internal_0.name() == b->Internal_0.name()
            ||| a is External && b is External && a->External_0 == b->External_0
            ||| a is FunctionCall && b is FunctionCall && a->FunctionCall_0.text()
                == b->FunctionCall_0.text()
            ||| a is Container && b is Container && a->Container_0.eq_spec(&b->Container_0)
        },
{
}

/// Two containers are equal if and only if both are arrays, or objects with the same names, and their
/// items are equal, one by one.
pub proof fn equal_containers_have_equal_items(a: Container, b: Container)
    ensures
        a.eq_spec(&b) <==> {
            &&& a.names() == b.names()
            &&& a.items().len() == b.items().len()
            &&& forall|i: int|
                0 <= i < a.items().len() ==> #[trigger] a.items()[i].eq_spec(&b.items()[i])
        },
{
    if container::same_container(a, b) {
        assert forall|i: int| 0 <= i < a.items().len() implies #[trigger] a.items()[i].eq_spec(
            &b.items()[i],
        ) by {
            assert(expression::same_expr(a.items()[i], b.items()[i]));
        }
    }
    if a.items().len() == b.items().len() && forall|i: int|
        0 <= i < a.items().len() ==> #[trigger] a.items()[i].eq_spec(&b.items()[i]) {
        assert forall|i: int| 0 <= i < a.items().len() implies expression::same_expr(
            #[trigger] a.items()[i],
            b.items()[i],
        ) by {
            assert(a.items()[i].eq_spec(&b.items()[i]));
        }
    }
}

/// Two expressions are equal if they are of one sort and made up the same. Calls are if they are
/// written the same.
pub proof fn equal_expressions_are_of_one_sort(a: Expr, b: Expr)
    ensures
        a.eq_spec(&b) <==> {
            ||| a is Literal && b is Literal && a->Literal_0@ == b->Literal_0@
            ||| a is Container && b is Container && a->Container_0.eq_spec(&b->Container_0)
            ||| a is Query && b is Query && (*a->Query_0).eq_spec(&*b->Query_0)
            ||| a is FunctionCall && b is FunctionCall && a->FunctionCall_0.text()
                == b->FunctionCall_0.text()
            ||| a is Variable && b is Variable && a->Variable_0.name() == b->Variable_0.name()
        },
{
}

/// Two calls are equal if and only if they are written the same, two variables if and only if they
/// have the same name.
pub proof fn equal_calls_are_written_the_same(
    calls: (FunctionCall, FunctionCall),
    variables: (Variable, Variable),
)
    ensures
        calls.0.eq_spec(&calls.1) <==> calls.0.text() == calls.1.text(),
        variables.0.eq_spec(&variables.1) <==> variables.0.name() == variables.1.name(),
{
}

} // verus!
