//! Expressions: what they evaluate to, and what is known of that before they run.
use crate::compiler::context::{Context, ContextModel};
use crate::compiler::expression::container::Container;
use crate::compiler::expression::error::{ExpressionError, Outcome, Resolved};
use crate::compiler::expression::function_call::FunctionCall;
use crate::compiler::expression::query::Query;
use crate::compiler::expression::variable::Variable;
use crate::compiler::state::{TypeInfo, TypeInfoModel, TypeState, TypeStateModel};
use crate::compiler::type_def;
use crate::compiler::type_def::{TypeDef, TypeDefModel};
use crate::kind::of_value;
use crate::kind::Kind;
use crate::value::{Value, ValueModel};
use std::borrow::Cow;
use vstd::prelude::*;

pub mod container;
pub mod error;
pub mod function_call;
pub mod laws;
pub mod query;
pub mod soundness;
pub mod variable;

verus! {

/// An expression.
pub trait Expression {
    /// Whether the evaluation may end so, and leave this context behind.
    spec fn resolves(&self, before: ContextModel, after: ContextModel, outcome: Outcome) -> bool;

    /// The value, where it is known before the program runs.
    spec fn constant(&self, state: TypeStateModel) -> Option<ValueModel>;

    /// What is known of the result, and what is known afterwards.
    spec fn typed(&self, state: TypeStateModel) -> TypeInfoModel;

    /// Evaluates the expression.
    fn resolve(&self, ctx: &mut Context) -> (r: Resolved)
        ensures
            self.resolves(old(ctx)@, final(ctx)@, error::outcome(r)),
    ;

    /// Evaluates the expression. The result is borrowed where it can be.
    fn resolve_ref<'a>(&self, ctx: &'a mut Context<'_>) -> (r: Result<
        Cow<'a, Value>,
        ExpressionError,
    >)
        ensures
            self.resolves(old(ctx)@, final(ctx)@, error::borrowed_outcome(r)),
    ;

    /// The value, where it is known before the program runs.
    fn resolve_constant(&self, state: &TypeState) -> (r: Option<Value>)
        ensures
            type_def::value_model(r) == self.constant(state@),
    ;

    /// What is known of the result, and what is known afterwards.
    fn type_info(&self, state: &TypeState) -> (r: TypeInfo)
        ensures
            r@ == self.typed(state@),
    ;
}

/// An expression that stands inside another one.
pub enum Expr {
    Literal(Value),
    Container(Container),
    Query(Box<Query>),
    FunctionCall(FunctionCall),
    Variable(Variable),
}

/// Whether the evaluation of an expression may end so, and leave this context behind.
pub open spec fn expr_resolves(
    expr: Expr,
    before: ContextModel,
    after: ContextModel,
    outcome: Outcome,
) -> bool
    decreases expr, 0nat,
{
    match expr {
        Expr::Literal(value) => after == before && outcome == Ok::<ValueModel, error::ErrorModel>(
            value@,
        ),
        Expr::Container(container) => container::container_resolves(
            container,
            before,
            after,
            outcome,
        ),
        Expr::Query(query) => query::query_resolves(*query, before, after, outcome),
        Expr::FunctionCall(call) => call.resolves_to(before, after, outcome),
        Expr::Variable(variable) => variable.resolves_to(before, after, outcome),
    }
}

/// The value of an expression, where it is known before the program runs.
pub open spec fn expr_constant(expr: Expr, state: TypeStateModel) -> Option<ValueModel>
    decreases expr,
{
    match expr {
        Expr::Literal(value) => Some(value@),
        Expr::Container(container) => container::container_constant(container, state),
        Expr::Query(query) => query::query_constant(*query, state),
        Expr::FunctionCall(_) => None,
        Expr::Variable(variable) => variable.constant_in(state),
    }
}

/// What is known of the result of an expression, and what is known afterwards.
pub open spec fn expr_typed(expr: Expr, state: TypeStateModel) -> TypeInfoModel
    decreases expr,
{
    match expr {
        Expr::Literal(value) => TypeInfoModel {
            state,
            result: TypeDefModel::plain(of_value::shape_of(value@)),
        },
        Expr::Container(container) => container::container_typed(container, state),
        Expr::Query(query) => query::query_typed(*query, state),
        Expr::FunctionCall(call) => call.type_in(state),
        Expr::Variable(variable) => TypeInfoModel { state, result: variable.type_in(state) },
    }
}

/// Whether two expressions are the same. Calls are if they are written the same.
pub open spec fn same_expr(a: Expr, b: Expr) -> bool
    decreases a,
{
    match (a, b) {
        (Expr::Literal(a), Expr::Literal(b)) => a@ == b@,
        (Expr::Container(a), Expr::Container(b)) => container::same_container(a, b),
        (Expr::Query(a), Expr::Query(b)) => query::same_query(*a, *b),
        (Expr::FunctionCall(a), Expr::FunctionCall(b)) => a.text() == b.text(),
        (Expr::Variable(a), Expr::Variable(b)) => a.name() == b.name(),
        _ => false,
    }
}

impl Expr {
    pub(super) fn same(&self, other: &Expr) -> (r: bool)
        ensures
            r == same_expr(*self, *other),
        decreases self,
    {
        match (self, other) {
            (Expr::Literal(a), Expr::Literal(b)) => *a == *b,
            (Expr::Container(a), Expr::Container(b)) => a.same(b),
            (Expr::Query(a), Expr::Query(b)) => a.same(b),
            (Expr::FunctionCall(a), Expr::FunctionCall(b)) => *a == *b,
            (Expr::Variable(a), Expr::Variable(b)) => *a == *b,
            _ => false,
        }
    }
}

impl vstd::std_specs::cmp::PartialEqSpecImpl for Expr {
    open spec fn obeys_eq_spec() -> bool {
        true
    }

    open spec fn eq_spec(&self, other: &Self) -> bool {
        same_expr(*self, *other)
    }
}

impl PartialEq for Expr {
    fn eq(&self, other: &Self) -> (r: bool) {
        self.same(other)
    }
}

impl Expression for Expr {
    open spec fn resolves(
        &self,
        before: ContextModel,
        after: ContextModel,
        outcome: Outcome,
    ) -> bool {
        expr_resolves(*self, before, after, outcome)
    }

    open spec fn constant(&self, state: TypeStateModel) -> Option<ValueModel> {
        expr_constant(*self, state)
    }

    open spec fn typed(&self, state: TypeStateModel) -> TypeInfoModel {
        expr_typed(*self, state)
    }

    fn resolve(&self, ctx: &mut Context) -> (r: Resolved)
        decreases self,
    {
        match self {
            Expr::Literal(value) => Ok(value.clone()),
            Expr::Container(container) => container.resolve(ctx),
            Expr::Query(query) => query.resolve(ctx),
            Expr::FunctionCall(call) => call.resolve(ctx),
            Expr::Variable(variable) => variable.resolve(ctx),
        }
    }

    fn resolve_ref<'a>(&self, ctx: &'a mut Context<'_>) -> (r: Result<
        Cow<'a, Value>,
        ExpressionError,
    >) {
        match self {
            Expr::Literal(value) => Ok(Cow::Owned(value.clone())),
            Expr::Container(container) => container.resolve_ref(ctx),
            Expr::Query(query) => query.resolve_ref(ctx),
            Expr::FunctionCall(call) => call.resolve_ref(ctx),
            Expr::Variable(variable) => variable.resolve_ref(ctx),
        }
    }

    fn resolve_constant(&self, state: &TypeState) -> (r: Option<Value>)
        decreases self,
    {
        match self {
            Expr::Literal(value) => Some(value.clone()),
            Expr::Container(container) => container.resolve_constant(state),
            Expr::Query(query) => query.resolve_constant(state),
            Expr::FunctionCall(call) => call.resolve_constant(state),
            Expr::Variable(variable) => variable.resolve_constant(state),
        }
    }

    fn type_info(&self, state: &TypeState) -> (r: TypeInfo)
        decreases self,
    {
        match self {
            Expr::Literal(value) => TypeInfo::new(state, TypeDef::from(Kind::of(value))),
            Expr::Container(container) => container.type_info(state),
            Expr::Query(query) => query.type_info(state),
            Expr::FunctionCall(call) => call.type_info(state),
            Expr::Variable(variable) => variable.type_info(state),
        }
    }
}

} // verus!
