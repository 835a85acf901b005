//! Calls of functions.
use crate::compiler::context::{Context, ContextModel};
use crate::compiler::expression::error;
use crate::compiler::expression::error::{ExpressionError, Outcome, Resolved};
use crate::compiler::expression::Expression;
use crate::compiler::state::{TypeInfo, TypeInfoModel, TypeState, TypeStateModel};
use crate::text::Wording;
use crate::value::{Value, ValueModel};
use std::borrow::Cow;
use std::sync::Arc;
use vstd::prelude::*;

verus! {

/// A function with its arguments.
pub trait FunctionExpression {
    /// Whether the call may end so, and leave this context behind.
    spec fn resolves(&self, before: ContextModel, after: ContextModel, outcome: Outcome) -> bool;

    /// What is known of the result, and what is known afterwards.
    spec fn typed(&self, state: TypeStateModel) -> TypeInfoModel;

    /// Calls the function.
    fn resolve(&self, ctx: &mut Context) -> (r: Resolved)
        ensures
            self.resolves(old(ctx)@, final(ctx)@, error::outcome(r)),
    ;

    /// What is known of the result, and what is known afterwards.
    fn type_info(&self, state: &TypeState) -> (r: TypeInfo)
        ensures
            r@ == self.typed(state@),
    ;
}

/// A function with its arguments, in a box.
pub struct Function {
    pub expression: Box<dyn FunctionExpression>,
}

/// A call of a function.
pub struct FunctionCall {
    wording: Wording,
    function: Arc<Function>,
}

impl FunctionCall {
    /// How the call is written.
    pub closed spec fn text(&self) -> Seq<char> {
        self.wording.written@
    }

    /// How the call is shown to those who look for a mistake.
    pub closed spec fn debug_text(&self) -> Seq<char> {
        self.wording.shown@
    }

    /// The function with its arguments.
    pub closed spec fn function(&self) -> Function {
        *self.function
    }

    /// Whether the call may end so, and leave this context behind.
    pub open spec fn resolves_to(
        &self,
        before: ContextModel,
        after: ContextModel,
        outcome: Outcome,
    ) -> bool {
        self.function().expression.resolves(before, after, outcome)
    }

    /// What is known of the result, and what is known afterwards.
    pub open spec fn type_in(&self, state: TypeStateModel) -> TypeInfoModel {
        self.function().expression.typed(state)
    }

    /// The call of a function that is written and shown so.
    pub fn new(wording: Wording, function: Function) -> (r: Self)
        ensures
            r.text() == wording.written@,
            r.debug_text() == wording.shown@,
            r.function() == function,
    {
        FunctionCall { wording, function: Arc::new(function) }
    }

    /// How the call is written.
    pub fn as_str(&self) -> (r: &str)
        ensures
            r@ == self.text(),
    {
        self.wording.written.as_str()
    }

    /// How the call is shown to those who look for a mistake.
    pub fn as_debug_str(&self) -> (r: &str)
        ensures
            r@ == self.debug_text(),
    {
        self.wording.shown.as_str()
    }
}

impl Clone for FunctionCall {
    fn clone(&self) -> (r: Self)
        ensures
            r == *self,
    {
        FunctionCall { wording: self.wording.clone(), function: self.function.clone() }
    }
}

impl vstd::std_specs::cmp::PartialEqSpecImpl for FunctionCall {
    open spec fn obeys_eq_spec() -> bool {
        true
    }

    open spec fn eq_spec(&self, other: &Self) -> bool {
        self.text() == other.text()
    }
}

impl PartialEq for FunctionCall {
    /// Two calls are equal if they are written the same.
    fn eq(&self, other: &Self) -> (r: bool) {
        self.wording.written == other.wording.written
    }
}

impl Expression for FunctionCall {
    open spec fn resolves(
        &self,
        before: ContextModel,
        after: ContextModel,
        outcome: Outcome,
    ) -> bool {
        self.resolves_to(before, after, outcome)
    }

    open spec fn constant(&self, state: TypeStateModel) -> Option<ValueModel> {
        None
    }

    open spec fn typed(&self, state: TypeStateModel) -> TypeInfoModel {
        self.type_in(state)
    }

    fn resolve(&self, ctx: &mut Context) -> (r: Resolved) {
        self.function.expression.resolve(ctx)
    }

    fn resolve_ref<'a>(&self, ctx: &'a mut Context<'_>) -> (r: Result<
        Cow<'a, Value>,
        ExpressionError,
    >) {
        match self.resolve(ctx) {
            Ok(value) => Ok(Cow::Owned(value)),
            Err(error) => Err(error),
        }
    }

    fn resolve_constant(&self, state: &TypeState) -> (r: Option<Value>) {
        None
    }

    fn type_info(&self, state: &TypeState) -> (r: TypeInfo) {
        self.function.expression.type_info(state)
    }
}

} // verus!
