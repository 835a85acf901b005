//! Queries: what a path finds in a variable, in the event, or in the result of an expression.
use crate::compiler::context::{Context, ContextModel};
use crate::compiler::expression::container;
use crate::compiler::expression::container::Container;
use crate::compiler::expression::error;
use crate::compiler::expression::error::{ErrorModel, ExpressionError, Outcome, Resolved};
use crate::compiler::expression::function_call::FunctionCall;
use crate::compiler::expression::variable;
use crate::compiler::expression::variable::Variable;
use crate::compiler::expression::Expression;
use crate::compiler::ident::Ident;
use crate::compiler::state::{
    ExternalEnv, ExternalModel, TypeInfo, TypeInfoModel, TypeState, TypeStateModel,
};
use crate::compiler::type_def;
use crate::compiler::type_def::{Details, DetailsModel, TypeDef, TypeDefModel};
use crate::kind::shape;
use crate::path;
use crate::path::{OwnedTargetPath, OwnedValuePath, PathPrefix, Step, TargetPath};
use crate::value;
use crate::value::{Value, ValueModel};
use std::borrow::Cow;
use vstd::prelude::*;

verus! {

/// What a query looks into.
pub enum Target {
    /// A variable.
    Internal(Variable),
    /// The event or its metadata.
    External(PathPrefix),
    /// The result of a call.
    FunctionCall(FunctionCall),
    /// An array or an object that is written out.
    Container(Container),
}

/// A query: a path into a variable, into the event or its metadata, or into the result of an
/// expression.
pub struct Query {
    target: Target,
    path: OwnedValuePath,
}

impl Query {
    /// What the query looks into.
    pub closed spec fn looks_into(&self) -> Target {
        self.target
    }

    /// The path that it follows.
    pub closed spec fn steps(&self) -> Seq<Step> {
        self.path@
    }
}

/// What a path finds in the result of an expression.
pub open spec fn found_in_result(outcome: Outcome, path: Seq<Step>) -> Outcome {
    match outcome {
        Ok(value) => Ok(value::leaf(value, path)),
        Err(error) => Err(error),
    }
}

/// What a query of the event or its metadata finds, if anything.
pub open spec fn found_outside(
    context: ContextModel,
    prefix: PathPrefix,
    path: Seq<Step>,
) -> Option<ValueModel> {
    (context.found)(TargetPath { prefix, path })
}

/// What a query of a variable finds, if anything.
pub open spec fn found_in_variable(
    context: ContextModel,
    variable: Variable,
    path: Seq<Step>,
) -> Option<ValueModel> {
    if context.variables.contains_key(variable.name()) {
        value::lookup(context.variables[variable.name()], path)
    } else {
        None
    }
}

/// What was found, or null.
pub open spec fn or_null(found: Option<ValueModel>) -> ValueModel {
    match found {
        Some(value) => value,
        None => ValueModel::Null,
    }
}

/// Whether the evaluation of a query may end so, and leave this context behind.
pub open spec fn query_resolves(
    query: Query,
    before: ContextModel,
    after: ContextModel,
    outcome: Outcome,
) -> bool
    decreases query, 0nat,
{
    let path = query.steps();
    match query.looks_into() {
        Target::External(prefix) => {
            &&& after == before
            &&& outcome == Ok::<ValueModel, ErrorModel>(
                or_null(found_outside(before, prefix, path)),
            )
        },
        Target::Internal(variable) => {
            &&& after == before
            &&& outcome == Ok::<ValueModel, ErrorModel>(
                or_null(found_in_variable(before, variable, path)),
            )
        },
        Target::FunctionCall(call) => exists|result: Outcome|
            outcome == #[trigger] found_in_result(result, path) && call.resolves_to(
                before,
                after,
                result,
            ),
        Target::Container(container) => exists|result: Outcome|
            outcome == #[trigger] found_in_result(result, path) && container::container_resolves(
                container,
                before,
                after,
                result,
            ),
    }
}

/// The value of a query, where it is known before the program runs.
pub open spec fn query_constant(query: Query, state: TypeStateModel) -> Option<ValueModel> {
    match query.looks_into() {
        Target::Internal(variable) => match variable.constant_in(state) {
            Some(value) => value::lookup(value, query.steps()),
            None => None,
        },
        _ => None,
    }
}

/// What is known of the result of a query, and what is known afterwards.
pub open spec fn query_typed(query: Query, state: TypeStateModel) -> TypeInfoModel
    decreases query,
{
    let path = query.steps();
    match query.looks_into() {
        Target::External(prefix) => TypeInfoModel {
            state,
            result: TypeDefModel::plain(shape::at_path(state.external.kind(prefix), path)),
        },
        Target::Internal(variable) => TypeInfoModel {
            state,
            result: variable.type_in(state).at_path(path),
        },
        Target::FunctionCall(call) => {
            let info = call.type_in(state);
            TypeInfoModel { state: info.state, result: info.result.at_path(path) }
        },
        Target::Container(container) => {
            let info = container::container_typed(container, state);
            TypeInfoModel { state: info.state, result: info.result.at_path(path) }
        },
    }
}

impl Clone for Target {
    fn clone(&self) -> (r: Self)
        ensures
            r == *self,
    {
        match self {
            Target::Internal(variable) => Target::Internal(variable.clone()),
            Target::External(prefix) => Target::External(*prefix),
            Target::FunctionCall(call) => Target::FunctionCall(call.clone()),
            Target::Container(container) => Target::Container(container.clone()),
        }
    }
}

/// Whether two targets are the same: the same variable, the same part of the event, the same
/// container, or a call that is written the same.
pub open spec fn same_target(a: Target, b: Target) -> bool
    decreases a,
{
    match (a, b) {
        (Target::Internal(a), Target::Internal(b)) => a.name() == b.name(),
        (Target::External(a), Target::External(b)) => a == b,
        (Target::FunctionCall(a), Target::FunctionCall(b)) => a.text() == b.text(),
        (Target::Container(a), Target::Container(b)) => container::same_container(a, b),
        _ => false,
    }
}

/// Whether two queries are the same: they follow the same path into the same target.
pub open spec fn same_query(a: Query, b: Query) -> bool
    decreases a,
{
    same_target(a.looks_into(), b.looks_into()) && a.steps() == b.steps()
}

impl Target {
    fn same(&self, other: &Target) -> (r: bool)
        ensures
            r == same_target(*self, *other),
        decreases self,
    {
        match (self, other) {
            (Target::Internal(a), Target::Internal(b)) => *a == *b,
            (Target::External(a), Target::External(b)) => *a == *b,
            (Target::FunctionCall(a), Target::FunctionCall(b)) => *a == *b,
            (Target::Container(a), Target::Container(b)) => a.same(b),
            _ => false,
        }
    }
}

impl Query {
    pub(super) fn same(&self, other: &Query) -> (r: bool)
        ensures
            r == same_query(*self, *other),
        decreases self,
    {
        self.target.same(&other.target) && self.path == other.path
    }
}

impl vstd::std_specs::cmp::PartialEqSpecImpl for Target {
    open spec fn obeys_eq_spec() -> bool {
        true
    }

    open spec fn eq_spec(&self, other: &Self) -> bool {
        same_target(*self, *other)
    }
}

impl PartialEq for Target {
    fn eq(&self, other: &Self) -> (r: bool) {
        self.same(other)
    }
}

impl vstd::std_specs::cmp::PartialEqSpecImpl for Query {
    open spec fn obeys_eq_spec() -> bool {
        true
    }

    open spec fn eq_spec(&self, other: &Self) -> bool {
        same_query(*self, *other)
    }
}

impl PartialEq for Query {
    fn eq(&self, other: &Self) -> (r: bool) {
        self.same(other)
    }
}

impl Clone for Query {
    fn clone(&self) -> (r: Self)
        ensures
            r.looks_into() == self.looks_into(),
            r.steps() == self.steps(),
    {
        Query { target: self.target.clone(), path: self.path.clone() }
    }
}

impl Query {
    /// The query that follows `path` into `target`.
    pub fn new(target: Target, path: OwnedValuePath) -> (r: Self)
        ensures
            r.looks_into() == target,
            r.steps() == path@,
    {
        Query { target, path }
    }

    /// The path that the query follows.
    pub fn path(&self) -> (r: &OwnedValuePath)
        ensures
            r@ == self.steps(),
    {
        &self.path
    }

    /// What the query looks into.
    pub fn target(&self) -> (r: &Target)
        ensures
            *r == self.looks_into(),
    {
        &self.target
    }

    /// Whether the query looks into the event or its metadata.
    pub fn is_external(&self) -> (r: bool)
        ensures
            r == (self.looks_into() is External),
    {
        matches!(self.target, Target::External(_))
    }

    /// The path into the event or its metadata, if the query looks into these.
    pub fn external_path(&self) -> (r: Option<OwnedTargetPath>)
        ensures
            match (self.looks_into(), r) {
                (Target::External(prefix), Some(path)) => path@ == (TargetPath {
                    prefix,
                    path: self.steps(),
                }),
                (Target::External(_), None) => false,
                (_, Some(_)) => false,
                (_, None) => true,
            },
    {
        match &self.target {
            Target::External(prefix) => Some(
                OwnedTargetPath { prefix: *prefix, path: self.path.clone() },
            ),
            _ => None,
        }
    }

    /// The variable that the query looks into, if it looks into one.
    pub fn as_variable(&self) -> (r: Option<&Variable>)
        ensures
            match (self.looks_into(), r) {
                (Target::Internal(variable), Some(same)) => *same == variable,
                (Target::Internal(_), None) => false,
                (_, Some(_)) => false,
                (_, None) => true,
            },
    {
        match &self.target {
            Target::Internal(variable) => Some(variable),
            _ => None,
        }
    }

    /// The name of the variable that the query looks into, if it looks into one.
    pub fn variable_ident(&self) -> (r: Option<&Ident>)
        ensures
            match (self.looks_into(), r) {
                (Target::Internal(variable), Some(ident)) => ident@ == variable.name(),
                (Target::Internal(_), None) => false,
                (_, Some(_)) => false,
                (_, None) => true,
            },
    {
        match &self.target {
            Target::Internal(variable) => Some(variable.ident()),
            _ => None,
        }
    }
}

/// How the target of a query is written.
pub open spec fn target_text(target: Target) -> Seq<char> {
    match target {
        Target::Internal(variable) => variable.name(),
        Target::External(PathPrefix::Event) => seq!['.'],
        Target::External(PathPrefix::Metadata) => seq!['%'],
        Target::FunctionCall(call) => call.text(),
        Target::Container(container) => container.text(),
    }
}

/// How a query is written: a field of a variable stands behind a dot.
pub open spec fn query_text(target: Target, path: Seq<Step>) -> Seq<char> {
    if target is Internal && path.len() > 0 && path[0] is Field {
        target_text(target) + seq!['.'] + path::path_text(path)
    } else {
        target_text(target) + path::path_text(path)
    }
}

/// How the target of a query is shown to those who look for a mistake.
pub open spec fn target_debug_text(target: Target) -> Seq<char> {
    match target {
        Target::Internal(var) => "Internal("@ + variable::variable_debug_text(var.name()) + ")"@,
        Target::External(PathPrefix::Event) => "External(Event)"@,
        Target::External(PathPrefix::Metadata) => "External(Metadata)"@,
        Target::FunctionCall(call) => call.debug_text(),
        Target::Container(container) => container.debug_text(),
    }
}

/// How a query is shown to those who look for a mistake.
pub open spec fn query_debug_text(target: Target, path: Seq<Step>) -> Seq<char> {
    "Query("@ + target_debug_text(target) + ", "@ + path::path_debug_text(path) + ")"@
}

impl Target {
    /// How the target is shown to those who look for a mistake.
    pub fn to_debug_text(&self) -> (r: String)
        ensures
            r@ == target_debug_text(*self),
    {
        match self {
            Target::Internal(variable) => {
                let mut r = "Internal(".to_string();
                r.append(variable.to_debug_text().as_str());
                r.append(")");
                r
            },
            Target::External(PathPrefix::Event) => "External(Event)".to_string(),
            Target::External(PathPrefix::Metadata) => "External(Metadata)".to_string(),
            Target::FunctionCall(call) => call.as_debug_str().to_string(),
            Target::Container(container) => container.as_debug_str().to_string(),
        }
    }

    /// How the target is written.
    pub fn to_text(&self) -> (r: String)
        ensures
            r@ == target_text(*self),
    {
        match self {
            Target::Internal(variable) => variable.ident().as_str().to_string(),
            Target::External(prefix) => {
                let mut r = String::new();
                match prefix {
                    PathPrefix::Event => {
                        r.push('.');
                    },
                    PathPrefix::Metadata => {
                        r.push('%');
                    },
                }
                assert(r@ =~= target_text(*self));
                r
            },
            Target::FunctionCall(call) => call.as_str().to_string(),
            Target::Container(container) => container.as_str().to_string(),
        }
    }
}

/// Whether the evaluation of a call or a container that a query looks into may end so, and leave
/// this context behind.
pub open spec fn target_resolves(
    target: Target,
    before: ContextModel,
    after: ContextModel,
    outcome: Outcome,
) -> bool {
    match target {
        Target::FunctionCall(call) => call.resolves_to(before, after, outcome),
        Target::Container(container) => container::container_resolves(
            container,
            before,
            after,
            outcome,
        ),
        _ => false,
    }
}

/// The value of a call or a container that a query looks into, where it is known before the program
/// runs.
pub open spec fn target_constant(target: Target, state: TypeStateModel) -> Option<ValueModel> {
    match target {
        Target::Container(container) => container::container_constant(container, state),
        _ => None,
    }
}

/// What is known of the result of a call or a container that a query looks into, and what is known
/// afterwards. Other targets have no result of their own.
pub open spec fn target_typed(target: Target, state: TypeStateModel) -> TypeInfoModel {
    match target {
        Target::FunctionCall(call) => call.type_in(state),
        Target::Container(container) => container::container_typed(container, state),
        _ => TypeInfoModel { state, result: TypeDefModel::plain(shape::missing()) },
    }
}

/// The event and metadata after the value that a query finds was deleted. Only what is known of the
/// event or its metadata changes, and only if the query looks into these.
pub open spec fn after_deletion(
    target: Target,
    path: Seq<Step>,
    external: ExternalModel,
    compact: bool,
) -> ExternalModel {
    match target {
        Target::External(PathPrefix::Event) => ExternalModel {
            target: DetailsModel {
                type_def: external.target.type_def.with_kind(
                    shape::remove(external.target.type_def.kind, path, compact),
                ),
                value: None,
            },
            ..external
        },
        Target::External(PathPrefix::Metadata) => ExternalModel {
            metadata: shape::remove(external.metadata, path, compact),
            ..external
        },
        _ => external,
    }
}

impl Query {
    /// The expression that the query looks into, if it is a call or a container.
    pub fn expression_target(&self) -> (r: Option<&dyn Expression>)
        ensures
            r is Some <==> self.looks_into() is FunctionCall || self.looks_into() is Container,
            r matches Some(expression) ==> forall|
                before: ContextModel,
                after: ContextModel,
                outcome: Outcome,
            |
                #[trigger] expression.resolves(before, after, outcome) == target_resolves(
                    self.looks_into(),
                    before,
                    after,
                    outcome,
                ),
            r matches Some(expression) ==> forall|state: TypeStateModel| #[trigger]
                expression.constant(state) == target_constant(self.looks_into(), state),
            r matches Some(expression) ==> forall|state: TypeStateModel| #[trigger]
                expression.typed(state) == target_typed(self.looks_into(), state),
    {
        match &self.target {
            Target::FunctionCall(call) => Some(call),
            Target::Container(container) => Some(container),
            _ => None,
        }
    }

    /// Takes what is known of the event or its metadata to be what it is after the value that the
    /// query finds was deleted. Only queries that look into these are supported, others are
    /// ignored.
    pub fn delete_type_def(&self, external: &mut ExternalEnv, compact: bool)
        ensures
            final(external)@ == after_deletion(
                self.looks_into(),
                self.steps(),
                old(external)@,
                compact,
            ),
    {
        if let Some(target_path) = self.external_path() {
            match target_path.prefix {
                PathPrefix::Event => {
                    let mut type_def = external.target().type_def.clone();
                    type_def.remove(&target_path.path, compact);
                    external.update_target(Details { type_def, value: None });
                },
                PathPrefix::Metadata => {
                    let mut kind = external.metadata_kind().clone();
                    kind.remove(&target_path.path, compact);
                    external.update_metadata(kind);
                },
            }
        }
    }

    /// How the query is shown to those who look for a mistake.
    pub fn to_debug_text(&self) -> (r: String)
        ensures
            r@ == query_debug_text(self.looks_into(), self.steps()),
    {
        let mut r = "Query(".to_string();
        r.append(self.target.to_debug_text().as_str());
        r.append(", ");
        r.append(self.path.to_debug_text().as_str());
        r.append(")");
        r
    }

    /// How the query is written.
    pub fn to_text(&self) -> (r: String)
        ensures
            r@ == query_text(self.looks_into(), self.steps()),
    {
        let mut r = self.target.to_text();
        match &self.target {
            Target::Internal(_) => {
                if !self.path.is_root() && !self.path.segments[0].is_index() {
                    r.push('.');
                }
            },
            _ => {},
        }
        let path = self.path.to_text();
        r.append(path.as_str());
        assert(r@ =~= query_text(self.looks_into(), self.steps()));
        r
    }
}

impl Expression for Query {
    open spec fn resolves(
        &self,
        before: ContextModel,
        after: ContextModel,
        outcome: Outcome,
    ) -> bool {
        query_resolves(*self, before, after, outcome)
    }

    open spec fn constant(&self, state: TypeStateModel) -> Option<ValueModel> {
        query_constant(*self, state)
    }

    open spec fn typed(&self, state: TypeStateModel) -> TypeInfoModel {
        query_typed(*self, state)
    }

    fn resolve(&self, ctx: &mut Context) -> (r: Resolved)
        ensures
            query_resolves(*self, old(ctx)@, final(ctx)@, error::outcome(r)),
        decreases self,
    {
        let value = match &self.target {
            Target::External(prefix) => {
                let path = OwnedTargetPath { prefix: *prefix, path: self.path.clone() };
                return match ctx.target.target_get(&path) {
                    Ok(Some(value)) => Ok(value.clone()),
                    _ => Ok(Value::Null),
                };
            },
            // Index the variable in place and clone only the leaf. Resolving the variable first
            // would deep-clone the whole value just to read one field off the copy and drop the
            // rest.
            Target::Internal(variable) => {
                return match ctx.state().variable(variable.ident()) {
                    Some(value) => match value.get(&self.path) {
                        Some(leaf) => Ok(leaf.clone()),
                        None => Ok(Value::Null),
                    },
                    None => Ok(Value::Null),
                };
            },
            Target::FunctionCall(call) => match call.resolve(ctx) {
                Ok(value) => value,
                Err(error) => {
                    let ghost result: Outcome = Err(error@);
                    assert(found_in_result(result, self.steps()) == result);
                    return Err(error);
                },
            },
            Target::Container(container) => match container.resolve(ctx) {
                Ok(value) => value,
                Err(error) => {
                    let ghost result: Outcome = Err(error@);
                    assert(found_in_result(result, self.steps()) == result);
                    return Err(error);
                },
            },
        };
        let ghost result: Outcome = Ok(value@);
        assert(found_in_result(result, self.steps()) == Ok::<ValueModel, ErrorModel>(
            value::leaf(value@, self.steps()),
        ));
        match value.get(&self.path) {
            Some(leaf) => Ok(leaf.clone()),
            None => Ok(Value::Null),
        }
    }

    fn resolve_ref<'a>(&self, ctx: &'a mut Context<'_>) -> (r: Result<
        Cow<'a, Value>,
        ExpressionError,
    >)
        ensures
            query_resolves(*self, old(ctx)@, final(ctx)@, error::borrowed_outcome(r)),
            match self.looks_into() {
                Target::External(prefix) => {
                    &&& r is Ok
                    &&& r->Ok_0 is Borrowed <==> found_outside(
                        old(ctx)@,
                        prefix,
                        self.steps(),
                    ) is Some
                },
                Target::Internal(variable) => {
                    &&& r is Ok
                    &&& r->Ok_0 is Borrowed <==> found_in_variable(
                        old(ctx)@,
                        variable,
                        self.steps(),
                    ) is Some
                },
                _ => r is Ok ==> r->Ok_0 is Owned,
            },
    {
        match &self.target {
            Target::External(prefix) => {
                let path = OwnedTargetPath { prefix: *prefix, path: self.path.clone() };
                match ctx.target.target_get(&path) {
                    Ok(Some(value)) => Ok(Cow::Borrowed(value)),
                    _ => Ok(Cow::Owned(Value::Null)),
                }
            },
            Target::Internal(variable) => match ctx.state().variable(variable.ident()) {
                Some(value) => match value.get(&self.path) {
                    Some(leaf) => Ok(Cow::Borrowed(leaf)),
                    None => Ok(Cow::Owned(Value::Null)),
                },
                None => Ok(Cow::Owned(Value::Null)),
            },
            // These produce temporaries: there is nothing outliving the call to borrow from, so
            // they have to materialize.
            Target::FunctionCall(_) | Target::Container(_) => match self.resolve(ctx) {
                Ok(value) => Ok(Cow::Owned(value)),
                Err(error) => Err(error),
            },
        }
    }

    fn resolve_constant(&self, state: &TypeState) -> (r: Option<Value>)
        ensures
            type_def::value_model(r) == query_constant(*self, state@),
    {
        match &self.target {
            Target::Internal(variable) => match variable.resolve_constant(state) {
                Some(value) => match value.get(&self.path) {
                    Some(leaf) => Some(leaf.clone()),
                    None => None,
                },
                None => None,
            },
            _ => None,
        }
    }

    fn type_info(&self, state: &TypeState) -> (r: TypeInfo)
        ensures
            r@ == query_typed(*self, state@),
        decreases self,
    {
        let path = &self.path;
        let at_path = |result: TypeDef| -> (r: TypeDef)
            ensures
                r@ == result@.at_path(path@),
        {
            result.at_path(path)
        };
        match &self.target {
            Target::External(prefix) => {
                let result = TypeDef::from(state.external.kind(*prefix).at_path(path));
                TypeInfo::new(state, result)
            },
            Target::Internal(variable) => {
                let result = variable.type_def(state).at_path(path);
                TypeInfo::new(state, result)
            },
            Target::FunctionCall(call) => call.type_info(state).map_result(at_path),
            Target::Container(container) => container.type_info(state).map_result(at_path),
        }
    }
}

} // verus!
