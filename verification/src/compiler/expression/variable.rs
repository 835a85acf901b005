//! Variables.
use crate::compiler::context::{Context, ContextModel};
use crate::compiler::expression::error;
use crate::compiler::expression::error::{ErrorModel, ExpressionError, Outcome, Resolved};
use crate::compiler::expression::Expression;
use crate::compiler::ident::Ident;
use crate::compiler::state;
use crate::compiler::state::{LocalEnv, TypeInfo, TypeInfoModel, TypeState, TypeStateModel};
use crate::compiler::type_def;
use crate::compiler::type_def::{TypeDef, TypeDefModel};
use crate::kind::shape;
use crate::text;
use crate::value::{Value, ValueModel};
use std::borrow::Cow;
use vstd::prelude::*;

verus! {

/// A variable.
#[derive(Debug)]
pub struct Variable {
    ident: Ident,
}

/// Why a variable cannot be read.
#[derive(Debug)]
pub struct UndefinedVariable {
    /// The name that is not bound.
    pub ident: Ident,
    /// The names that are.
    pub idents: Vec<Ident>,
}

/// The texts of names.
pub open spec fn texts(idents: Seq<Ident>) -> Seq<Seq<char>> {
    Seq::new(idents.len(), |i: int| idents[i]@)
}

/// How a variable is shown to those who look for a mistake.
pub open spec fn variable_debug_text(name: Seq<char>) -> Seq<char> {
    "Variable { ident: Ident("@ + text::debug_text(name) + ") }"@
}

impl Variable {
    /// How the variable is shown to those who look for a mistake.
    pub fn to_debug_text(&self) -> (r: String)
        ensures
            r@ == variable_debug_text(self.name()),
    {
        let mut r = "Variable { ident: Ident(".to_string();
        text::push_debug(&mut r, self.ident.as_str());
        r.append(") }");
        r
    }

    /// The name.
    pub closed spec fn name(&self) -> Seq<char> {
        self.ident@
    }

    /// The value of the variable, or null where it has none.
    pub open spec fn value(&self, variables: Map<Seq<char>, ValueModel>) -> ValueModel {
        if variables.contains_key(self.name()) {
            variables[self.name()]
        } else {
            ValueModel::Null
        }
    }

    /// Whether reading the variable ends so, and leaves this context behind.
    pub open spec fn resolves_to(
        &self,
        before: ContextModel,
        after: ContextModel,
        outcome: Outcome,
    ) -> bool {
        after == before && outcome == Ok::<ValueModel, ErrorModel>(self.value(before.variables))
    }

    /// What is known of the variable.
    pub open spec fn type_in(&self, state: TypeStateModel) -> TypeDefModel {
        if state.local.contains_key(self.name()) {
            state.local[self.name()].type_def
        } else {
            TypeDefModel::plain(shape::missing())
        }
    }

    /// The value, where it is known before the program runs.
    pub open spec fn constant_in(&self, state: TypeStateModel) -> Option<ValueModel> {
        if state.local.contains_key(self.name()) {
            state.local[self.name()].value
        } else {
            None
        }
    }

    /// The variable with this name, if it is bound.
    pub fn new(ident: Ident, local: &LocalEnv) -> (r: Result<Self, UndefinedVariable>)
        ensures
            r is Ok <==> local@.contains_key(ident@),
            match r {
                Ok(variable) => variable.name() == ident@,
                Err(error) => {
                    &&& error.ident@ == ident@
                    &&& texts(error.idents@).no_duplicates()
                    &&& texts(error.idents@).to_set() == local@.dom()
                },
            },
    {
        if local.variable(&ident).is_some() {
            return Ok(Variable { ident });
        }
        let known = local.variable_idents();
        let mut idents: Vec<Ident> = Vec::new();
        let mut i: usize = 0;
        while i < known.len()
            invariant
                i <= known@.len(),
                idents@.len() == i,
                forall|j: int| 0 <= j < i ==> #[trigger] idents@[j]@ == known@[j]@,
            decreases known@.len() - i,
        {
            idents.push(known[i].clone());
            i += 1;
        }
        assert(texts(idents@) =~= state::names(known@));
        Err(UndefinedVariable { ident, idents })
    }

    /// The name.
    pub fn ident(&self) -> (r: &Ident)
        ensures
            r@ == self.name(),
    {
        &self.ident
    }

    /// What is known of the variable.
    pub fn type_def(&self, state: &TypeState) -> (r: TypeDef)
        ensures
            r@ == self.type_in(state@),
    {
        match state.local.variable(&self.ident) {
            Some(details) => details.type_def.clone(),
            None => TypeDef::undefined(),
        }
    }
}

impl Clone for Variable {
    fn clone(&self) -> (r: Self)
        ensures
            r == *self,
    {
        Variable { ident: self.ident.clone() }
    }
}

impl vstd::std_specs::cmp::PartialEqSpecImpl for Variable {
    open spec fn obeys_eq_spec() -> bool {
        true
    }

    open spec fn eq_spec(&self, other: &Self) -> bool {
        self.name() == other.name()
    }
}

impl PartialEq for Variable {
    fn eq(&self, other: &Self) -> (r: bool) {
        self.ident == other.ident
    }
}

impl Expression for Variable {
    open spec fn resolves(
        &self,
        before: ContextModel,
        after: ContextModel,
        outcome: Outcome,
    ) -> bool {
        self.resolves_to(before, after, outcome)
    }

    open spec fn constant(&self, state: TypeStateModel) -> Option<ValueModel> {
        self.constant_in(state)
    }

    open spec fn typed(&self, state: TypeStateModel) -> TypeInfoModel {
        TypeInfoModel { state, result: self.type_in(state) }
    }

    fn resolve(&self, ctx: &mut Context) -> (r: Resolved) {
        match ctx.state().variable(&self.ident) {
            Some(value) => Ok(value.clone()),
            None => Ok(Value::Null),
        }
    }

    fn resolve_ref<'a>(&self, ctx: &'a mut Context<'_>) -> (r: Result<
        Cow<'a, Value>,
        ExpressionError,
    >) {
        match ctx.state().variable(&self.ident) {
            Some(value) => Ok(Cow::Borrowed(value)),
            None => Ok(Cow::Owned(Value::Null)),
        }
    }

    fn resolve_constant(&self, state: &TypeState) -> (r: Option<Value>) {
        match state.local.variable(&self.ident) {
            Some(details) => match &details.value {
                Some(value) => Some(value.clone()),
                None => None,
            },
            None => None,
        }
    }

    fn type_info(&self, state: &TypeState) -> (r: TypeInfo) {
        TypeInfo::new(state, self.type_def(state))
    }
}

} // verus!
