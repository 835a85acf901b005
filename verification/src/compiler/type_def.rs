//! What the compiler knows of the result of an expression.
use crate::kind::shape;
use crate::kind::shape::Shape;
use crate::kind::types::Types;
use crate::kind::{Collection, Kind};
use crate::path::{OwnedValuePath, Step};
use crate::value::{Value, ValueModel};
use vstd::prelude::*;

verus! {

/// Whether an expression may fail when it runs.
#[derive(Clone, Copy, PartialEq, Eq, Debug, Structural)]
pub enum Fallibility {
    CannotFail,
    MightFail,
    AlwaysFails,
}

impl Fallibility {
    /// The fallibility of an expression of which two are parts.
    pub open spec fn or(self, other: Fallibility) -> Fallibility {
        if self == Fallibility::AlwaysFails || other == Fallibility::AlwaysFails {
            Fallibility::AlwaysFails
        } else if self == Fallibility::MightFail || other == Fallibility::MightFail {
            Fallibility::MightFail
        } else {
            Fallibility::CannotFail
        }
    }

    /// The fallibility of an expression of which two are parts.
    pub fn merge(self, other: Fallibility) -> (r: Fallibility)
        ensures
            r == self.or(other),
    {
        match (self, other) {
            (Fallibility::AlwaysFails, _) | (_, Fallibility::AlwaysFails) => {
                Fallibility::AlwaysFails
            },
            (Fallibility::MightFail, _) | (_, Fallibility::MightFail) => Fallibility::MightFail,
            (Fallibility::CannotFail, Fallibility::CannotFail) => Fallibility::CannotFail,
        }
    }
}

/// Whether an expression has an effect besides its result.
#[derive(Clone, Copy, PartialEq, Eq, Debug, Structural)]
pub enum Purity {
    Pure,
    Impure,
}

impl Purity {
    /// The purity of an expression of which two are parts.
    pub open spec fn or(self, other: Purity) -> Purity {
        if self == Purity::Impure || other == Purity::Impure {
            Purity::Impure
        } else {
            Purity::Pure
        }
    }

    /// The purity of an expression of which two are parts.
    pub fn merge(self, other: Purity) -> (r: Purity)
        ensures
            r == self.or(other),
    {
        match (self, other) {
            (Purity::Pure, Purity::Pure) => Purity::Pure,
            _ => Purity::Impure,
        }
    }
}

/// What the compiler knows of the result of an expression.
#[derive(Debug)]
pub struct TypeDef {
    fallibility: Fallibility,
    kind: Kind,
    purity: Purity,
    returns: Kind,
}

/// What a [`TypeDef`] says.
#[verifier::ext_equal]
pub struct TypeDefModel {
    /// Whether the expression may fail.
    pub fallibility: Fallibility,
    /// The kind of its result.
    pub kind: Shape,
    /// Whether it has an effect.
    pub purity: Purity,
    /// The kind of what it may return early.
    pub returns: Shape,
}

impl TypeDefModel {
    /// What is known of an expression that cannot fail, has no effect, and does not return early.
    pub open spec fn plain(kind: Shape) -> TypeDefModel {
        TypeDefModel {
            fallibility: Fallibility::CannotFail,
            kind,
            purity: Purity::Pure,
            returns: shape::top_only(Types::none()),
        }
    }

    /// What is known of a result that comes from one of two expressions.
    pub open spec fn or(self, other: TypeDefModel) -> TypeDefModel {
        TypeDefModel {
            fallibility: self.fallibility.or(other.fallibility),
            kind: shape::either(self.kind, other.kind),
            purity: self.purity.or(other.purity),
            returns: shape::either(self.returns, other.returns),
        }
    }

    /// The same, with another kind.
    pub open spec fn with_kind(self, kind: Shape) -> TypeDefModel {
        TypeDefModel { kind, ..self }
    }

    /// What is known of what is found at `path` in the result.
    pub open spec fn at_path(self, path: Seq<Step>) -> TypeDefModel {
        self.with_kind(shape::at_path(self.kind, path))
    }
}

impl View for TypeDef {
    type V = TypeDefModel;

    closed spec fn view(&self) -> TypeDefModel {
        TypeDefModel {
            fallibility: self.fallibility,
            kind: self.kind@,
            purity: self.purity,
            returns: self.returns@,
        }
    }
}

impl Clone for TypeDef {
    fn clone(&self) -> (r: Self)
        ensures
            r@ == self@,
    {
        TypeDef {
            fallibility: self.fallibility,
            kind: self.kind.clone(),
            purity: self.purity,
            returns: self.returns.clone(),
        }
    }
}

impl vstd::std_specs::cmp::PartialEqSpecImpl for TypeDef {
    open spec fn obeys_eq_spec() -> bool {
        true
    }

    open spec fn eq_spec(&self, other: &Self) -> bool {
        self@ == other@
    }
}

impl PartialEq for TypeDef {
    fn eq(&self, other: &Self) -> (r: bool) {
        self.fallibility == other.fallibility && self.kind == other.kind && self.purity
            == other.purity && self.returns == other.returns
    }
}

impl vstd::std_specs::convert::FromSpecImpl<Kind> for TypeDef {
    open spec fn obeys_from_spec() -> bool {
        false
    }

    open spec fn from_spec(kind: Kind) -> TypeDef {
        arbitrary()
    }
}

impl From<Kind> for TypeDef {
    /// What is known of an expression that has a result of this kind, and nothing else to it.
    fn from(kind: Kind) -> (r: TypeDef)
        ensures
            r@ == TypeDefModel::plain(kind@),
    {
        TypeDef {
            fallibility: Fallibility::CannotFail,
            kind,
            purity: Purity::Pure,
            returns: Kind::never(),
        }
    }
}

impl TypeDef {
    /// A result of which nothing is known.
    pub fn any() -> (r: TypeDef)
        ensures
            r@ == TypeDefModel::plain(shape::anything()),
    {
        TypeDef::from(Kind::any())
    }

    /// A missing result.
    pub fn undefined() -> (r: TypeDef)
        ensures
            r@ == TypeDefModel::plain(shape::missing()),
    {
        TypeDef::from(Kind::undefined())
    }

    /// A null result.
    pub fn null() -> (r: TypeDef)
        ensures
            r@ == TypeDefModel::plain(shape::top_only(Types { null: true, ..Types::none() })),
    {
        TypeDef::from(Kind::null())
    }

    /// A byte string.
    pub fn bytes() -> (r: TypeDef)
        ensures
            r@ == TypeDefModel::plain(shape::top_only(Types { bytes: true, ..Types::none() })),
    {
        TypeDef::from(Kind::bytes())
    }

    /// An integer.
    pub fn integer() -> (r: TypeDef)
        ensures
            r@ == TypeDefModel::plain(shape::top_only(Types { integer: true, ..Types::none() })),
    {
        TypeDef::from(Kind::integer())
    }

    /// An object with fields of these kinds.
    pub fn object(fields: Collection<String>) -> (r: TypeDef)
        ensures
            r@ == TypeDefModel::plain(
                shape::compose(Types { object: true, ..Types::none() }, None, Some(fields@)),
            ),
    {
        TypeDef::from(Kind::object(fields))
    }

    /// The same, for a result that may also be an integer.
    pub fn or_integer(self) -> (r: TypeDef)
        ensures
            r@ == self@.with_kind(
                shape::either(
                    self@.kind,
                    shape::top_only(Types { integer: true, ..Types::none() }),
                ),
            ),
    {
        TypeDef { kind: self.kind.union(&Kind::integer()), ..self }
    }

    /// The same, with another kind.
    pub fn with_kind(self, kind: Kind) -> (r: TypeDef)
        ensures
            r@ == self@.with_kind(kind@),
    {
        TypeDef { kind, ..self }
    }

    /// The same, for an expression that may fail.
    pub fn fallible(self) -> (r: TypeDef)
        ensures
            r@ == (TypeDefModel { fallibility: Fallibility::MightFail, ..self@ }),
    {
        TypeDef { fallibility: Fallibility::MightFail, ..self }
    }

    /// The same, for an expression with an effect.
    pub fn impure(self) -> (r: TypeDef)
        ensures
            r@ == (TypeDefModel { purity: Purity::Impure, ..self@ }),
    {
        TypeDef { purity: Purity::Impure, ..self }
    }

    /// Whether the expression cannot fail.
    pub fn is_infallible(&self) -> (r: bool)
        ensures
            r == (self@.fallibility == Fallibility::CannotFail),
    {
        self.fallibility == Fallibility::CannotFail
    }

    /// Whether the expression has no effect.
    pub fn is_pure(&self) -> (r: bool)
        ensures
            r == (self@.purity == Purity::Pure),
    {
        self.purity == Purity::Pure
    }

    /// Whether the result is an object, each time.
    pub fn is_object(&self) -> (r: bool)
        ensures
            r == (shape::top(self@.kind) == Types { object: true, ..Types::none() }),
    {
        self.kind.is_object()
    }

    /// What is known of the fields, where the result may be an object.
    pub fn as_object(&self) -> (r: Option<&Collection<String>>)
        ensures
            r is Some <==> shape::top(self@.kind).object,
            r matches Some(fields) ==> crate::kind::has_fields(self@.kind, fields@),
    {
        self.kind.as_object()
    }

    /// The kind of the result.
    pub fn kind(&self) -> (r: &Kind)
        ensures
            r@ == self@.kind,
    {
        &self.kind
    }

    /// What is known of a result that comes from one of two expressions.
    pub fn union(self, other: Self) -> (r: Self)
        ensures
            r@ == self@.or(other@),
    {
        TypeDef {
            fallibility: self.fallibility.merge(other.fallibility),
            kind: self.kind.union(&other.kind),
            purity: self.purity.merge(other.purity),
            returns: self.returns.union(&other.returns),
        }
    }

    /// What is known of what is found at `path` in the result.
    pub fn at_path(&self, path: &OwnedValuePath) -> (r: TypeDef)
        ensures
            r@ == self@.at_path(path@),
    {
        TypeDef {
            fallibility: self.fallibility,
            kind: self.kind.at_path(path),
            purity: self.purity,
            returns: self.returns.clone(),
        }
    }

    /// Makes this what is known of the result when the value at `path` inside it was removed.
    pub fn remove(&mut self, path: &OwnedValuePath, compact: bool)
        ensures
            final(self)@ == old(self)@.with_kind(shape::remove(old(self)@.kind, path@, compact)),
    {
        self.kind.remove(path, compact);
    }
}

/// What the compiler knows of a variable, or of the event.
#[derive(Debug)]
pub struct Details {
    pub type_def: TypeDef,
    /// The value, where it is known before the program runs.
    pub value: Option<Value>,
}

/// What [`Details`] say.
#[verifier::ext_equal]
pub struct DetailsModel {
    pub type_def: TypeDefModel,
    pub value: Option<ValueModel>,
}

/// What a value is, where there is one.
pub open spec fn value_model(value: Option<Value>) -> Option<ValueModel> {
    match value {
        Some(value) => Some(value@),
        None => None,
    }
}

impl DetailsModel {
    /// What is known where either details hold: the value is known if both know the same one.
    pub open spec fn or(self, other: DetailsModel) -> DetailsModel {
        DetailsModel {
            type_def: self.type_def.or(other.type_def),
            value: if self.value == other.value {
                self.value
            } else {
                None
            },
        }
    }
}

impl View for Details {
    type V = DetailsModel;

    open spec fn view(&self) -> DetailsModel {
        DetailsModel { type_def: self.type_def@, value: value_model(self.value) }
    }
}

impl Clone for Details {
    fn clone(&self) -> (r: Self)
        ensures
            r@ == self@,
    {
        let value = match &self.value {
            Some(value) => Some(value.clone()),
            None => None,
        };
        Details { type_def: self.type_def.clone(), value }
    }
}

/// Whether two known values are the same, or neither value is known.
fn same_value(a: &Option<Value>, b: &Option<Value>) -> (r: bool)
    ensures
        r == (value_model(*a) == value_model(*b)),
{
    match (a, b) {
        (Some(a), Some(b)) => *a == *b,
        (None, None) => true,
        _ => false,
    }
}

impl vstd::std_specs::cmp::PartialEqSpecImpl for Details {
    open spec fn obeys_eq_spec() -> bool {
        true
    }

    open spec fn eq_spec(&self, other: &Self) -> bool {
        self@ == other@
    }
}

impl PartialEq for Details {
    fn eq(&self, other: &Self) -> (r: bool) {
        self.type_def == other.type_def && same_value(&self.value, &other.value)
    }
}

impl Details {
    /// What is known where either details hold: the value is known if both know the same one.
    pub fn merge(self, other: Self) -> (r: Self)
        ensures
            r@ == self@.or(other@),
    {
        let value = if same_value(&self.value, &other.value) {
            self.value
        } else {
            None
        };
        Details { type_def: self.type_def.union(other.type_def), value }
    }
}

} // verus!
