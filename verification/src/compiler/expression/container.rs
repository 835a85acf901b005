//! Arrays and objects that are written out.
use crate::compiler::context::{Context, ContextModel};
use crate::compiler::expression;
use crate::compiler::expression::error;
use crate::compiler::expression::error::{ErrorModel, ExpressionError, Outcome, Resolved};
use crate::compiler::expression::{Expr, Expression};
use crate::compiler::state::{TypeInfo, TypeInfoModel, TypeState, TypeStateModel};
use crate::compiler::type_def::{TypeDef, TypeDefModel};
use crate::kind;
use crate::kind::shape;
use crate::kind::shape::{CollectionModel, Shape};
use crate::kind::types::Types;
use crate::kind::{Collection, Kind, Position};
use crate::table::Table;
use crate::text::Wording;
use crate::value;
use crate::value::{ObjectMap, Value, ValueModel};
use std::borrow::Cow;
use std::sync::Arc;
use vstd::prelude::*;

verus! {

/// An array or an object that is written out.
pub struct Container(Arc<Contents>);

/// What a [`Container`] is made of.
struct Contents {
    wording: Wording,
    /// The names of the fields of an object, one for each item.
    names: Option<Vec<String>>,
    /// The items of the array, or the fields of the object.
    items: Vec<Expr>,
}

impl Contents {
    /// An object has a name for each field.
    #[verifier::type_invariant]
    spec fn well_formed(&self) -> bool {
        self.names matches Some(names) ==> names@.len() == self.items@.len()
    }
}

/// The texts of names.
pub open spec fn texts(names: Seq<String>) -> Seq<Seq<char>> {
    Seq::new(names.len(), |i: int| names[i]@)
}

impl Container {
    /// How the container is written.
    pub closed spec fn text(&self) -> Seq<char> {
        self.0.wording.written@
    }

    /// How the container is shown to those who look for a mistake.
    pub closed spec fn debug_text(&self) -> Seq<char> {
        self.0.wording.shown@
    }

    /// The names of the fields, if it is an object.
    pub closed spec fn names(&self) -> Option<Seq<Seq<char>>> {
        match self.0.names {
            Some(names) => Some(texts(names@)),
            None => None,
        }
    }

    /// The items of the array, or the fields of the object.
    pub closed spec fn items(&self) -> Seq<Expr> {
        self.0.items@
    }
}

/// How the evaluation of several expressions ends: with a value for each, or with the first error.
pub type Outcomes = Result<Seq<ValueModel>, ErrorModel>;

/// Whether there are at most as many values as expressions, and a context before and after each.
pub open spec fn is_trace(
    items: Seq<Expr>,
    contexts: Seq<ContextModel>,
    values: Seq<ValueModel>,
) -> bool {
    values.len() <= items.len() && contexts.len() == values.len() + 1
}

/// Whether the evaluation of expressions, one after the other up to the first that fails, may end
/// so and leave this context behind: each is evaluated in the context that the one before it left.
pub open spec fn items_resolve(
    items: Seq<Expr>,
    before: ContextModel,
    after: ContextModel,
    outcome: Outcomes,
) -> bool
    decreases items, 0nat,
{
    exists|contexts: Seq<ContextModel>, values: Seq<ValueModel>|
        {
            &&& #[trigger] is_trace(items, contexts, values)
            &&& contexts[0] == before
            &&& forall|i: int|
                0 <= i < values.len() && i < items.len() ==> expression::expr_resolves(
                    items[i],
                    contexts[i],
                    contexts[i + 1],
                    Ok(#[trigger] values[i]),
                )
            &&& match outcome {
                Ok(all) => values.len() == items.len() && all == values && after
                    == contexts.last(),
                Err(error) => values.len() < items.len() && expression::expr_resolves(
                    items[values.len() as int],
                    contexts.last(),
                    after,
                    Err(error),
                ),
            }
        }
}

/// The object with these fields. Of two with the same name the last one counts.
pub open spec fn object_of(names: Seq<Seq<char>>, values: Seq<ValueModel>) -> Map<
    Seq<char>,
    ValueModel,
>
    decreases names.len(),
{
    if names.len() == 0 || values.len() == 0 {
        Map::empty()
    } else {
        object_of(names.drop_last(), values.drop_last()).insert(names.last(), values.last())
    }
}

/// What is made of the values of the items.
pub open spec fn made_of(names: Option<Seq<Seq<char>>>, values: Seq<ValueModel>) -> ValueModel {
    match names {
        Some(names) => ValueModel::Object(object_of(names, values)),
        None => ValueModel::Array(values),
    }
}

/// What is made of the outcome of the items.
pub open spec fn assembled(names: Option<Seq<Seq<char>>>, outcome: Outcomes) -> Outcome {
    match outcome {
        Ok(values) => Ok(made_of(names, values)),
        Err(error) => Err(error),
    }
}

/// Whether the evaluation of a container may end so, and leave this context behind.
pub open spec fn container_resolves(
    container: Container,
    before: ContextModel,
    after: ContextModel,
    outcome: Outcome,
) -> bool
    decreases container, 0nat,
{
    exists|outcomes: Outcomes|
        outcome == #[trigger] assembled(container.names(), outcomes) && items_resolve(
            container.items(),
            before,
            after,
            outcomes,
        )
}

/// The values of the first `count` expressions, where they are known before the program runs.
pub open spec fn items_constant(items: Seq<Expr>, count: nat, state: TypeStateModel) -> Option<
    Seq<ValueModel>,
>
    decreases items, count,
{
    if count == 0 || count > items.len() {
        Some(Seq::empty())
    } else {
        match (
            items_constant(items, (count - 1) as nat, state),
            expression::expr_constant(items[count - 1], state),
        ) {
            (Some(values), Some(value)) => Some(values.push(value)),
            _ => None,
        }
    }
}

/// The value of a container, where it is known before the program runs.
pub open spec fn container_constant(container: Container, state: TypeStateModel) -> Option<
    ValueModel,
>
    decreases container,
{
    match items_constant(container.items(), container.items().len(), state) {
        Some(values) => Some(made_of(container.names(), values)),
        None => None,
    }
}

/// What is known of the results of the first `count` expressions, evaluated one after the other,
/// and what is known afterwards.
pub open spec fn items_typed(items: Seq<Expr>, count: nat, state: TypeStateModel) -> (
    TypeStateModel,
    Seq<TypeDefModel>,
)
    decreases items, count,
{
    if count == 0 || count > items.len() {
        (state, Seq::empty())
    } else {
        let (between, type_defs) = items_typed(items, (count - 1) as nat, state);
        let info = expression::expr_typed(items[count - 1], between);
        (info.state, type_defs.push(info.result))
    }
}

/// What is known of the result of one of several expressions.
pub open spec fn combined(type_defs: Seq<TypeDefModel>) -> TypeDefModel
    decreases type_defs.len(),
{
    if type_defs.len() == 0 {
        TypeDefModel::plain(shape::top_only(Types::none()))
    } else {
        combined(type_defs.drop_last()).or(type_defs.last())
    }
}

/// Whether one of the expressions never has a result.
pub open spec fn some_never(type_defs: Seq<TypeDefModel>) -> bool {
    exists|i: int|
        0 <= i < type_defs.len() && shape::top((#[trigger] type_defs[i]).kind) == Types::none()
}

/// The items of an array, of which these things are known. A missing item is null.
pub open spec fn known_items(type_defs: Seq<TypeDefModel>) -> Map<nat, Shape> {
    Map::new(
        |i: nat| i < type_defs.len(),
        |i: nat| shape::null_if_missing(type_defs[i as int].kind),
    )
}

/// The fields of an object, of which these things are known. A missing field is null, and of two
/// with the same name the last one counts.
pub open spec fn known_fields(names: Seq<Seq<char>>, type_defs: Seq<TypeDefModel>) -> Map<
    Seq<char>,
    Shape,
>
    decreases names.len(),
{
    if names.len() == 0 || type_defs.len() == 0 {
        Map::empty()
    } else {
        known_fields(names.drop_last(), type_defs.drop_last()).insert(
            names.last(),
            shape::null_if_missing(type_defs.last().kind),
        )
    }
}

/// What is known of an array or an object when these things are known of its items: it can fail if
/// one of them can, and there is none if one of them never has a result.
pub open spec fn container_type(
    names: Option<Seq<Seq<char>>>,
    type_defs: Seq<TypeDefModel>,
) -> TypeDefModel {
    let kind = if some_never(type_defs) {
        shape::top_only(Types::none())
    } else {
        match names {
            Some(names) => shape::compose(
                Types { object: true, ..Types::none() },
                None,
                Some(
                    CollectionModel {
                        known: known_fields(names, type_defs),
                        unknown: shape::missing(),
                    },
                ),
            ),
            None => shape::compose(
                Types { array: true, ..Types::none() },
                Some(
                    CollectionModel { known: known_items(type_defs), unknown: shape::missing() },
                ),
                None,
            ),
        }
    };
    combined(type_defs).with_kind(kind)
}

/// What is known of the result of a container, and what is known afterwards.
pub open spec fn container_typed(container: Container, state: TypeStateModel) -> TypeInfoModel
    decreases container,
{
    let (after, type_defs) = items_typed(container.items(), container.items().len(), state);
    TypeInfoModel { state: after, result: container_type(container.names(), type_defs) }
}

impl Clone for Container {
    fn clone(&self) -> (r: Self)
        ensures
            r == *self,
    {
        Container(self.0.clone())
    }
}

impl vstd::std_specs::cmp::PartialEqSpecImpl for Container {
    open spec fn obeys_eq_spec() -> bool {
        true
    }

    open spec fn eq_spec(&self, other: &Self) -> bool {
        same_container(*self, *other)
    }
}

impl PartialEq for Container {
    fn eq(&self, other: &Self) -> (r: bool) {
        self.same(other)
    }
}

/// Whether expressions are the same, one by one.
pub open spec fn same_items(a: Seq<Expr>, b: Seq<Expr>) -> bool
    decreases a,
{
    a.len() == b.len() && forall|i: int|
        0 <= i < a.len() ==> expression::same_expr(#[trigger] a[i], b[i])
}

/// Whether two containers are the same: both are arrays, or objects with the same names in the same
/// order, and their items are the same.
pub open spec fn same_container(a: Container, b: Container) -> bool
    decreases a,
{
    a.names() == b.names() && same_items(a.items(), b.items())
}

/// Whether the names are the same, one by one.
fn same_names(a: &Vec<String>, b: &Vec<String>) -> (r: bool)
    ensures
        r == (texts(a@) == texts(b@)),
{
    if a.len() != b.len() {
        assert(texts(a@).len() != texts(b@).len());
        return false;
    }
    let mut i: usize = 0;
    while i < a.len()
        invariant
            i <= a@.len() == b@.len(),
            forall|j: int| 0 <= j < i ==> #[trigger] a@[j]@ == b@[j]@,
        decreases a@.len() - i,
    {
        if a[i] != b[i] {
            assert(texts(a@)[i as int] != texts(b@)[i as int]);
            return false;
        }
        i += 1;
    }
    assert(texts(a@) =~= texts(b@));
    true
}

impl Container {
    pub(super) fn same(&self, other: &Container) -> (r: bool)
        ensures
            r == same_container(*self, *other),
        decreases self,
    {
        let a = &self.0.items;
        let b = &other.0.items;
        let same_names = match (&self.0.names, &other.0.names) {
            (Some(names), Some(other_names)) => same_names(names, other_names),
            (None, None) => true,
            _ => false,
        };
        if !same_names || a.len() != b.len() {
            return false;
        }
        let mut i: usize = 0;
        while i < a.len()
            invariant
                i <= a@.len() == b@.len(),
                a@ == self.items(),
                b@ == other.items(),
                forall|j: int| 0 <= j < i ==> expression::same_expr(#[trigger] a@[j], b@[j]),
                decreases_to!(self => a),
            decreases a@.len() - i,
        {
            proof {
                assert(decreases_to!(a@ => a@[i as int]));
            }
            if !a[i].same(&b[i]) {
                assert(!expression::same_expr(a@[i as int], b@[i as int]));
                return false;
            }
            i += 1;
        }
        true
    }
}

/// What values are.
pub open spec fn models(values: Seq<Value>) -> Seq<ValueModel> {
    Seq::new(values.len(), |i: int| values[i]@)
}

/// The names of fields.
pub open spec fn field_names(fields: Seq<(String, Expr)>) -> Seq<Seq<char>> {
    Seq::new(fields.len(), |i: int| fields[i].0@)
}

/// The expressions of fields.
pub open spec fn field_values(fields: Seq<(String, Expr)>) -> Seq<Expr> {
    Seq::new(fields.len(), |i: int| fields[i].1)
}

impl Container {
    /// The array of these items that is written and shown so.
    pub fn array(items: Vec<Expr>, wording: Wording) -> (r: Self)
        ensures
            r.names() is None,
            r.items() == items@,
            r.text() == wording.written@,
            r.debug_text() == wording.shown@,
    {
        Container(Arc::new(Contents { wording, names: None, items }))
    }

    /// The object of these fields that is written and shown so.
    pub fn object(fields: Vec<(String, Expr)>, wording: Wording) -> (r: Self)
        ensures
            r.names() == Some(field_names(fields@)),
            r.items() == field_values(fields@),
            r.names() matches Some(names) && names.len() == fields@.len() && forall|i: int|
                0 <= i < fields@.len() ==> #[trigger] names[i] == fields@[i].0@,
            r.items().len() == fields@.len(),
            forall|i: int| 0 <= i < fields@.len() ==> #[trigger] r.items()[i] == fields@[i].1,
            r.text() == wording.written@,
            r.debug_text() == wording.shown@,
    {
        let ghost all = fields@;
        let mut names: Vec<String> = Vec::new();
        let mut items: Vec<Expr> = Vec::new();
        for field in iter: fields.into_iter()
            invariant
                iter.seq() == all,
                names@.len() == iter.index(),
                items@.len() == iter.index(),
                forall|j: int| 0 <= j < iter.index() ==> #[trigger] names@[j] == all[j].0,
                forall|j: int| 0 <= j < iter.index() ==> #[trigger] items@[j] == all[j].1,
        {
            let (name, item) = field;
            names.push(name);
            items.push(item);
        }
        let r = Container(Arc::new(Contents { wording, names: Some(names), items }));
        proof {
            assert(r.names()->0 =~= field_names(all));
            assert(r.items() =~= field_values(all));
        }
        r
    }

    /// How the container is written.
    pub fn as_str(&self) -> (r: &str)
        ensures
            r@ == self.text(),
    {
        self.0.wording.written.as_str()
    }

    /// How the container is shown to those who look for a mistake.
    pub fn as_debug_str(&self) -> (r: &str)
        ensures
            r@ == self.debug_text(),
    {
        self.0.wording.shown.as_str()
    }

    /// The array or object with these values.
    fn assemble(&self, values: Vec<Value>) -> (r: Value)
        requires
            values@.len() == self.items().len(),
        ensures
            r@ == made_of(self.names(), models(values@)),
    {
        proof {
            use_type_invariant(&*self.0);
        }
        let ghost all = values@;
        match &self.0.names {
            None => {
                let r = Value::Array(values);
                proof {
                    value::lemma_array_view(values);
                    assert(r@->Array_0 =~= models(all));
                }
                r
            },
            Some(names) => {
                let mut fields: ObjectMap = Table::new();
                let ghost texts = texts(names@);
                let count: usize = names.len();
                let mut i: usize = 0;
                let ghost mut done: Map<Seq<char>, ValueModel> = Map::empty();
                for value in iter: values.into_iter()
                    invariant
                        iter.seq() == all,
                        i == iter.index(),
                        all.len() == names@.len() == count,
                        texts == self::texts(names@),
                        done == object_of(texts.take(i as int), models(all).take(i as int)),
                        done.dom() =~= fields@.dom(),
                        forall|name: Seq<char>| #[trigger]
                            fields@.contains_key(name) ==> done[name] == fields@[name]@,
                {
                    proof {
                        assert(texts.take(i + 1).drop_last() =~= texts.take(i as int));
                        assert(models(all).take(i + 1).drop_last() =~= models(all).take(i as int));
                        done = done.insert(names@[i as int]@, value@);
                    }
                    let _ = fields.insert(names[i].clone(), value);
                    i += 1;
                }
                let r = Value::Object(fields);
                proof {
                    value::lemma_object_view(fields);
                    assert(texts.take(i as int) =~= texts);
                    assert(models(all).take(i as int) =~= models(all));
                    assert(r@->Object_0 =~= done);
                }
                r
            },
        }
    }
}

/// If the first expressions are not known before the program runs, not all are.
proof fn lemma_unknown_stays(items: Seq<Expr>, count: nat, state: TypeStateModel, all: nat)
    requires
        0 < count <= all <= items.len(),
        items_constant(items, count, state) is None,
    ensures
        items_constant(items, all, state) is None,
    decreases all,
{
    if count < all {
        lemma_unknown_stays(items, count, state, (all - 1) as nat);
    }
}

impl Expression for Container {
    open spec fn resolves(
        &self,
        before: ContextModel,
        after: ContextModel,
        outcome: Outcome,
    ) -> bool {
        container_resolves(*self, before, after, outcome)
    }

    open spec fn constant(&self, state: TypeStateModel) -> Option<ValueModel> {
        container_constant(*self, state)
    }

    open spec fn typed(&self, state: TypeStateModel) -> TypeInfoModel {
        container_typed(*self, state)
    }

    fn resolve(&self, ctx: &mut Context) -> (r: Resolved)
        decreases self,
    {
        let items = &self.0.items;
        let mut values: Vec<Value> = Vec::new();
        let ghost before = ctx@;
        let ghost mut contexts: Seq<ContextModel> = seq![ctx@];
        let mut i: usize = 0;
        while i < items.len()
            invariant
                i <= items@.len(),
                values@.len() == i,
                items@ == self.items(),
                before == old(ctx)@,
                contexts[0] == before,
                contexts.last() == ctx@,
                is_trace(items@, contexts, models(values@)),
                forall|j: int|
                    0 <= j < i ==> expression::expr_resolves(
                        items@[j],
                        contexts[j],
                        contexts[j + 1],
                        Ok(#[trigger] models(values@)[j]),
                    ),
                decreases_to!(self => items),
            decreases items@.len() - i,
        {
            proof {
                assert(decreases_to!(items@ => items@[i as int]));
            }
            match items[i].resolve(ctx) {
                Ok(value) => {
                    let ghost earlier = models(values@);
                    values.push(value);
                    proof {
                        contexts = contexts.push(ctx@);
                        assert(models(values@) =~= earlier.push(value@));
                        assert(is_trace(items@, contexts, models(values@)));
                    }
                },
                Err(error) => {
                    proof {
                        let outcomes: Outcomes = Err(error@);
                        assert(items_resolve(items@, before, ctx@, outcomes));
                        assert(assembled(self.names(), outcomes) == Err::<ValueModel, ErrorModel>(
                            error@,
                        ));
                    }
                    return Err(error);
                },
            }
            i += 1;
        }
        proof {
            let outcomes: Outcomes = Ok(models(values@));
            assert(items_resolve(items@, before, ctx@, outcomes));
            assert(assembled(self.names(), outcomes) == Ok::<ValueModel, ErrorModel>(
                made_of(self.names(), models(values@)),
            ));
        }
        Ok(self.assemble(values))
    }

    fn resolve_ref<'a>(&self, ctx: &'a mut Context<'_>) -> (r: Result<
        Cow<'a, Value>,
        ExpressionError,
    >) {
        match self.resolve(ctx) {
            Ok(value) => Ok(Cow::Owned(value)),
            Err(error) => Err(error),
        }
    }

    fn resolve_constant(&self, state: &TypeState) -> (r: Option<Value>)
        decreases self,
    {
        let items = &self.0.items;
        let mut values: Vec<Value> = Vec::new();
        let mut i: usize = 0;
        while i < items.len()
            invariant
                i <= items@.len(),
                values@.len() == i,
                items@ == self.items(),
                items_constant(items@, i as nat, state@) == Some(models(values@)),
                decreases_to!(self => items),
            decreases items@.len() - i,
        {
            proof {
                assert(decreases_to!(items@ => items@[i as int]));
            }
            match items[i].resolve_constant(state) {
                Some(value) => {
                    let ghost earlier = models(values@);
                    values.push(value);
                    assert(models(values@) =~= earlier.push(value@));
                },
                None => {
                    proof {
                        lemma_unknown_stays(items@, (i + 1) as nat, state@, items@.len());
                    }
                    return None;
                },
            }
            i += 1;
        }
        Some(self.assemble(values))
    }

    fn type_info(&self, state: &TypeState) -> (r: TypeInfo)
        decreases self,
    {
        proof {
            use_type_invariant(&*self.0);
        }
        let items = &self.0.items;
        let ghost names = self.names();
        let mut after = state.clone();
        let mut all = TypeDef::from(Kind::never());
        let mut never = false;
        let mut known_items: Vec<(Position, Kind)> = Vec::new();
        let mut known_fields: Vec<(String, Kind)> = Vec::new();
        let ghost mut type_defs: Seq<TypeDefModel> = Seq::empty();
        let mut i: usize = 0;
        proof {
            assert(kind::listed(known_items@) =~= self::known_items(type_defs));
            if let Some(names) = names {
                assert(names.take(0) =~= Seq::<Seq<char>>::empty());
            }
        }
        while i < items.len()
            invariant
                i <= items@.len(),
                items@ == self.items(),
                items_typed(items@, i as nat, state@) == (after@, type_defs),
                type_defs.len() == i,
                all@ == combined(type_defs),
                never == some_never(type_defs),
                names == self.names(),
                self.0.names matches Some(texts) ==> {
                    &&& texts@.len() == items@.len()
                    &&& known_fields@.len() == i
                    &&& kind::listed(known_fields@) == self::known_fields(
                        self::texts(texts@).take(i as int),
                        type_defs,
                    )
                },
                self.0.names is None ==> kind::listed(known_items@) == self::known_items(type_defs),
                decreases_to!(self => items),
            decreases items@.len() - i,
        {
            proof {
                assert(decreases_to!(items@ => items@[i as int]));
            }
            let info = items[i].type_info(&after);
            let ghost earlier = type_defs;
            proof {
                type_defs = type_defs.push(info.result@);
                assert(type_defs.drop_last() =~= earlier);
            }
            after = info.state;
            let result = info.result;
            if result.kind().is_never() {
                assert(shape::top(type_defs[i as int].kind) == Types::none());
                never = true;
            }
            proof {
                assert(never == some_never(type_defs)) by {
                    if some_never(earlier) {
                        let j = choose|j: int|
                            0 <= j < earlier.len() && shape::top((#[trigger] earlier[j]).kind)
                                == Types::none();
                        assert(shape::top(type_defs[j].kind) == Types::none());
                    }
                    if some_never(type_defs) {
                        let j = choose|j: int|
                            0 <= j < type_defs.len() && shape::top((#[trigger] type_defs[j]).kind)
                                == Types::none();
                        if j < i {
                            assert(shape::top(earlier[j].kind) == Types::none());
                        }
                    }
                }
            }
            let item = result.kind().clone().upgrade_undefined();
            match &self.0.names {
                Some(texts) => {
                    let ghost before = known_fields@;
                    known_fields.push((texts[i].clone(), item));
                    proof {
                        assert(known_fields@.drop_last() =~= before);
                        let names = self::texts(texts@);
                        assert(names.take(i + 1).drop_last() =~= names.take(i as int));
                    }
                },
                None => {
                    let ghost before = known_items@;
                    known_items.push((Position(i), item));
                    proof {
                        assert(known_items@.drop_last() =~= before);
                        assert(kind::listed(known_items@) =~= self::known_items(type_defs));
                    }
                },
            }
            all = all.union(result);
            i += 1;
        }
        let kind = if never {
            Kind::never()
        } else {
            let missing = Kind::undefined();
            assert(shape::maybe_missing(missing@) =~= shape::missing());
            match &self.0.names {
                Some(texts) => {
                    assert(self::texts(texts@).take(i as int) =~= self::texts(texts@));
                    Kind::object(Collection::from_parts(known_fields, missing))
                },
                None => Kind::array(Collection::from_parts(known_items, missing)),
            }
        };
        proof {
            assert(kind@ == container_type(names, type_defs).kind);
        }
        TypeInfo { state: after, result: all.with_kind(kind) }
    }
}

} // verus!
