//! What is known of variables and of the event: while a program is compiled, and while it runs.
use crate::compiler::ident::Ident;
use crate::compiler::laws;
use crate::compiler::type_def::{Details, DetailsModel, TypeDef, TypeDefModel};
use crate::kind::shape;
use crate::kind::shape::Shape;
use crate::kind::types::Types;
use crate::kind::{Collection, Kind};
use crate::path::PathPrefix;
use crate::table::Table;
use crate::value::{Value, ValueModel};
use std::sync::Arc;
use vstd::prelude::*;

verus! {

/// `std::sync::Arc::make_mut`: hands out the value behind the pointer, to be changed. Where other
/// pointers share it, the pointer is first given a clone of its own.
#[verifier::external_body]
fn arc_make_mut<T: Clone>(arc: &mut Arc<T>) -> (r: &mut T)
    ensures
        *r == **old(arc) || cloned::<T>(**old(arc), *r),
        **final(arc) == *final(r),
{
    Arc::make_mut(arc)
}

/// `std::sync::Arc::try_unwrap`: hands out the value behind the pointer where no other pointer
/// shares it, and the pointer where one does.
#[verifier::external_body]
fn arc_try_unwrap<T>(arc: Arc<T>) -> (r: Result<T, Arc<T>>)
    ensures
        match r {
            Ok(value) => value == *arc,
            Err(shared) => shared == arc,
        },
{
    Arc::try_unwrap(arc)
}

/// `std::sync::Arc::ptr_eq`: whether the two pointers point at the same allocation. What they
/// point at is then the same. Of pointers at two allocations nothing is said, nor which pointers
/// share one: to Verus a pointer is what it points at, and has no address.
#[verifier::external_body]
fn arc_ptr_eq<T>(a: &Arc<T>, b: &Arc<T>) -> (r: bool)
    ensures
        r ==> **a == **b,
{
    Arc::ptr_eq(a, b)
}

/// What the bindings in a table say.
pub open spec fn bindings_model(bindings: Map<Seq<char>, Details>) -> Map<
    Seq<char>,
    DetailsModel,
> {
    Map::new(
        |name: Seq<char>| bindings.contains_key(name),
        |name: Seq<char>| bindings[name]@,
    )
}

/// Local bindings that clones share until one of them is changed.
#[derive(Debug)]
pub struct SharedBindings(Arc<Table<Ident, Details>>);

impl View for SharedBindings {
    type V = Map<Seq<char>, DetailsModel>;

    closed spec fn view(&self) -> Map<Seq<char>, DetailsModel> {
        bindings_model(self.0@)
    }
}

impl Clone for SharedBindings {
    fn clone(&self) -> (r: Self)
        ensures
            r == *self,
    {
        SharedBindings(self.0.clone())
    }
}

impl Default for SharedBindings {
    fn default() -> (r: Self)
        ensures
            r@ == Map::<Seq<char>, DetailsModel>::empty(),
    {
        let r = SharedBindings(Arc::new(Table::new()));
        assert(r@ =~= Map::<Seq<char>, DetailsModel>::empty());
        r
    }
}

impl SharedBindings {
    /// The bindings, to be changed. If others share them, they are copied first.
    fn make_mut(&mut self) -> (r: &mut Table<Ident, Details>)
        ensures
            bindings_model(r@) == old(self)@,
            final(self)@ == bindings_model(final(r)@),
    {
        let r = arc_make_mut(&mut self.0);
        assert(bindings_model(r@) =~= old(self)@);
        r
    }

    /// The bindings. If others share them, they are copied.
    fn into_map(self) -> (r: Table<Ident, Details>)
        ensures
            bindings_model(r@) == self@,
    {
        match arc_try_unwrap(self.0) {
            Ok(bindings) => bindings,
            Err(shared) => {
                let r = (*shared).clone();
                assert(bindings_model(r@) =~= self@);
                r
            },
        }
    }

    /// Whether both handles point at the same allocation: neither side was changed since one was
    /// cloned from the other. They hold the same bindings then. Two handles on equal bindings need
    /// not share them.
    ///
    /// A clone shares the allocation until one of the two is changed. The contract does not say so,
    /// since to Verus a handle is the bindings that it holds, wherever they lie.
    pub fn ptr_eq(&self, other: &Self) -> (r: bool)
        ensures
            r ==> self@ == other@,
    {
        arc_ptr_eq(&self.0, &other.0)
    }
}

impl std::ops::Deref for SharedBindings {
    type Target = Table<Ident, Details>;

    fn deref(&self) -> (r: &Table<Ident, Details>)
        ensures
            bindings_model(r@) == self@,
    {
        &self.0
    }
}

impl vstd::std_specs::cmp::PartialEqSpecImpl for SharedBindings {
    open spec fn obeys_eq_spec() -> bool {
        true
    }

    open spec fn eq_spec(&self, other: &Self) -> bool {
        self@ == other@
    }
}

impl PartialEq for SharedBindings {
    fn eq(&self, other: &Self) -> (r: bool) {
        let a: &Table<Ident, Details> = self;
        let b: &Table<Ident, Details> = other;
        let count: usize = a.len();
        let other_count: usize = b.len();
        assert(self@.dom() =~= a@.dom());
        assert(other@.dom() =~= b@.dom());
        if count != other_count {
            return false;
        }
        let mut i: usize = 0;
        while i < count
            invariant
                i <= count == a.order().len(),
                self@ == bindings_model(a@),
                other@ == bindings_model(b@),
                forall|j: int|
                    0 <= j < i ==> other@.contains_key(#[trigger] a.order()[j])
                        && self@[a.order()[j]] == other@[a.order()[j]],
            decreases count - i,
        {
            let (ident, details) = a.entry(i);
            assert(self@.contains_key(ident@) && self@[ident@] == details@);
            match b.get(ident) {
                Some(other_details) => {
                    assert(other@[ident@] == other_details@);
                    if *details != *other_details {
                        return false;
                    }
                },
                None => {
                    assert(!other@.contains_key(ident@));
                    return false;
                },
            }
            i += 1;
        }
        proof {
            assert forall|name: Seq<char>| self@.contains_key(name) implies other@.contains_key(
                name,
            ) && self@[name] == other@[name] by {
                assert(a.order().to_set().contains(name));
                let j = choose|j: int| 0 <= j < a.order().len() && a.order()[j] == name;
                assert(other@.contains_key(a.order()[j]));
            }
            assert(self@.dom().subset_of(other@.dom()));
            vstd::set_lib::lemma_subset_equality(self@.dom(), other@.dom());
            assert(self@ =~= other@);
        }
        true
    }
}

/// The bindings of a scope after a child scope ended: the bindings that the child changed are
/// taken over, and those that it added are gone.
pub open spec fn after_child(
    parent: Map<Seq<char>, DetailsModel>,
    child: Map<Seq<char>, DetailsModel>,
) -> Map<Seq<char>, DetailsModel> {
    Map::new(
        |name: Seq<char>| parent.contains_key(name),
        |name: Seq<char>|
            if child.contains_key(name) {
                child[name]
            } else {
                parent[name]
            },
    )
}

/// The bindings where one of two branches was taken.
pub open spec fn merged(
    a: Map<Seq<char>, DetailsModel>,
    b: Map<Seq<char>, DetailsModel>,
) -> Map<Seq<char>, DetailsModel> {
    Map::new(
        |name: Seq<char>| a.contains_key(name) || b.contains_key(name),
        |name: Seq<char>|
            if !b.contains_key(name) {
                a[name]
            } else if !a.contains_key(name) {
                b[name]
            } else {
                a[name].or(b[name])
            },
    )
}

/// Local environment, limited to a given scope.
#[derive(Debug)]
pub struct LocalEnv {
    pub bindings: SharedBindings,
}

impl View for LocalEnv {
    type V = Map<Seq<char>, DetailsModel>;

    open spec fn view(&self) -> Map<Seq<char>, DetailsModel> {
        self.bindings@
    }
}

impl Clone for LocalEnv {
    fn clone(&self) -> (r: Self)
        ensures
            r@ == self@,
    {
        LocalEnv { bindings: self.bindings.clone() }
    }
}

impl Default for LocalEnv {
    fn default() -> (r: Self)
        ensures
            r@ == Map::<Seq<char>, DetailsModel>::empty(),
    {
        LocalEnv { bindings: SharedBindings::default() }
    }
}

impl vstd::std_specs::cmp::PartialEqSpecImpl for LocalEnv {
    open spec fn obeys_eq_spec() -> bool {
        true
    }

    open spec fn eq_spec(&self, other: &Self) -> bool {
        self@ == other@
    }
}

impl PartialEq for LocalEnv {
    fn eq(&self, other: &Self) -> (r: bool) {
        self.bindings == other.bindings
    }
}

/// The texts of names.
pub open spec fn names(idents: Seq<&Ident>) -> Seq<Seq<char>> {
    Seq::new(idents.len(), |i: int| idents[i]@)
}

impl LocalEnv {
    /// The names of the variables, each of them once, in no particular order.
    pub fn variable_idents(&self) -> (r: Vec<&Ident>)
        ensures
            names(r@).no_duplicates(),
            names(r@).to_set() == self@.dom(),
            forall|i: int, j: int| 0 <= i < j < r@.len() ==> (#[trigger] r@[i])@ != (#[trigger] r@[j])@,
            forall|i: int| 0 <= i < r@.len() ==> self@.contains_key((#[trigger] r@[i])@),
            forall|name: Seq<char>| #[trigger]
                self@.contains_key(name) ==> exists|i: int|
                    0 <= i < r@.len() && (#[trigger] r@[i])@ == name,
    {
        let table: &Table<Ident, Details> = &self.bindings;
        let count: usize = table.len();
        let mut r: Vec<&Ident> = Vec::new();
        let mut i: usize = 0;
        while i < count
            invariant
                i <= count == table.order().len(),
                names(r@) =~= table.order().take(i as int),
            decreases count - i,
        {
            let (ident, _) = table.entry(i);
            let ghost before = r@;
            r.push(ident);
            i += 1;
            assert(names(r@) =~= names(before).push(ident@));
        }
        proof {
            assert(table.order().take(count as int) =~= table.order());
            assert(self@.dom() =~= table@.dom());
            assert forall|i: int| 0 <= i < r@.len() implies self@.contains_key(
                (#[trigger] r@[i])@,
            ) by {
                assert(names(r@)[i] == r@[i]@);
                assert(names(r@).to_set().contains(r@[i]@));
            }
            assert forall|i: int, j: int| 0 <= i < j < r@.len() implies (#[trigger] r@[i])@ != (
            #[trigger] r@[j])@ by {
                assert(names(r@)[i] != names(r@)[j]);
            }
            assert forall|name: Seq<char>| #[trigger] self@.contains_key(name) implies exists|
                i: int,
            | 0 <= i < r@.len() && (#[trigger] r@[i])@ == name by {
                assert(names(r@).to_set().contains(name));
                let i = choose|i: int| 0 <= i < names(r@).len() && names(r@)[i] == name;
                assert(r@[i]@ == name);
            }
        }
        r
    }

    /// What is known of a variable.
    pub fn variable(&self, ident: &Ident) -> (r: Option<&Details>)
        ensures
            match r {
                Some(details) => self@.contains_key(ident@) && details@ == self@[ident@],
                None => !self@.contains_key(ident@),
            },
    {
        self.bindings.get(ident)
    }

    /// What is known of a variable, to be changed.
    pub fn variable_mut(&mut self, ident: &Ident) -> (r: Option<&mut Details>)
        ensures
            match r {
                Some(details) => {
                    &&& old(self)@.contains_key(ident@)
                    &&& details@ == old(self)@[ident@]
                    &&& final(self)@ == old(self)@.insert(ident@, final(details)@)
                },
                None => !old(self)@.contains_key(ident@) && final(self)@ == old(self)@,
            },
    {
        let r = self.bindings.make_mut().get_mut(ident);
        r
    }

    /// Binds a variable.
    pub fn insert_variable(&mut self, ident: Ident, details: Details)
        ensures
            final(self)@ == old(self)@.insert(ident@, details@),
    {
        let ghost key = ident@;
        let ghost given = details@;
        let _ = self.bindings.make_mut().insert(ident, details);
        assert(self@ =~= old(self)@.insert(key, given));
    }

    /// Unbinds a variable, and hands back what was known of it.
    pub fn remove_variable(&mut self, ident: &Ident) -> (r: Option<Details>)
        ensures
            final(self)@ == old(self)@.remove(ident@),
            match r {
                Some(details) => {
                    &&& old(self)@.contains_key(ident@)
                    &&& details@ == old(self)@[ident@]
                },
                None => !old(self)@.contains_key(ident@),
            },
    {
        let r = self.bindings.make_mut().remove(ident);
        assert(self@ =~= old(self)@.remove(ident@));
        r
    }
}

impl LocalEnv {
    /// Any state the child scope modified that was part of the parent is copied to the parent
    /// scope.
    pub fn apply_child_scope(self, child: Self) -> (r: Self)
        ensures
            r@ == after_child(self@, child@),
    {
        let mut r = self;
        // The child never wrote: every binding it could copy back is the one already here.
        if r.bindings.ptr_eq(&child.bindings) {
            proof {
                laws::an_idle_child_changes_nothing(self@);
            }
            return r;
        }
        let mut rest = child.bindings.into_map();
        loop
            invariant
                after_child(r@, bindings_model(rest@)) == after_child(self@, child@),
            ensures
                r@ == after_child(self@, child@),
            decreases rest@.len(),
        {
            let ghost before = (r@, bindings_model(rest@));
            let (ident, child_details) = match rest.pop() {
                Some(entry) => entry,
                None => {
                    assert(after_child(before.0, before.1) =~= r@);
                    break;
                },
            };
            if let Some(self_details) = r.bindings.make_mut().get_mut(&ident) {
                *self_details = child_details;
            }
            assert(after_child(r@, bindings_model(rest@)) =~= after_child(before.0, before.1));
        }
        r
    }

    /// Merges two local environments together. This is useful in cases such as if statements,
    /// where different environments can be created, and the result is decided at runtime. What is
    /// known of a variable is then what holds in either environment.
    pub fn merge(self, other: Self) -> (r: Self)
        ensures
            r@ == merged(self@, other@),
    {
        let mut r = self;
        // Neither side wrote since the fork, so every binding would be merged with itself. That
        // changes nothing, and the copy of the bindings that the loop would make is avoided.
        if r.bindings.ptr_eq(&other.bindings) {
            proof {
                laws::merge_is_idempotent(r@);
            }
            return r;
        }
        let mut rest = other.bindings.into_map();
        loop
            invariant
                merged(r@, bindings_model(rest@)) == merged(self@, other@),
            ensures
                r@ == merged(self@, other@),
            decreases rest@.len(),
        {
            let ghost before = (r@, bindings_model(rest@));
            let (ident, other_details) = match rest.pop() {
                Some(entry) => entry,
                None => {
                    assert(merged(before.0, before.1) =~= r@);
                    break;
                },
            };
            let bindings = r.bindings.make_mut();
            if let Some(self_details) = bindings.get_mut(&ident) {
                *self_details = self_details.clone().merge(other_details);
            } else {
                let _ = bindings.insert(ident, other_details);
            }
            assert(merged(r@, bindings_model(rest@)) =~= merged(before.0, before.1));
        }
        r
    }
}

/// A lexical scope within the program.
#[derive(Debug)]
pub struct ExternalEnv {
    /// The external target of the program.
    target: Details,
    /// The kind of the metadata.
    metadata: Kind,
}

/// What an [`ExternalEnv`] says.
#[verifier::ext_equal]
pub struct ExternalModel {
    /// What is known of the event.
    pub target: DetailsModel,
    /// The kind of the metadata.
    pub metadata: Shape,
}

impl ExternalModel {
    /// An event and metadata of these kinds, of which nothing more is known.
    pub open spec fn of_kinds(target: Shape, metadata: Shape) -> ExternalModel {
        ExternalModel {
            target: DetailsModel { type_def: TypeDefModel::plain(target), value: None },
            metadata,
        }
    }

    /// The kind of the event or the metadata.
    pub open spec fn kind(self, prefix: PathPrefix) -> Shape {
        match prefix {
            PathPrefix::Event => self.target.type_def.kind,
            PathPrefix::Metadata => self.metadata,
        }
    }

    /// What is known where one of two branches was taken.
    pub open spec fn or(self, other: ExternalModel) -> ExternalModel {
        ExternalModel {
            target: self.target.or(other.target),
            metadata: shape::either(self.metadata, other.metadata),
        }
    }
}

/// The shape of an object of whose fields nothing is known.
pub open spec fn any_object() -> Shape {
    shape::compose(
        Types { object: true, ..Types::none() },
        None,
        Some(shape::CollectionModel { known: Map::empty(), unknown: shape::anything() }),
    )
}

impl View for ExternalEnv {
    type V = ExternalModel;

    closed spec fn view(&self) -> ExternalModel {
        ExternalModel { target: self.target@, metadata: self.metadata@ }
    }
}

impl Clone for ExternalEnv {
    fn clone(&self) -> (r: Self)
        ensures
            r@ == self@,
    {
        ExternalEnv { target: self.target.clone(), metadata: self.metadata.clone() }
    }
}

impl Default for ExternalEnv {
    fn default() -> (r: Self)
        ensures
            r@ == ExternalModel::of_kinds(any_object(), any_object()),
    {
        ExternalEnv::new_with_kind(
            Kind::object(Collection::any()),
            Kind::object(Collection::any()),
        )
    }
}

impl ExternalEnv {
    /// What is known where one of two branches was taken.
    pub fn merge(self, other: Self) -> (r: Self)
        ensures
            r@ == self@.or(other@),
    {
        ExternalEnv {
            target: self.target.merge(other.target),
            metadata: self.metadata.union(&other.metadata),
        }
    }

    /// Creates a new external environment that starts with an initial given [`Kind`].
    pub fn new_with_kind(target: Kind, metadata: Kind) -> (r: Self)
        ensures
            r@ == ExternalModel::of_kinds(target@, metadata@),
    {
        ExternalEnv { target: Details { type_def: TypeDef::from(target), value: None }, metadata }
    }

    /// What is known of the event.
    pub fn target(&self) -> (r: &Details)
        ensures
            r@ == self@.target,
    {
        &self.target
    }

    /// What is known of the event, to be changed.
    pub fn target_mut(&mut self) -> (r: &mut Details)
        ensures
            r@ == old(self)@.target,
            final(self)@ == (ExternalModel { target: final(r)@, ..old(self)@ }),
    {
        &mut self.target
    }

    /// The kind of the event.
    pub fn target_kind(&self) -> (r: &Kind)
        ensures
            r@ == self@.kind(PathPrefix::Event),
    {
        self.target().type_def.kind()
    }

    /// The kind of the event or the metadata.
    pub fn kind(&self, prefix: PathPrefix) -> (r: Kind)
        ensures
            r@ == self@.kind(prefix),
    {
        match prefix {
            PathPrefix::Event => self.target_kind().clone(),
            PathPrefix::Metadata => self.metadata_kind().clone(),
        }
    }

    /// The kind of the metadata.
    pub fn metadata_kind(&self) -> (r: &Kind)
        ensures
            r@ == self@.kind(PathPrefix::Metadata),
    {
        &self.metadata
    }

    /// The kind of the metadata, to be changed.
    pub fn metadata_kind_mut(&mut self) -> (r: &mut Kind)
        ensures
            r@ == old(self)@.metadata,
            final(self)@ == (ExternalModel { metadata: final(r)@, ..old(self)@ }),
    {
        &mut self.metadata
    }

    /// Sets what is known of the event.
    pub fn update_target(&mut self, details: Details)
        ensures
            final(self)@ == (ExternalModel { target: details@, ..old(self)@ }),
    {
        self.target = details;
    }

    /// Sets the kind of the metadata.
    pub fn update_metadata(&mut self, kind: Kind)
        ensures
            final(self)@ == (ExternalModel { metadata: kind@, ..old(self)@ }),
    {
        self.metadata = kind;
    }
}

/// What is known while a program is compiled: of the variables, and of the event and its metadata.
#[derive(Debug)]
pub struct TypeState {
    pub local: LocalEnv,
    pub external: ExternalEnv,
}

/// What a [`TypeState`] says.
#[verifier::ext_equal]
pub struct TypeStateModel {
    pub local: Map<Seq<char>, DetailsModel>,
    pub external: ExternalModel,
}

impl TypeStateModel {
    /// What is known where one of two branches was taken.
    pub open spec fn or(self, other: TypeStateModel) -> TypeStateModel {
        TypeStateModel {
            local: merged(self.local, other.local),
            external: self.external.or(other.external),
        }
    }
}

impl View for TypeState {
    type V = TypeStateModel;

    open spec fn view(&self) -> TypeStateModel {
        TypeStateModel { local: self.local@, external: self.external@ }
    }
}

impl Clone for TypeState {
    fn clone(&self) -> (r: Self)
        ensures
            r@ == self@,
    {
        TypeState { local: self.local.clone(), external: self.external.clone() }
    }
}

impl Default for TypeState {
    fn default() -> (r: Self)
        ensures
            r@.local == Map::<Seq<char>, DetailsModel>::empty(),
            r@.external == ExternalModel::of_kinds(any_object(), any_object()),
    {
        TypeState { local: LocalEnv::default(), external: ExternalEnv::default() }
    }
}

impl TypeState {
    /// What is known where one of two branches was taken.
    pub fn merge(self, other: Self) -> (r: Self)
        ensures
            r@ == self@.or(other@),
    {
        TypeState {
            local: self.local.merge(other.local),
            external: self.external.merge(other.external),
        }
    }
}

impl vstd::std_specs::convert::FromSpecImpl<&TypeState> for TypeState {
    open spec fn obeys_from_spec() -> bool {
        false
    }

    open spec fn from_spec(state: &TypeState) -> TypeState {
        *state
    }
}

impl From<&TypeState> for TypeState {
    /// A copy of the state.
    fn from(state: &TypeState) -> (r: Self)
        ensures
            r@ == state@,
    {
        state.clone()
    }
}

/// What is known after an expression, and what is known of its result.
#[derive(Debug)]
pub struct TypeInfo {
    pub state: TypeState,
    pub result: TypeDef,
}

/// What a [`TypeInfo`] says.
#[verifier::ext_equal]
pub struct TypeInfoModel {
    pub state: TypeStateModel,
    pub result: TypeDefModel,
}

impl View for TypeInfo {
    type V = TypeInfoModel;

    open spec fn view(&self) -> TypeInfoModel {
        TypeInfoModel { state: self.state@, result: self.result@ }
    }
}

impl Clone for TypeInfo {
    fn clone(&self) -> (r: Self)
        ensures
            r@ == self@,
    {
        TypeInfo { state: self.state.clone(), result: self.result.clone() }
    }
}

impl TypeInfo {
    /// Pairs a state, or what can be made one, with a result.
    pub fn new<S: Into<TypeState>>(state: S, result: TypeDef) -> (r: Self)
        ensures
            call_ensures(<S as Into<TypeState>>::into, (state,), r.state),
            r.result == result,
    {
        TypeInfo { state: state.into(), result }
    }

    /// The same state with the result that `f` makes of this one.
    pub fn map_result<F: FnOnce(TypeDef) -> TypeDef>(self, f: F) -> (r: Self)
        requires
            call_requires(f, (self.result,)),
        ensures
            r.state == self.state,
            call_ensures(f, (self.result,), r.result),
    {
        TypeInfo { state: self.state, result: f(self.result) }
    }
}

/// The values in a table of variables.
pub open spec fn values_model(variables: Map<Seq<char>, Value>) -> Map<Seq<char>, ValueModel> {
    Map::new(
        |name: Seq<char>| variables.contains_key(name),
        |name: Seq<char>| variables[name]@,
    )
}

/// The state used at runtime to track changes as they happen.
#[derive(Debug)]
pub struct RuntimeState {
    /// The [`Value`] stored in each variable.
    variables: Table<Ident, Value>,
}

impl View for RuntimeState {
    type V = Map<Seq<char>, ValueModel>;

    open spec fn view(&self) -> Map<Seq<char>, ValueModel> {
        self.values()
    }
}

impl RuntimeState {
    /// The value of each variable that has one.
    pub closed spec fn values(&self) -> Map<Seq<char>, ValueModel> {
        values_model(self.variables@)
    }
}

impl Default for RuntimeState {
    fn default() -> (r: Self)
        ensures
            r@ == Map::<Seq<char>, ValueModel>::empty(),
    {
        let r = RuntimeState { variables: Table::new() };
        assert(r@ =~= Map::<Seq<char>, ValueModel>::empty());
        r
    }
}

impl RuntimeState {
    /// Whether no variable has a value.
    pub fn is_empty(&self) -> (r: bool)
        ensures
            r == (self@ == Map::<Seq<char>, ValueModel>::empty()),
    {
        let count: usize = self.variables.len();
        proof {
            assert(self@.dom() =~= self.variables@.dom());
            if count == 0 {
                assert(self.variables@.dom() =~= Set::<Seq<char>>::empty());
                assert(self@ =~= Map::<Seq<char>, ValueModel>::empty());
            } else {
                assert(self@.dom().len() != 0);
            }
        }
        count == 0
    }

    /// Forgets every variable.
    pub fn clear(&mut self)
        ensures
            final(self)@ == Map::<Seq<char>, ValueModel>::empty(),
    {
        self.variables.clear();
        assert(self@ =~= Map::<Seq<char>, ValueModel>::empty());
    }

    /// The value of a variable.
    pub fn variable(&self, ident: &Ident) -> (r: Option<&Value>)
        ensures
            match r {
                Some(value) => self@.contains_key(ident@) && value@ == self@[ident@],
                None => !self@.contains_key(ident@),
            },
    {
        self.variables.get(ident)
    }

    /// The value of a variable, to be changed in place.
    pub fn variable_mut(&mut self, ident: &Ident) -> (r: Option<&mut Value>)
        ensures
            match r {
                Some(value) => {
                    &&& old(self)@.contains_key(ident@)
                    &&& value@ == old(self)@[ident@]
                    &&& final(self)@ == old(self)@.insert(ident@, final(value)@)
                },
                None => !old(self)@.contains_key(ident@) && final(self)@ == old(self)@,
            },
    {
        let r = self.variables.get_mut(ident);
        r
    }

    /// Gives a variable a value.
    pub fn insert_variable(&mut self, ident: Ident, value: Value)
        ensures
            final(self)@ == old(self)@.insert(ident@, value@),
    {
        let ghost key = ident@;
        let ghost given = value@;
        let _ = self.variables.insert(ident, value);
        assert(self@ =~= old(self)@.insert(key, given));
    }

    /// Forgets a variable.
    pub fn remove_variable(&mut self, ident: &Ident)
        ensures
            final(self)@ == old(self)@.remove(ident@),
    {
        let _ = self.variables.remove(ident);
        assert(self@ =~= old(self)@.remove(ident@));
    }

    /// Gives a variable a value, and hands back the one that it had.
    pub fn swap_variable(&mut self, ident: Ident, value: Value) -> (r: Option<Value>)
        ensures
            final(self)@ == old(self)@.insert(ident@, value@),
            match r {
                Some(previous) => {
                    &&& old(self)@.contains_key(ident@)
                    &&& previous@ == old(self)@[ident@]
                },
                None => !old(self)@.contains_key(ident@),
            },
    {
        let ghost key = ident@;
        let ghost given = value@;
        let r = self.variables.insert(ident, value);
        assert(self@ =~= old(self)@.insert(key, given));
        r
    }
}

} // verus!
