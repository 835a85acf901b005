//! The kinds of values that the compiler reasons about.
use crate::kind::shape::{CollectionModel, Place, Shape};
use crate::kind::types::Types;
use crate::table::{Key, Table};
use vstd::prelude::*;

mod at_path;
mod equality;
pub mod exactness;
pub mod of_value;
mod remove;
pub mod remove_exactness;
pub mod remove_soundness;
pub mod shape;
pub mod soundness;
pub mod types;
mod union;

verus! {

/// The key of an item of an array: its position, from the first item on.
#[derive(Debug)]
pub struct Position(pub usize);

impl View for Position {
    type V = nat;

    open spec fn view(&self) -> nat {
        self.0 as nat
    }
}

impl Key for Position {
    fn same(&self, other: &Self) -> (r: bool) {
        self.0 == other.0
    }

    fn duplicate(&self) -> (r: Self) {
        Position(self.0)
    }

    proof fn unused(keys: Set<nat>) -> (r: nat) {
        lemma_unused_position(keys, 0)
    }
}

/// Among finitely many positions, one from `from` on is missing.
proof fn lemma_unused_position(positions: Set<nat>, from: nat) -> (r: nat)
    requires
        positions.finite(),
    ensures
        from <= r,
        !positions.contains(r),
    decreases positions.len(),
{
    if positions.contains(from) {
        lemma_unused_position(positions.remove(from), from + 1)
    } else {
        from
    }
}

/// The set of values that an expression may have.
#[derive(Debug)]
pub struct Kind {
    bytes: bool,
    integer: bool,
    float: bool,
    boolean: bool,
    timestamp: bool,
    regex: bool,
    null: bool,
    undefined: bool,
    array: Option<Box<Collection<Position>>>,
    object: Option<Box<Collection<String>>>,
}

/// The kinds of the members of an array or an object.
#[derive(Debug)]
pub struct Collection<K: Key> {
    known: Table<K, Kind>,
    unknown: Unknown,
}

/// The kind of the members that are not known by their key. Any such member may be missing.
#[derive(Debug)]
enum Unknown {
    Exact(Box<Kind>),
    Anything,
}

impl Kind {
    spec fn top(self) -> Types {
        Types {
            bytes: self.bytes,
            integer: self.integer,
            float: self.float,
            boolean: self.boolean,
            timestamp: self.timestamp,
            regex: self.regex,
            null: self.null,
            undefined: self.undefined,
            array: self.array is Some,
            object: self.object is Some,
        }
    }
}

/// The types at a place below a value of this kind.
spec fn kind_types(kind: Kind, at: Seq<Place>) -> Types
    decreases at.len(), 0nat,
{
    if at.len() == 0 {
        kind.top()
    } else {
        match (at[0], kind.array, kind.object) {
            (Place::Field(name), _, Some(fields)) => member_types(*fields, name, at.drop_first()),
            (Place::Item(index), Some(items), _) => member_types(*items, index, at.drop_first()),
            _ => Types::none(),
        }
    }
}

/// The types at a place at or below the member with this key.
spec fn member_types<K: Key>(members: Collection<K>, key: K::V, at: Seq<Place>) -> Types
    decreases at.len(), 2nat,
{
    if members.known@.contains_key(key) {
        kind_types(members.known@[key], at)
    } else {
        unknown_types(members.unknown, at)
    }
}

/// The types at a place at or below a member that is not known by its key.
spec fn unknown_types(unknown: Unknown, at: Seq<Place>) -> Types
    decreases at.len(), 1nat,
{
    match unknown {
        Unknown::Exact(kind) => if at.len() == 0 {
            kind_types(*kind, at).with_undefined()
        } else {
            kind_types(*kind, at)
        },
        Unknown::Anything => Types::all(),
    }
}

impl View for Kind {
    type V = Shape;

    closed spec fn view(&self) -> Shape {
        |at: Seq<Place>| kind_types(*self, at)
    }
}

impl View for Unknown {
    type V = Shape;

    closed spec fn view(&self) -> Shape {
        |at: Seq<Place>| unknown_types(*self, at)
    }
}

impl<K: Key> View for Collection<K> {
    type V = CollectionModel<K::V>;

    closed spec fn view(&self) -> CollectionModel<K::V> {
        CollectionModel {
            known: Map::new(
                |key: K::V| self.known@.contains_key(key),
                |key: K::V| self.known@[key]@,
            ),
            unknown: self.unknown@,
        }
    }
}

/// What a collection says, where there is one.
pub(crate) open spec fn model<K: Key>(members: Option<Box<Collection<K>>>) -> Option<
    CollectionModel<K::V>,
> {
    match members {
        Some(members) => Some((*members)@),
        None => None,
    }
}

impl Collection<Position> {
    /// The shapes of the items.
    spec fn items(self) -> spec_fn(nat) -> Shape {
        |i: nat| self@.at(i)
    }
}

/// A kind says of its fields and items what its collections say.
proof fn lemma_kind_members(kind: Kind)
    ensures
        shape::top(kind@) == kind.top(),
        kind.object matches Some(fields) ==> forall|name: Seq<char>| #[trigger]
            shape::below(kind@, Place::Field(name)) == fields@.at(name),
        kind.array matches Some(items) ==> shape::items(kind@) == items.items(),
        kind.array matches Some(items) ==> forall|i: nat| #[trigger]
            shape::below(kind@, Place::Item(i)) == items@.at(i),
{
    lemma_kind_view(kind);
    assert forall|place: Place| #[trigger]
        shape::below(kind@, place) == (match (place, model(kind.array), model(kind.object)) {
            (Place::Field(name), _, Some(fields)) => fields.at(name),
            (Place::Item(index), Some(items), _) => items.at(index),
            _ => shape::top_only(Types::none()),
        }) by {
        shape::lemma_below_compose(kind.top(), model(kind.array), model(kind.object), place);
    }
    if let Some(items) = kind.array {
        assert(shape::items(kind@) =~= items.items());
    }
}

/// A kind says what its top and its two collections say.
proof fn lemma_kind_view(kind: Kind)
    ensures
        kind@ == shape::compose(kind.top(), model(kind.array), model(kind.object)),
{
    let shape = shape::compose(kind.top(), model(kind.array), model(kind.object));
    assert forall|at: Seq<Place>| #[trigger] (kind@)(at) == shape(at) by {
        if at.len() > 0 {
            match (at[0], kind.array, kind.object) {
                (Place::Field(name), _, Some(fields)) => {
                    lemma_member_view(*fields, name, at.drop_first());
                },
                (Place::Item(index), Some(items), _) => {
                    lemma_member_view(*items, index, at.drop_first());
                },
                _ => {},
            }
        }
    }
    assert(kind@ =~= shape);
}

/// A collection says of a member what the kind of the member says.
proof fn lemma_member_view<K: Key>(members: Collection<K>, key: K::V, at: Seq<Place>)
    ensures
        (members@.at(key))(at) == member_types(members, key, at),
{
}

/// A member that is not known by its key may be missing.
proof fn lemma_unknown_view(unknown: Unknown)
    ensures
        match unknown {
            Unknown::Exact(kind) => unknown@ == shape::maybe_missing(kind@),
            Unknown::Anything => unknown@ == shape::anything(),
        },
{
    match unknown {
        Unknown::Exact(kind) => {
            assert(unknown@ =~= shape::maybe_missing(kind@));
        },
        Unknown::Anything => {
            assert(unknown@ =~= shape::anything());
        },
    }
}

impl Clone for Kind {
    fn clone(&self) -> (r: Self)
        ensures
            r@ == self@,
        decreases self,
    {
        let array = match &self.array {
            Some(items) => Some(Box::new((&**items).clone())),
            None => None,
        };
        let object = match &self.object {
            Some(fields) => Some(Box::new((&**fields).clone())),
            None => None,
        };
        let r = build(self.types(), array, object);
        proof {
            lemma_kind_view(*self);
        }
        r
    }
}

impl<K: Key> Clone for Collection<K> {
    fn clone(&self) -> (r: Self)
        ensures
            r@ == self@,
        decreases self,
    {
        let count: usize = self.known.len();
        let mut known: Table<K, Kind> = Table::new();
        let mut i: usize = 0;
        while i < count
            invariant
                i <= count == self.known.order().len(),
                self.known.order().to_set() == self.known@.dom(),
                known@.dom() =~= self.known.order().take(i as int).to_set(),
                forall|key: K::V| #[trigger]
                    known@.contains_key(key) ==> self.known@.contains_key(key) && known@[key]@
                        == self.known@[key]@,
            decreases count - i,
        {
            let (key, kind) = self.known.entry(i);
            proof {
                self.known.value_is_smaller(key@);
                lemma_take_to_set(self.known.order(), i as int);
            }
            let _ = known.insert(key.duplicate(), kind.clone());
            i += 1;
        }
        let unknown = match &self.unknown {
            Unknown::Exact(kind) => Unknown::Exact(Box::new((&**kind).clone())),
            Unknown::Anything => Unknown::Anything,
        };
        let r = Collection { known, unknown };
        proof {
            assert(self.known.order().take(count as int) =~= self.known.order());
            lemma_unknown_view(self.unknown);
            lemma_unknown_view(unknown);
            assert(r@.known =~= self@.known);
        }
        r
    }
}

/// The set of the first items of a sequence, when one more is taken.
proof fn lemma_take_to_set<A>(s: Seq<A>, i: int)
    requires
        0 <= i < s.len(),
    ensures
        s.take(i + 1).to_set() == s.take(i).to_set().insert(s[i]),
{
    assert(s.take(i + 1) =~= s.take(i).push(s[i]));
    crate::value::lemma_push_to_set(s.take(i), s[i]);
}

/// The kind with these types at the top, and these collections.
fn build(
    types: Types,
    array: Option<Box<Collection<Position>>>,
    object: Option<Box<Collection<String>>>,
) -> (r: Kind)
    ensures
        r.array == array,
        r.object == object,
        r.top() == (Types { array: array is Some, object: object is Some, ..types }),
        r@ == shape::compose(r.top(), model(array), model(object)),
{
    let r = Kind {
        bytes: types.bytes,
        integer: types.integer,
        float: types.float,
        boolean: types.boolean,
        timestamp: types.timestamp,
        regex: types.regex,
        null: types.null,
        undefined: types.undefined,
        array,
        object,
    };
    proof {
        lemma_kind_view(r);
    }
    r
}

/// The kind with these types, without collections.
fn scalar(types: Types) -> (r: Kind)
    requires
        !types.array,
        !types.object,
    ensures
        r@ == shape::top_only(types),
{
    let r = build(types, None, None);
    assert(r@ =~= shape::top_only(types));
    r
}

impl Kind {
    /// The kind of no value: that of an expression that never has one.
    pub fn never() -> (r: Kind)
        ensures
            r@ == shape::top_only(Types::none()),
    {
        scalar(Types::empty())
    }

    /// The kind of a missing value.
    pub fn undefined() -> (r: Kind)
        ensures
            r@ == shape::top_only(Types { undefined: true, ..Types::none() }),
    {
        scalar(Types { undefined: true, ..Types::empty() })
    }

    /// The kind of null.
    pub fn null() -> (r: Kind)
        ensures
            r@ == shape::top_only(Types { null: true, ..Types::none() }),
    {
        scalar(Types { null: true, ..Types::empty() })
    }

    /// The kind of byte strings.
    pub fn bytes() -> (r: Kind)
        ensures
            r@ == shape::top_only(Types { bytes: true, ..Types::none() }),
    {
        scalar(Types { bytes: true, ..Types::empty() })
    }

    /// The kind of integers.
    pub fn integer() -> (r: Kind)
        ensures
            r@ == shape::top_only(Types { integer: true, ..Types::none() }),
    {
        scalar(Types { integer: true, ..Types::empty() })
    }

    /// The kind of numbers with a fraction.
    pub fn float() -> (r: Kind)
        ensures
            r@ == shape::top_only(Types { float: true, ..Types::none() }),
    {
        scalar(Types { float: true, ..Types::empty() })
    }

    /// The kind of truth values.
    pub fn boolean() -> (r: Kind)
        ensures
            r@ == shape::top_only(Types { boolean: true, ..Types::none() }),
    {
        scalar(Types { boolean: true, ..Types::empty() })
    }

    /// The kind of points in time.
    pub fn timestamp() -> (r: Kind)
        ensures
            r@ == shape::top_only(Types { timestamp: true, ..Types::none() }),
    {
        scalar(Types { timestamp: true, ..Types::empty() })
    }

    /// The kind of regular expressions.
    pub fn regex() -> (r: Kind)
        ensures
            r@ == shape::top_only(Types { regex: true, ..Types::none() }),
    {
        scalar(Types { regex: true, ..Types::empty() })
    }

    /// The kind of everything, a missing value too.
    pub fn any() -> (r: Kind)
        ensures
            r@ == shape::anything(),
    {
        let r = build(
            Types::full(),
            Some(Box::new(Collection::any())),
            Some(Box::new(Collection::any())),
        );
        assert(r@ =~= shape::anything());
        r
    }

    /// The kind of arrays with items of these kinds.
    pub fn array(items: Collection<Position>) -> (r: Kind)
        ensures
            r@ == shape::compose(Types { array: true, ..Types::none() }, Some(items@), None),
    {
        build(Types::empty(), Some(Box::new(items)), None)
    }

    /// The kind of objects with fields of these kinds.
    pub fn object(fields: Collection<String>) -> (r: Kind)
        ensures
            r@ == shape::compose(Types { object: true, ..Types::none() }, None, Some(fields@)),
    {
        build(Types::empty(), None, Some(Box::new(fields)))
    }

    /// Whether the values are objects, each time.
    pub fn is_object(&self) -> (r: bool)
        ensures
            r == (shape::top(self@) == Types { object: true, ..Types::none() }),
    {
        proof {
            lemma_kind_members(*self);
        }
        self.types() == Types { object: true, ..Types::empty() }
    }

    /// What is known of the fields, where the values may be objects.
    pub fn as_object(&self) -> (r: Option<&Collection<String>>)
        ensures
            r is Some <==> shape::top(self@).object,
            r matches Some(fields) ==> has_fields(self@, fields@),
    {
        proof {
            lemma_kind_members(*self);
        }
        match &self.object {
            Some(fields) => Some(&**fields),
            None => None,
        }
    }

    /// The kind where a missing value is taken for null.
    pub fn upgrade_undefined(self) -> (r: Kind)
        ensures
            r@ == shape::null_if_missing(self@),
    {
        let r = if self.undefined {
            Kind { undefined: false, null: true, ..self }
        } else {
            self
        };
        proof {
            lemma_kind_view(self);
            lemma_kind_view(r);
            assert(r@ =~= shape::null_if_missing(self@)) by {
                assert forall|at: Seq<Place>| #[trigger]
                    (r@)(at) == shape::null_if_missing(self@)(at) by {
                    if at.len() == 0 {
                        assert(at =~= Seq::<Place>::empty());
                    }
                }
            }
        }
        r
    }

    /// The types at the top.
    fn types(&self) -> (r: Types)
        ensures
            r == self.top(),
    {
        Types {
            bytes: self.bytes,
            integer: self.integer,
            float: self.float,
            boolean: self.boolean,
            timestamp: self.timestamp,
            regex: self.regex,
            null: self.null,
            undefined: self.undefined,
            array: self.array.is_some(),
            object: self.object.is_some(),
        }
    }
}

/// Whether the fields of an object of this shape are as the collection says.
pub open spec fn has_fields(shape: Shape, fields: CollectionModel<Seq<char>>) -> bool {
    forall|name: Seq<char>| #[trigger]
        shape::below(shape, Place::Field(name)) == fields.at(name)
}

/// The kinds of the members that a list gives. The last entry with a key counts.
pub open spec fn listed<K: Key>(entries: Seq<(K, Kind)>) -> Map<K::V, Shape>
    decreases entries.len(),
{
    if entries.len() == 0 {
        Map::empty()
    } else {
        listed(entries.drop_last()).insert(entries.last().0@, entries.last().1@)
    }
}

impl<K: Key> Collection<K> {
    /// The collection with these kinds for some members, and one for all others. The last entry
    /// with a key counts.
    pub fn from_parts(known: Vec<(K, Kind)>, unknown: Kind) -> (r: Self)
        ensures
            r@.known == listed(known@),
            r@.unknown == shape::maybe_missing(unknown@),
    {
        let ghost entries = known@;
        let mut known = known;
        let mut table: Table<K, Kind> = Table::new();
        let ghost mut done: Map<K::V, Shape> = Map::empty();
        assert(listed(entries) =~= listed(known@).union_prefer_right(done));
        while known.len() > 0
            invariant
                done.dom() =~= table@.dom(),
                forall|key: K::V| #[trigger] table@.contains_key(key) ==> done[key] == table@[key]@,
                listed(entries) == listed(known@).union_prefer_right(done),
            decreases known@.len(),
        {
            let ghost before = known@;
            let ghost previous = done;
            let entry = known.pop();
            if let Some((key, kind)) = entry {
                proof {
                    assert(before.drop_last() =~= known@);
                    assert(before.last() == (key, kind));
                }
                if table.get(&key).is_none() {
                    proof {
                        done = done.insert(key@, kind@);
                    }
                    let _ = table.insert(key, kind);
                }
                assert(listed(before).union_prefer_right(previous) =~= listed(
                    known@,
                ).union_prefer_right(done));
            }
        }
        let r = Collection { known: table, unknown: Unknown::Exact(Box::new(unknown)) };
        proof {
            lemma_unknown_view(r.unknown);
            assert(listed(entries) =~= done);
            assert(r@.known =~= done);
        }
        r
    }

    /// The collection of which nothing is known.
    pub fn any() -> (r: Self)
        ensures
            r@.known == Map::<K::V, Shape>::empty(),
            r@.unknown == shape::anything(),
    {
        let r = Collection { known: Table::new(), unknown: Unknown::Anything };
        proof {
            lemma_unknown_view(r.unknown);
            assert(r@.known =~= Map::<K::V, Shape>::empty());
        }
        r
    }
}

} // verus!
