//! What a kind says: the types that may be found at each place below a value.
use crate::kind::types::{Type, Types};
use crate::path::Step;
use vstd::prelude::*;

verus! {

/// A place one step below a value.
pub enum Place {
    Field(Seq<char>),
    Item(nat),
}

/// For the way to each place below a value, the types that may be found there. The set is empty
/// where the place cannot be reached.
pub type Shape = spec_fn(Seq<Place>) -> Types;

/// What a collection says of its members: of those that are known by their key, one by one, and
/// of all the others together.
#[verifier::reject_recursive_types(K)]
pub struct CollectionModel<K> {
    pub known: Map<K, Shape>,
    pub unknown: Shape,
}

impl<K> CollectionModel<K> {
    /// What the collection says of the member with this key.
    pub open spec fn at(self, key: K) -> Shape {
        if self.known.contains_key(key) {
            self.known[key]
        } else {
            self.unknown
        }
    }
}

/// Whether a collection says nothing of any member.
pub open spec fn all_anything<K>(members: CollectionModel<K>) -> bool {
    forall|key: K| #[trigger] members.at(key) == anything()
}

/// The shape with these types at the top, and these collections below.
pub open spec fn compose(
    top: Types,
    array: Option<CollectionModel<nat>>,
    object: Option<CollectionModel<Seq<char>>>,
) -> Shape {
    |at: Seq<Place>|
        if at.len() == 0 {
            top
        } else {
            match (at[0], array, object) {
                (Place::Field(name), _, Some(fields)) => (fields.at(name))(at.drop_first()),
                (Place::Item(index), Some(items), _) => (items.at(index))(at.drop_first()),
                _ => Types::none(),
            }
        }
}

/// The shape of a value with one of these types, with nothing below it.
pub open spec fn top_only(types: Types) -> Shape {
    |at: Seq<Place>|
        if at.len() == 0 {
            types
        } else {
            Types::none()
        }
}

/// The shape of a value of which nothing is known.
pub open spec fn anything() -> Shape {
    |at: Seq<Place>| Types::all()
}

/// The shape of a value that has one shape or the other.
pub open spec fn either(a: Shape, b: Shape) -> Shape {
    |at: Seq<Place>| a(at).or(b(at))
}

/// The shape of a value that may be missing.
pub open spec fn maybe_missing(shape: Shape) -> Shape {
    |at: Seq<Place>|
        if at.len() == 0 {
            shape(at).with_undefined()
        } else {
            shape(at)
        }
}

/// The shape below one place.
pub open spec fn below(shape: Shape, place: Place) -> Shape {
    |at: Seq<Place>| shape(seq![place] + at)
}

/// The types at the top.
pub open spec fn top(shape: Shape) -> Types {
    shape(Seq::empty())
}

/// The types of the values in which a place lies.
pub open spec fn holder(place: Place) -> Types {
    match place {
        Place::Field(_) => Types { object: true, ..Types::none() },
        Place::Item(_) => Types { array: true, ..Types::none() },
    }
}

/// What is found at a member of an array or an object, where `member` is the shape of the member
/// and `holder` the type of the collection: nothing where there is no value at all, a missing
/// value where the value is not such a collection.
pub open spec fn found(shape: Shape, holder: Types, member: Shape) -> Shape {
    if top(shape) == Types::none() {
        top_only(Types::none())
    } else if !holder.within(top(shape)) {
        missing()
    } else if top(shape) == holder {
        member
    } else {
        maybe_missing(member)
    }
}

/// The shapes of the items of an array, one for each position.
pub open spec fn items(shape: Shape) -> spec_fn(nat) -> Shape {
    |i: nat| below(shape, Place::Item(i))
}

/// Whether an array with these items has `len` of them, each time.
pub open spec fn has_length(items: spec_fn(nat) -> Shape, len: nat) -> bool {
    forall|i: nat| #[trigger] item_fits_length(items, len, i)
}

/// Whether there is an item at position `i`, each time, if that is below `len`, and none if not.
pub open spec fn item_fits_length(items: spec_fn(nat) -> Shape, len: nat, i: nat) -> bool {
    let types = top(items(i));
    if i < len {
        types.any_defined() && !types.undefined
    } else {
        !types.any_defined()
    }
}

/// Whether an item at some position may have this type, at a place at or below it.
pub open spec fn some_item_has(
    items: spec_fn(nat) -> Shape,
    at: Seq<Place>,
    t: Type,
) -> bool {
    exists|i: nat| (#[trigger] items(i))(at).has(t)
}

/// The shape of an item at an unknown position. There may be none.
pub open spec fn some_item(items: spec_fn(nat) -> Shape) -> Shape {
    maybe_missing(
        |at: Seq<Place>| Types::all_with(|t: Type| some_item_has(items, at, t)),
    )
}

/// The shape of the item `back` positions before the end of an array.
pub open spec fn item_from_end(items: spec_fn(nat) -> Shape, back: nat) -> Shape {
    if exists|len: nat| has_length(items, len) {
        let len = choose|len: nat| has_length(items, len);
        if back <= len {
            items((len - back) as nat)
        } else {
            missing()
        }
    } else {
        some_item(items)
    }
}

/// The shape of what is found one step into a value.
pub open spec fn at_step(shape: Shape, step: Step) -> Shape {
    match step {
        Step::Field(name) => {
            let place = Place::Field(name);
            found(shape, holder(place), below(shape, place))
        },
        Step::Index(index) => if index >= 0 {
            let place = Place::Item(index as nat);
            found(shape, holder(place), below(shape, place))
        } else {
            found(shape, holder(Place::Item(0)), item_from_end(items(shape), (-index) as nat))
        },
    }
}

/// The shape where a missing value is taken for null.
pub open spec fn null_if_missing(shape: Shape) -> Shape {
    |at: Seq<Place>|
        if at.len() == 0 && shape(at).undefined {
            Types { null: true, undefined: false, ..shape(at) }
        } else {
            shape(at)
        }
}

/// The shape of what is found at a path into a value.
pub open spec fn at_path(shape: Shape, path: Seq<Step>) -> Shape
    decreases path.len(),
{
    if path.len() == 0 {
        shape
    } else {
        at_path(at_step(shape, path[0]), path.drop_first())
    }
}

/// The shape of a missing value.
pub open spec fn missing() -> Shape {
    top_only(Types { undefined: true, ..Types::none() })
}

/// The shape of a value whose contents were taken: arrays and objects are empty, and any other
/// value is null.
pub open spec fn emptied(shape: Shape) -> Shape {
    let types = top(shape);
    |at: Seq<Place>|
        if at.len() == 0 {
            Types {
                null: types.any_primitive(),
                undefined: types.undefined,
                array: types.array,
                object: types.object,
                ..Types::none()
            }
        } else if holder(at[0]).within(types) {
            missing()(at.drop_first())
        } else {
            Types::none()
        }
}

/// The shape with another one for a field.
pub open spec fn with_field(shape: Shape, name: Seq<char>, field: Shape) -> Shape {
    |at: Seq<Place>|
        if at.len() > 0 && at[0] == Place::Field(name) {
            field(at.drop_first())
        } else {
            shape(at)
        }
}

/// The shape with other ones for the items.
pub open spec fn with_items(shape: Shape, items: spec_fn(nat) -> Shape) -> Shape {
    |at: Seq<Place>|
        if at.len() > 0 && at[0] is Item {
            items(at[0]->Item_0)(at.drop_first())
        } else {
            shape(at)
        }
}

/// Whether a value of this shape may be an empty array or an empty object.
pub open spec fn may_be_empty(shape: Shape) -> bool {
    ||| top(shape).object && forall|name: Seq<char>|
        (#[trigger] top(below(shape, Place::Field(name)))).undefined
    ||| top(shape).array && forall|i: nat|
        (#[trigger] top(below(shape, Place::Item(i)))).undefined
}

/// Whether a value of this shape is an empty array or an empty object, each time.
pub open spec fn is_always_empty(shape: Shape) -> bool {
    &&& top(shape).within(Types { array: true, object: true, ..Types::none() })
    &&& top(shape).object ==> forall|name: Seq<char>|
        !(#[trigger] top(below(shape, Place::Field(name)))).any_defined()
    &&& top(shape).array ==> forall|i: nat|
        !(#[trigger] top(below(shape, Place::Item(i)))).any_defined()
}

/// Whether a member goes when a value inside it was removed.
pub enum Pruned {
    Never,
    Maybe,
    Always,
}

/// Whether a member goes when the value at `path` inside it was removed: if `compact` is set, it
/// goes where the removal left it empty.
pub open spec fn pruned(shape: Shape, path: Seq<Step>, compact: bool) -> Pruned
    decreases path.len(), 1nat,
{
    let left = remove(shape, path, compact);
    let found = top(at_path(shape, path));
    if !compact || !found.any_defined() || !may_be_empty(left) {
        Pruned::Never
    } else if !found.undefined && is_always_empty(left) {
        Pruned::Always
    } else {
        Pruned::Maybe
    }
}

/// The items when the one at position `i` was taken out: those behind it move up.
pub open spec fn shifted(items: spec_fn(nat) -> Shape, i: nat) -> spec_fn(nat) -> Shape {
    |j: nat|
        if j < i {
            items(j)
        } else {
            items(j + 1)
        }
}

/// The items with another one at position `i`.
pub open spec fn with_item(items: spec_fn(nat) -> Shape, i: nat, item: Shape) -> spec_fn(
    nat,
) -> Shape {
    |j: nat|
        if j == i {
            item
        } else {
            items(j)
        }
}

/// The items that are either the ones or the others.
pub open spec fn either_items(
    a: spec_fn(nat) -> Shape,
    b: spec_fn(nat) -> Shape,
) -> spec_fn(nat) -> Shape {
    |j: nat| either(a(j), b(j))
}

/// The items when the value at `path` inside the one at position `i` was removed.
pub open spec fn remove_at(
    items: spec_fn(nat) -> Shape,
    i: nat,
    path: Seq<Step>,
    compact: bool,
) -> spec_fn(nat) -> Shape
    decreases path.len(), 2nat,
{
    if path.len() == 0 {
        shifted(items, i)
    } else {
        let kept = with_item(items, i, remove(items(i), path, compact));
        match pruned(items(i), path, compact) {
            Pruned::Never => kept,
            Pruned::Maybe => either_items(kept, shifted(items, i)),
            Pruned::Always => shifted(items, i),
        }
    }
}

/// The items when the value at `path` inside one of them was removed, at an unknown position.
pub open spec fn remove_somewhere(
    items: spec_fn(nat) -> Shape,
    path: Seq<Step>,
    compact: bool,
) -> spec_fn(nat) -> Shape
    decreases path.len(), 1nat,
{
    if path.len() == 0 {
        either_items(items, shifted(items, 0))
    } else {
        let kept = either_items(items, |j: nat| remove(items(j), path, compact));
        if compact {
            either_items(kept, shifted(items, 0))
        } else {
            kept
        }
    }
}

/// The shape of what is left of a value when the value at `path` inside it was removed. If
/// `compact` is set, an array or an object that the removal left empty is removed in turn, but
/// not the outermost one.
pub open spec fn remove(shape: Shape, path: Seq<Step>, compact: bool) -> Shape
    decreases path.len(), 0nat,
{
    if path.len() == 0 {
        emptied(shape)
    } else {
        let rest = path.drop_first();
        match path[0] {
            Step::Field(name) => {
                let field = below(shape, Place::Field(name));
                if !top(shape).object {
                    shape
                } else if rest.len() == 0 {
                    with_field(shape, name, missing())
                } else {
                    let kept = remove(field, rest, compact);
                    match pruned(field, rest, compact) {
                        Pruned::Never => with_field(shape, name, kept),
                        Pruned::Maybe => with_field(shape, name, maybe_missing(kept)),
                        Pruned::Always => with_field(shape, name, missing()),
                    }
                }
            },
            Step::Index(index) => if !top(shape).array {
                shape
            } else if index >= 0 {
                with_items(shape, remove_at(items(shape), index as nat, rest, compact))
            } else if exists|len: nat| has_length(items(shape), len) {
                let len = choose|len: nat| has_length(items(shape), len);
                if -index <= len {
                    with_items(
                        shape,
                        remove_at(items(shape), (len + index) as nat, rest, compact),
                    )
                } else {
                    shape
                }
            } else {
                with_items(shape, remove_somewhere(items(shape), rest, compact))
            },
        }
    }
}

/// An array has one length at most.
pub proof fn length_is_unique(items: spec_fn(nat) -> Shape, a: nat, b: nat)
    requires
        has_length(items, a),
        has_length(items, b),
    ensures
        a == b,
{
    if a < b {
        assert(item_fits_length(items, a, a));
        assert(item_fits_length(items, b, a));
    } else if b < a {
        assert(item_fits_length(items, a, b));
        assert(item_fits_length(items, b, b));
    }
}

/// Below one place, a shape says what the collection says of that member.
pub proof fn lemma_below_compose(
    types: Types,
    array: Option<CollectionModel<nat>>,
    object: Option<CollectionModel<Seq<char>>>,
    place: Place,
)
    ensures
        below(compose(types, array, object), place) == match (place, array, object) {
            (Place::Field(name), _, Some(fields)) => fields.at(name),
            (Place::Item(index), Some(items), _) => items.at(index),
            _ => top_only(Types::none()),
        },
{
    let shape = compose(types, array, object);
    let left = below(shape, place);
    let right = match (place, array, object) {
        (Place::Field(name), _, Some(fields)) => fields.at(name),
        (Place::Item(index), Some(items), _) => items.at(index),
        _ => top_only(Types::none()),
    };
    assert forall|at: Seq<Place>| #[trigger] left(at) == right(at) by {
        assert((seq![place] + at)[0] == place);
        assert((seq![place] + at).drop_first() =~= at);
    }
    assert(left =~= right);
}

} // verus!
