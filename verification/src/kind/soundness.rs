//! Kinds hold of the values that they are kinds of.
use crate::kind::of_value;
use crate::kind::shape;
use crate::kind::shape::{Place, Shape};
use crate::kind::types::{Type, Types};
use crate::path::Step;
use crate::value;
use crate::value::ValueModel;
use vstd::prelude::*;

verus! {

/// Whether one shape allows whatever the other one allows.
pub open spec fn covers(shape: Shape, part: Shape) -> bool {
    forall|at: Seq<Place>| (#[trigger] part(at)).within(shape(at))
}

/// Whether a value is one of those that a shape allows.
pub open spec fn admits(shape: Shape, value: ValueModel) -> bool {
    covers(shape, of_value::shape_of(value))
}

/// Whether a shape allows what was found: a value, or none.
pub open spec fn admits_found(shape: Shape, found: Option<ValueModel>) -> bool {
    match found {
        Some(value) => admits(shape, value),
        None => shape::top(shape).undefined,
    }
}

/// A shape allows a value if and only if, at each place, it allows the type that the value has there.
pub proof fn a_shape_allows_a_value_place_by_place(shape: Shape, value: ValueModel)
    ensures
        admits(shape, value) <==> forall|at: Seq<Place>, t: Type| #[trigger]
            of_value::shape_of(value)(at).has(t) ==> shape(at).has(t),
{
    let part = of_value::shape_of(value);
    if admits(shape, value) {
        assert forall|at: Seq<Place>, t: Type| #[trigger] part(at).has(t) implies shape(at).has(
            t,
        ) by {
            assert(part(at).within(shape(at)));
            lemma_within(part(at), shape(at));
        }
    }
    if forall|at: Seq<Place>, t: Type| #[trigger] part(at).has(t) ==> shape(at).has(t) {
        assert forall|at: Seq<Place>| (#[trigger] part(at)).within(shape(at)) by {
            lemma_within(part(at), shape(at));
        }
    }
}

/// A set is within another one if each of its types is in that.
pub(crate) proof fn lemma_within(a: Types, b: Types)
    ensures
        a.within(b) <==> forall|t: Type| #[trigger] a.has(t) ==> b.has(t),
{
    if forall|t: Type| #[trigger] a.has(t) ==> b.has(t) {
        assert forall|t: Type| a.or(b).has(t) == b.has(t) by {
            assert(a.has(t) ==> b.has(t));
        }
        a.or(b).same_types(b);
    }
}

/// The kind of a value holds of it.
pub proof fn kind_of_value_admits_it(value: ValueModel)
    ensures
        admits(of_value::shape_of(value), value),
{
}

/// A kind of which nothing is known holds of every value.
pub proof fn anything_admits_every_value(value: ValueModel)
    ensures
        admits(shape::anything(), value),
{
}

/// A union holds of the values of either kind.
pub proof fn union_admits_either(a: Shape, b: Shape, value: ValueModel)
    requires
        admits(a, value) || admits(b, value),
    ensures
        admits(shape::either(a, b), value),
{
    let part = of_value::shape_of(value);
    assert forall|at: Seq<Place>| (#[trigger] part(at)).within(shape::either(a, b)(at)) by {
        if admits(a, value) {
            assert(part(at).within(a(at)));
        } else {
            assert(part(at).within(b(at)));
        }
    }
}

/// What may be missing holds of the values that it held of.
pub(super) proof fn lemma_maybe_missing_admits(shape: Shape, value: ValueModel)
    requires
        admits(shape, value),
    ensures
        admits(shape::maybe_missing(shape), value),
{
    let part = of_value::shape_of(value);
    assert forall|at: Seq<Place>| (#[trigger] part(at)).within(
        shape::maybe_missing(shape)(at),
    ) by {
        assert(part(at).within(shape(at)));
    }
}

/// What is at a place in a value is allowed by what the shape says of the place.
pub(super) proof fn lemma_member_is_admitted(shape: Shape, value: ValueModel, place: Place)
    requires
        admits(shape, value),
        of_value::member_of(value, place) is Some,
    ensures
        shape::holder(place).within(shape::top(shape)),
        admits_found(shape::below(shape, place), of_value::member_of(value, place)->0),
{
    let part = of_value::shape_of(value);
    let member = shape::below(shape, place);
    assert(part(Seq::empty()).within(shape(Seq::empty())));
    match of_value::member_of(value, place)->0 {
        Some(found) => {
            let below = of_value::shape_of(found);
            assert forall|at: Seq<Place>| (#[trigger] below(at)).within(member(at)) by {
                let whole = seq![place] + at;
                assert(whole.drop_first() =~= at);
                assert(part(whole).within(shape(whole)));
            }
        },
        None => {
            let whole = seq![place] + Seq::<Place>::empty();
            assert(whole.drop_first() =~= Seq::<Place>::empty());
            assert(part(whole).within(shape(whole)));
        },
    }
}

/// An array that a shape of one length allows has that length.
pub(super) proof fn lemma_length_is_exact(shape: Shape, items: Seq<ValueModel>, len: nat)
    requires
        admits(shape, ValueModel::Array(items)),
        shape::has_length(shape::items(shape), len),
    ensures
        items.len() == len,
{
    let value = ValueModel::Array(items);
    if items.len() < len {
        let i = items.len();
        lemma_member_is_admitted(shape, value, Place::Item(i));
        assert(shape::item_fits_length(shape::items(shape), len, i));
    } else if len < items.len() {
        lemma_member_is_admitted(shape, value, Place::Item(len));
        assert(shape::item_fits_length(shape::items(shape), len, len));
        let part = of_value::shape_of(items[len as int]);
        let member = shape::below(shape, Place::Item(len));
        assert(part(Seq::empty()).within(member(Seq::empty())));
    }
}

/// The item at an unknown position may be any.
proof fn lemma_some_item_admits(shape: Shape, value: ValueModel, i: nat)
    requires
        admits(shape::items(shape)(i), value),
    ensures
        admits(shape::some_item(shape::items(shape)), value),
{
    let items = shape::items(shape);
    let part = of_value::shape_of(value);
    let some = shape::some_item(items);
    assert forall|at: Seq<Place>| (#[trigger] part(at)).within(some(at)) by {
        assert(part(at).within(items(i)(at)));
        lemma_within(part(at), items(i)(at));
        lemma_within(part(at), some(at));
        assert forall|t: Type| #[trigger] part(at).has(t) implies some(at).has(t) by {
            assert(items(i)(at).has(t));
            assert(shape::some_item_has(items, at, t));
        }
    }
}

/// What is found one step into a value is of the kind that is found there.
proof fn lemma_step_is_sound(shape: Shape, value: ValueModel, step: Step)
    requires
        admits(shape, value),
    ensures
        admits_found(shape::at_step(shape, step), value::child(value, step)),
{
    let part = of_value::shape_of(value);
    assert(part(Seq::empty()).within(shape(Seq::empty())));
    assert(shape::top(shape) != Types::none());
    match step {
        Step::Field(name) => {
            if value is Object {
                lemma_member_is_admitted(shape, value, Place::Field(name));
                if let Some(found) = value::child(value, step) {
                    lemma_maybe_missing_admits(shape::below(shape, Place::Field(name)), found);
                }
            }
        },
        Step::Index(index) => {
            if let ValueModel::Array(items) = value {
                let i = if index < 0 {
                    items.len() + index
                } else {
                    index
                };
                if index >= 0 {
                    lemma_member_is_admitted(shape, value, Place::Item(index as nat));
                    if let Some(found) = value::child(value, step) {
                        lemma_maybe_missing_admits(
                            shape::below(shape, Place::Item(index as nat)),
                            found,
                        );
                    }
                } else {
                    let member = shape::item_from_end(shape::items(shape), (-index) as nat);
                    if exists|len: nat| shape::has_length(shape::items(shape), len) {
                        let len = choose|len: nat| shape::has_length(shape::items(shape), len);
                        lemma_length_is_exact(shape, items, len);
                    }
                    if 0 <= i < items.len() {
                        lemma_member_is_admitted(shape, value, Place::Item(i as nat));
                        assert(admits(shape::items(shape)(i as nat), items[i]));
                        lemma_some_item_admits(shape, items[i], i as nat);
                        lemma_maybe_missing_admits(member, items[i]);
                    }
                }
            }
        },
    }
}

/// Nothing is found inside a missing value.
pub(crate) proof fn lemma_missing_stays_missing(shape: Shape, path: Seq<Step>)
    requires
        shape::top(shape).undefined,
    ensures
        shape::top(shape::at_path(shape, path)).undefined,
    decreases path.len(),
{
    if path.len() > 0 {
        assert(shape::top(shape::at_step(shape, path[0])).undefined);
        lemma_missing_stays_missing(shape::at_step(shape, path[0]), path.drop_first());
    }
}

/// What is found at a path in a value is of the kind that is found at the path in the value's kind.
/// Where nothing is found, the kind says that the value may be missing.
pub proof fn at_path_is_sound(shape: Shape, value: ValueModel, path: Seq<Step>)
    requires
        admits(shape, value),
    ensures
        admits_found(shape::at_path(shape, path), value::lookup(value, path)),
    decreases path.len(),
{
    if path.len() > 0 {
        lemma_step_is_sound(shape, value, path[0]);
        let next = shape::at_step(shape, path[0]);
        match value::child(value, path[0]) {
            Some(found) => {
                at_path_is_sound(next, found, path.drop_first());
            },
            None => {
                lemma_missing_stays_missing(next, path.drop_first());
            },
        }
    }
}

} // verus!
