//! The kind of what is left after a removal holds of what is left.
use crate::kind::of_value;
use crate::kind::shape;
use crate::kind::shape::{Place, Pruned, Shape};
use crate::kind::soundness;
use crate::kind::soundness::{admits, admits_found};
use crate::path::Step;
use crate::value;
use crate::value::ValueModel;
use vstd::prelude::*;

verus! {

/// The position of the item that a step leads to.
pub open spec fn position(items: Seq<ValueModel>, index: int) -> int {
    if index < 0 {
        items.len() + index
    } else {
        index
    }
}

/// A value without the member that a step leads to.
pub open spec fn without(value: ValueModel, step: Step) -> ValueModel {
    match (value, step) {
        (ValueModel::Object(fields), Step::Field(name)) => ValueModel::Object(fields.remove(name)),
        (ValueModel::Array(items), Step::Index(index)) => ValueModel::Array(
            items.remove(position(items, index)),
        ),
        _ => value,
    }
}

/// A value with another member where a step leads to.
pub open spec fn with_member(value: ValueModel, step: Step, member: ValueModel) -> ValueModel {
    match (value, step) {
        (ValueModel::Object(fields), Step::Field(name)) => ValueModel::Object(
            fields.insert(name, member),
        ),
        (ValueModel::Array(items), Step::Index(index)) => ValueModel::Array(
            items.update(position(items, index), member),
        ),
        _ => value,
    }
}

/// Whether a value is an array or an object without a member.
pub open spec fn is_empty(value: ValueModel) -> bool {
    match value {
        ValueModel::Object(fields) => fields == Map::<Seq<char>, ValueModel>::empty(),
        ValueModel::Array(items) => items.len() == 0,
        _ => false,
    }
}

/// What is left of a value when the value at `path` inside it was removed. If `compact` is set, an
/// array or an object that the removal left empty is removed in turn, but not the outermost one.
/// Where the path leads to nothing, nothing is removed. A value that is itself removed leaves null
/// behind, or an empty array or object if it was one.
pub open spec fn removed(value: ValueModel, path: Seq<Step>, compact: bool) -> ValueModel
    decreases path.len(),
{
    if path.len() == 0 {
        match value {
            ValueModel::Object(_) => ValueModel::Object(Map::empty()),
            ValueModel::Array(_) => ValueModel::Array(Seq::empty()),
            _ => ValueModel::Null,
        }
    } else {
        let rest = path.drop_first();
        match value::child(value, path[0]) {
            None => value,
            Some(member) => if rest.len() == 0 {
                without(value, path[0])
            } else {
                let left = removed(member, rest, compact);
                if compact && value::lookup(member, rest) is Some && is_empty(left) {
                    without(value, path[0])
                } else {
                    with_member(value, path[0], left)
                }
            },
        }
    }
}

/// Where a path finds nothing, nothing is removed.
pub proof fn nothing_is_removed_where_nothing_is_found(
    value: ValueModel,
    path: Seq<Step>,
    compact: bool,
)
    requires
        value::lookup(value, path) is None,
    ensures
        removed(value, path, compact) == value,
    decreases path.len(),
{
    if path.len() > 0 {
        if let Some(member) = value::child(value, path[0]) {
            nothing_is_removed_where_nothing_is_found(member, path.drop_first(), compact);
            match (value, path[0]) {
                (ValueModel::Object(fields), Step::Field(name)) => {
                    assert(fields.insert(name, fields[name]) =~= fields);
                },
                (ValueModel::Array(items), Step::Index(index)) => {
                    assert(items.update(position(items, index), member) =~= items);
                },
                _ => {},
            }
        }
    }
}

/// A field that is removed is gone, and the other ones stay. An item that is removed is gone, and
/// those behind it move up.
pub proof fn what_is_removed_is_gone(
    fields: Map<Seq<char>, ValueModel>,
    name: Seq<char>,
    items: Seq<ValueModel>,
    i: int,
    compact: bool,
)
    requires
        0 <= i < items.len(),
    ensures
        removed(ValueModel::Object(fields), seq![Step::Field(name)], compact)
            == ValueModel::Object(fields.remove(name)),
        removed(ValueModel::Array(items), seq![Step::Index(i)], compact) == ValueModel::Array(
            items.take(i) + items.skip(i + 1),
        ),
        removed(ValueModel::Array(items), seq![Step::Index(i - items.len())], compact)
            == ValueModel::Array(items.take(i) + items.skip(i + 1)),
{
    let field = seq![Step::Field(name)];
    let index = seq![Step::Index(i)];
    let back = seq![Step::Index(i - items.len())];
    assert(field.drop_first() =~= Seq::<Step>::empty());
    assert(index.drop_first() =~= Seq::<Step>::empty());
    assert(back.drop_first() =~= Seq::<Step>::empty());
    assert(items.remove(i) =~= items.take(i) + items.skip(i + 1));
    if !fields.contains_key(name) {
        assert(fields.remove(name) =~= fields);
    }
}

/// Where fields alone lead to a value, nothing is found there when it was removed.
pub proof fn what_was_removed_is_not_found(value: ValueModel, path: Seq<Step>, compact: bool)
    requires
        path.len() > 0,
        forall|i: int| 0 <= i < path.len() ==> #[trigger] path[i] is Field,
    ensures
        value::lookup(removed(value, path, compact), path) is None,
    decreases path.len(),
{
    let rest = path.drop_first();
    assert(path[0] is Field);
    if let (ValueModel::Object(fields), Step::Field(name)) = (value, path[0]) {
        if fields.contains_key(name) && rest.len() > 0 {
            assert forall|i: int| 0 <= i < rest.len() implies #[trigger] rest[i] is Field by {
                assert(path[i + 1] is Field);
            }
            what_was_removed_is_not_found(fields[name], rest, compact);
        }
    }
}

/// What lies on another way than the one that was removed stays as it was: where the paths part at a
/// field, and the other one finds something.
pub proof fn what_lies_elsewhere_stays(
    value: ValueModel,
    common: Seq<Step>,
    name: Seq<char>,
    rest: Seq<Step>,
    other: Seq<char>,
    more: Seq<Step>,
    compact: bool,
)
    requires
        name != other,
        forall|i: int| 0 <= i < common.len() ==> #[trigger] common[i] is Field,
        value::lookup(value, common + seq![Step::Field(other)] + more) is Some,
    ensures
        value::lookup(
            removed(value, common + seq![Step::Field(name)] + rest, compact),
            common + seq![Step::Field(other)] + more,
        ) == value::lookup(value, common + seq![Step::Field(other)] + more),
    decreases common.len(),
{
    let path = common + seq![Step::Field(name)] + rest;
    let kept = common + seq![Step::Field(other)] + more;
    let after = removed(value, path, compact);
    if common.len() == 0 {
        assert(path[0] == Step::Field(name));
        assert(kept[0] == Step::Field(other));
    } else {
        assert(common[0] is Field);
        assert(path[0] == common[0] && kept[0] == common[0]);
        let inner = common.drop_first();
        assert(path.drop_first() =~= inner + seq![Step::Field(name)] + rest);
        assert(kept.drop_first() =~= inner + seq![Step::Field(other)] + more);
        assert forall|i: int| 0 <= i < inner.len() implies #[trigger] inner[i] is Field by {
            assert(common[i + 1] is Field);
        }
        if let (ValueModel::Object(fields), Step::Field(step)) = (value, common[0]) {
            let member = fields[step];
            what_lies_elsewhere_stays(member, inner, name, rest, other, more, compact);
            let left = removed(member, path.drop_first(), compact);
            assert(value::lookup(left, kept.drop_first()) is Some);
            assert(kept.drop_first().len() > 0);
            if let ValueModel::Object(members) = left {
                if members == Map::<Seq<char>, ValueModel>::empty() {
                    assert(value::child(left, kept.drop_first()[0]) is None);
                }
            }
            assert(!is_empty(left));
        }
    }
}

/// A removal inside a field leaves what is left of the field in its place. With compaction, a field
/// of which an empty array or object is left goes, if there was something to remove.
pub proof fn a_removal_goes_into_a_field(
    fields: Map<Seq<char>, ValueModel>,
    name: Seq<char>,
    rest: Seq<Step>,
    compact: bool,
)
    requires
        fields.contains_key(name),
        rest.len() > 0,
    ensures
        ({
            let left = removed(fields[name], rest, compact);
            let goes = compact && value::lookup(fields[name], rest) is Some && match left {
                ValueModel::Object(members) => forall|key: Seq<char>| !#[trigger]
                    members.contains_key(key),
                ValueModel::Array(members) => members.len() == 0,
                _ => false,
            };
            removed(ValueModel::Object(fields), seq![Step::Field(name)] + rest, compact)
                == ValueModel::Object(
                if goes {
                    fields.remove(name)
                } else {
                    fields.insert(name, left)
                },
            )
        }),
{
    let path = seq![Step::Field(name)] + rest;
    assert(path[0] == Step::Field(name));
    assert(path.drop_first() =~= rest);
    let left = removed(fields[name], rest, compact);
    if let ValueModel::Object(members) = left {
        if forall|key: Seq<char>| !#[trigger] members.contains_key(key) {
            assert(members =~= Map::<Seq<char>, ValueModel>::empty());
        }
    }
}

/// A shape allows an object if it allows its fields.
pub(crate) proof fn lemma_object_is_admitted(shape: Shape, fields: Map<Seq<char>, ValueModel>)
    requires
        shape::top(shape).object,
        forall|name: Seq<char>| #[trigger]
            admits_found(
                shape::below(shape, Place::Field(name)),
                of_value::member_of(ValueModel::Object(fields), Place::Field(name))->0,
            ),
    ensures
        admits(shape, ValueModel::Object(fields)),
{
    let value = ValueModel::Object(fields);
    let part = of_value::shape_of(value);
    assert forall|at: Seq<Place>| (#[trigger] part(at)).within(shape(at)) by {
        if at.len() == 0 {
            assert(at =~= Seq::<Place>::empty());
        } else if let Place::Field(name) = at[0] {
            let member = shape::below(shape, Place::Field(name));
            assert(admits_found(member, of_value::member_of(value, Place::Field(name))->0));
            let rest = at.drop_first();
            assert(seq![at[0]] + rest =~= at);
            if fields.contains_key(name) {
                assert(of_value::shape_of(fields[name])(rest).within(member(rest)));
            } else if rest.len() == 0 {
                assert(rest =~= Seq::<Place>::empty());
            }
        }
    }
}

/// A shape allows an array if it allows its items.
pub(crate) proof fn lemma_array_is_admitted(shape: Shape, items: Seq<ValueModel>)
    requires
        shape::top(shape).array,
        forall|i: nat| #[trigger]
            admits_found(
                shape::below(shape, Place::Item(i)),
                of_value::member_of(ValueModel::Array(items), Place::Item(i))->0,
            ),
    ensures
        admits(shape, ValueModel::Array(items)),
{
    let value = ValueModel::Array(items);
    let part = of_value::shape_of(value);
    assert forall|at: Seq<Place>| (#[trigger] part(at)).within(shape(at)) by {
        if at.len() == 0 {
            assert(at =~= Seq::<Place>::empty());
        } else if let Place::Item(i) = at[0] {
            let member = shape::below(shape, Place::Item(i));
            assert(admits_found(member, of_value::member_of(value, Place::Item(i))->0));
            let rest = at.drop_first();
            assert(seq![at[0]] + rest =~= at);
            if i < items.len() {
                assert(of_value::shape_of(items[i as int])(rest).within(member(rest)));
            } else if rest.len() == 0 {
                assert(rest =~= Seq::<Place>::empty());
            }
        }
    }
}

/// What is below a place of a shape with another field.
proof fn lemma_below_with_field(shape: Shape, name: Seq<char>, field: Shape, place: Place)
    ensures
        shape::below(shape::with_field(shape, name, field), place) == (if place == Place::Field(
            name,
        ) {
            field
        } else {
            shape::below(shape, place)
        }),
{
    let left = shape::below(shape::with_field(shape, name, field), place);
    let right = if place == Place::Field(name) {
        field
    } else {
        shape::below(shape, place)
    };
    assert forall|at: Seq<Place>| #[trigger] left(at) == right(at) by {
        assert((seq![place] + at).drop_first() =~= at);
    }
    assert(left =~= right);
}

/// What is below a place of a shape with other items.
proof fn lemma_below_with_items(shape: Shape, items: spec_fn(nat) -> Shape, i: nat)
    ensures
        shape::below(shape::with_items(shape, items), Place::Item(i)) == items(i),
{
    let left = shape::below(shape::with_items(shape, items), Place::Item(i));
    assert forall|at: Seq<Place>| #[trigger] left(at) == items(i)(at) by {
        assert((seq![Place::Item(i)] + at).drop_first() =~= at);
    }
    assert(left =~= items(i));
}

/// A shape that allows a missing value still does when something inside the value was removed.
proof fn lemma_removal_keeps_top(shape: Shape, path: Seq<Step>, compact: bool)
    requires
        path.len() > 0,
    ensures
        shape::top(shape::remove(shape, path, compact)) == shape::top(shape),
{
}

/// A value that is not an object has the shape that it had, whatever its fields would be.
proof fn lemma_other_field(shape: Shape, value: ValueModel, name: Seq<char>, field: Shape)
    requires
        admits(shape, value),
        !(value is Object),
    ensures
        admits(shape::with_field(shape, name, field), value),
{
    let part = of_value::shape_of(value);
    assert forall|at: Seq<Place>| (#[trigger] part(at)).within(
        shape::with_field(shape, name, field)(at),
    ) by {
        assert(part(at).within(shape(at)));
    }
}

/// A value that is not an array has the shape that it had, whatever its items would be.
proof fn lemma_other_items(shape: Shape, value: ValueModel, items: spec_fn(nat) -> Shape)
    requires
        admits(shape, value),
        !(value is Array),
    ensures
        admits(shape::with_items(shape, items), value),
{
    let part = of_value::shape_of(value);
    assert forall|at: Seq<Place>| (#[trigger] part(at)).within(
        shape::with_items(shape, items)(at),
    ) by {
        assert(part(at).within(shape(at)));
    }
}

/// An empty array or object may be empty.
proof fn lemma_empty_may_be_empty(shape: Shape, value: ValueModel)
    requires
        admits(shape, value),
        is_empty(value),
    ensures
        shape::may_be_empty(shape),
{
    let part = of_value::shape_of(value);
    assert(part(Seq::empty()).within(shape(Seq::empty())));
    if value is Object {
        assert forall|name: Seq<char>|
            (#[trigger] shape::top(shape::below(shape, Place::Field(name)))).undefined by {
            soundness::lemma_member_is_admitted(shape, value, Place::Field(name));
        }
    } else {
        assert forall|i: nat|
            (#[trigger] shape::top(shape::below(shape, Place::Item(i)))).undefined by {
            soundness::lemma_member_is_admitted(shape, value, Place::Item(i));
        }
    }
}

/// What is always empty is an empty array or object.
proof fn lemma_always_empty_is_empty(shape: Shape, value: ValueModel)
    requires
        admits(shape, value),
        shape::is_always_empty(shape),
    ensures
        is_empty(value),
{
    let part = of_value::shape_of(value);
    assert(part(Seq::empty()).within(shape(Seq::empty())));
    match value {
        ValueModel::Object(fields) => {
            assert forall|name: Seq<char>| !fields.contains_key(name) by {
                if fields.contains_key(name) {
                    soundness::lemma_member_is_admitted(shape, value, Place::Field(name));
                    let member = shape::below(shape, Place::Field(name));
                    assert(of_value::shape_of(fields[name])(Seq::empty()).within(
                        member(Seq::empty()),
                    ));
                    assert(shape::top(member).any_defined());
                }
            }
            assert(fields =~= Map::<Seq<char>, ValueModel>::empty());
        },
        ValueModel::Array(items) => {
            if items.len() > 0 {
                soundness::lemma_member_is_admitted(shape, value, Place::Item(0));
                let member = shape::below(shape, Place::Item(0));
                assert(of_value::shape_of(items[0])(Seq::empty()).within(member(Seq::empty())));
                assert(shape::top(member).any_defined());
            }
        },
        _ => {},
    }
}

/// What becomes of a member when something inside it was removed: what is left, or nothing.
pub open spec fn left_of(member: ValueModel, path: Seq<Step>, compact: bool) -> Option<
    ValueModel,
> {
    let left = removed(member, path, compact);
    if compact && value::lookup(member, path) is Some && is_empty(left) {
        None
    } else {
        Some(left)
    }
}

/// A member goes only where the shape says that it may, and stays only where the shape does not say
/// that it always goes.
proof fn lemma_pruning_is_sound(
    shape: Shape,
    member: ValueModel,
    path: Seq<Step>,
    compact: bool,
)
    requires
        admits(shape, member),
        admits(shape::remove(shape, path, compact), removed(member, path, compact)),
    ensures
        match shape::pruned(shape, path, compact) {
            Pruned::Never => left_of(member, path, compact) is Some,
            Pruned::Maybe => true,
            Pruned::Always => left_of(member, path, compact) is None,
        },
{
    let left = removed(member, path, compact);
    let kept = shape::remove(shape, path, compact);
    soundness::at_path_is_sound(shape, member, path);
    if let Some(found) = value::lookup(member, path) {
        let at = shape::at_path(shape, path);
        assert(of_value::shape_of(found)(Seq::empty()).within(at(Seq::empty())));
        assert(shape::top(at).any_defined());
    }
    if is_empty(left) {
        lemma_empty_may_be_empty(kept, left);
    }
    if shape::is_always_empty(kept) {
        lemma_always_empty_is_empty(kept, left);
    }
}

/// Of two shapes, either allows what one of them does.
proof fn lemma_either_admits(a: Shape, b: Shape, found: Option<ValueModel>)
    requires
        admits_found(a, found) || admits_found(b, found),
    ensures
        admits_found(shape::either(a, b), found),
{
    if let Some(value) = found {
        soundness::union_admits_either(a, b, value);
    }
}

/// What is left of an array, item by item.
pub open spec fn item_of(items: Seq<ValueModel>, i: nat) -> Option<ValueModel> {
    if i < items.len() {
        Some(items[i as int])
    } else {
        None
    }
}

/// The items of an array when something inside the one at position `i` was removed.
pub open spec fn items_left(
    items: Seq<ValueModel>,
    i: int,
    path: Seq<Step>,
    compact: bool,
) -> Seq<ValueModel> {
    if !(0 <= i < items.len()) {
        items
    } else if path.len() == 0 {
        items.remove(i)
    } else {
        match left_of(items[i], path, compact) {
            Some(left) => items.update(i, left),
            None => items.remove(i),
        }
    }
}

/// Each item of an array is allowed where a shape allows the array.
proof fn lemma_items_are_admitted(shape: Shape, items: Seq<ValueModel>)
    requires
        admits(shape, ValueModel::Array(items)),
    ensures
        shape::top(shape).array,
        forall|i: nat| #[trigger] admits_found(shape::items(shape)(i), item_of(items, i)),
{
    let value = ValueModel::Array(items);
    soundness::lemma_member_is_admitted(shape, value, Place::Item(0));
    assert forall|i: nat| #[trigger]
        admits_found(shape::items(shape)(i), item_of(items, i)) by {
        soundness::lemma_member_is_admitted(shape, value, Place::Item(i));
    }
}

/// If the items of a shape allow those of an array, the shape allows the array.
proof fn lemma_with_items_admits(
    shape: Shape,
    items: spec_fn(nat) -> Shape,
    values: Seq<ValueModel>,
)
    requires
        shape::top(shape).array,
        forall|i: nat| #[trigger] admits_found(items(i), item_of(values, i)),
    ensures
        admits(shape::with_items(shape, items), ValueModel::Array(values)),
{
    let after = shape::with_items(shape, items);
    assert forall|i: nat| #[trigger]
        admits_found(
            shape::below(after, Place::Item(i)),
            of_value::member_of(ValueModel::Array(values), Place::Item(i))->0,
        ) by {
        lemma_below_with_items(shape, items, i);
        assert(admits_found(items(i), item_of(values, i)));
    }
    lemma_array_is_admitted(after, values);
}

/// The removal at a known position is sound.
proof fn lemma_remove_at_is_sound(
    items: spec_fn(nat) -> Shape,
    values: Seq<ValueModel>,
    i: nat,
    path: Seq<Step>,
    compact: bool,
    j: nat,
)
    requires
        forall|k: nat| #[trigger] admits_found(items(k), item_of(values, k)),
        i < values.len() && path.len() > 0 ==> admits(
            shape::remove(items(i), path, compact),
            removed(values[i as int], path, compact),
        ),
    ensures
        admits_found(
            shape::remove_at(items, i, path, compact)(j),
            item_of(items_left(values, i as int, path, compact), j),
        ),
{
    let after = items_left(values, i as int, path, compact);
    assert(admits_found(items(j), item_of(values, j)));
    assert(admits_found(items(j + 1), item_of(values, j + 1)));
    assert(admits_found(items(i), item_of(values, i)));
    let shifted = shape::shifted(items, i);
    if path.len() > 0 {
        lemma_removal_keeps_top(items(i), path, compact);
        let kept = shape::with_item(items, i, shape::remove(items(i), path, compact));
        if i < values.len() {
            lemma_pruning_is_sound(items(i), values[i as int], path, compact);
        }
        if shape::pruned(items(i), path, compact) is Maybe {
            lemma_either_admits(kept(j), shifted(j), item_of(after, j));
        }
    }
}

/// The removal at an unknown position is sound.
proof fn lemma_remove_somewhere_is_sound(
    items: spec_fn(nat) -> Shape,
    values: Seq<ValueModel>,
    i: int,
    path: Seq<Step>,
    compact: bool,
    j: nat,
)
    requires
        forall|k: nat| #[trigger] admits_found(items(k), item_of(values, k)),
        0 <= i < values.len() && path.len() > 0 ==> admits(
            shape::remove(items(i as nat), path, compact),
            removed(values[i], path, compact),
        ),
    ensures
        admits_found(
            shape::remove_somewhere(items, path, compact)(j),
            item_of(items_left(values, i, path, compact), j),
        ),
{
    let after = item_of(items_left(values, i, path, compact), j);
    assert(admits_found(items(j), item_of(values, j)));
    assert(admits_found(items(j + 1), item_of(values, j + 1)));
    let shifted = shape::shifted(items, 0);
    if path.len() == 0 {
        lemma_either_admits(items(j), shifted(j), after);
    } else {
        let removed = |j: nat| shape::remove(items(j), path, compact);
        let kept = shape::either_items(items, removed);
        if admits_found(items(j), after) || admits_found(removed(j), after) {
            lemma_either_admits(items(j), removed(j), after);
        }
        if compact {
            lemma_either_admits(kept(j), shifted(j), after);
        }
    }
}

/// The kind of what is left of a value after a removal holds of what is left.
pub proof fn remove_is_sound(shape: Shape, value: ValueModel, path: Seq<Step>, compact: bool)
    requires
        admits(shape, value),
    ensures
        admits(shape::remove(shape, path, compact), removed(value, path, compact)),
    decreases path.len(), 1nat,
{
    let part = of_value::shape_of(value);
    let after = shape::remove(shape, path, compact);
    assert(part(Seq::empty()).within(shape(Seq::empty())));
    if path.len() == 0 {
        let left = removed(value, path, compact);
        let left_part = of_value::shape_of(left);
        assert forall|at: Seq<Place>| (#[trigger] left_part(at)).within(after(at)) by {
            if at.len() == 0 {
                assert(at =~= Seq::<Place>::empty());
            }
        }
    } else {
        let rest = path.drop_first();
        match path[0] {
            Step::Field(name) => {
                remove_field_is_sound(shape, value, name, rest, compact, path);
            },
            Step::Index(index) => {
                remove_item_is_sound(shape, value, index, rest, compact, path);
            },
        }
    }
}

/// The removal of a field, or of something inside it, is sound.
proof fn remove_field_is_sound(
    shape: Shape,
    value: ValueModel,
    name: Seq<char>,
    rest: Seq<Step>,
    compact: bool,
    path: Seq<Step>,
)
    requires
        admits(shape, value),
        path.len() > 0,
        path[0] == Step::Field(name),
        rest == path.drop_first(),
    ensures
        admits(shape::remove(shape, path, compact), removed(value, path, compact)),
    decreases path.len(), 0nat,
{
    let part = of_value::shape_of(value);
    let after = shape::remove(shape, path, compact);
    assert(part(Seq::empty()).within(shape(Seq::empty())));
    let field = shape::below(shape, Place::Field(name));
    let kept = shape::remove(field, rest, compact);
    let new_field = if rest.len() == 0 {
        shape::missing()
    } else {
        match shape::pruned(field, rest, compact) {
            Pruned::Never => kept,
            Pruned::Maybe => shape::maybe_missing(kept),
            Pruned::Always => shape::missing(),
        }
    };
    if shape::top(shape).object {
        assert(after == shape::with_field(shape, name, new_field));
        match value {
            ValueModel::Object(fields) => {
                soundness::lemma_member_is_admitted(shape, value, Place::Field(name));
                if rest.len() > 0 {
                    lemma_removal_keeps_top(field, rest, compact);
                    if fields.contains_key(name) {
                        remove_is_sound(field, fields[name], rest, compact);
                        lemma_pruning_is_sound(field, fields[name], rest, compact);
                        soundness::lemma_maybe_missing_admits(
                            kept,
                            removed(fields[name], rest, compact),
                        );
                    }
                }
                let left = removed(value, path, compact);
                assert forall|other: Seq<char>| #[trigger]
                    admits_found(
                        shape::below(after, Place::Field(other)),
                        of_value::member_of(left, Place::Field(other))->0,
                    ) by {
                    lemma_below_with_field(shape, name, new_field, Place::Field(other));
                    soundness::lemma_member_is_admitted(shape, value, Place::Field(other));
                }
                lemma_object_is_admitted(after, left->Object_0);
            },
            _ => {
                lemma_other_field(shape, value, name, new_field);
            },
        }
    }
}

/// The removal of an item, or of something inside it, is sound.
proof fn remove_item_is_sound(
    shape: Shape,
    value: ValueModel,
    index: int,
    rest: Seq<Step>,
    compact: bool,
    path: Seq<Step>,
)
    requires
        admits(shape, value),
        path.len() > 0,
        path[0] == Step::Index(index),
        rest == path.drop_first(),
    ensures
        admits(shape::remove(shape, path, compact), removed(value, path, compact)),
    decreases path.len(), 0nat,
{
    let part = of_value::shape_of(value);
    assert(part(Seq::empty()).within(shape(Seq::empty())));
    let items = shape::items(shape);
    let has_length = exists|len: nat| shape::has_length(items, len);
    let len = choose|len: nat| shape::has_length(items, len);
    match value {
        ValueModel::Array(values) => {
            lemma_items_are_admitted(shape, values);
            let i = position(values, index);
            let left = items_left(values, i, rest, compact);
            assert(removed(value, path, compact) == ValueModel::Array(left));
            if 0 <= i < values.len() && rest.len() > 0 {
                assert(admits_found(items(i as nat), item_of(values, i as nat)));
                remove_is_sound(items(i as nat), values[i], rest, compact);
            }
            if index < 0 && has_length {
                soundness::lemma_length_is_exact(shape, values, len);
            }
            if index >= 0 || (has_length && -index <= len) {
                let new_items = shape::remove_at(items, i as nat, rest, compact);
                assert forall|j: nat| #[trigger] admits_found(new_items(j), item_of(left, j)) by {
                    lemma_remove_at_is_sound(items, values, i as nat, rest, compact, j);
                }
                lemma_with_items_admits(shape, new_items, left);
            } else if !has_length {
                let new_items = shape::remove_somewhere(items, rest, compact);
                assert forall|j: nat| #[trigger] admits_found(new_items(j), item_of(left, j)) by {
                    lemma_remove_somewhere_is_sound(items, values, i, rest, compact, j);
                }
                lemma_with_items_admits(shape, new_items, left);
            }
        },
        _ => {
            if shape::top(shape).array {
                lemma_other_items(
                    shape,
                    value,
                    shape::remove_at(items, index as nat, rest, compact),
                );
                lemma_other_items(
                    shape,
                    value,
                    shape::remove_at(items, (len + index) as nat, rest, compact),
                );
                lemma_other_items(shape, value, shape::remove_somewhere(items, rest, compact));
            }
        },
    }
}

} // verus!
