//! The kind of what is left after a removal says no more than what holds.
use crate::kind::exactness;
use crate::kind::of_value;
use crate::kind::shape;
use crate::kind::shape::{Place, Pruned, Shape};
use crate::kind::soundness;
use crate::kind::types::{Type, Types};
use crate::path::Step;
use crate::value::ValueModel;
use vstd::prelude::*;

verus! {

/// A value that is itself removed leaves null behind, or an empty array or object if it was one.
pub proof fn a_removal_of_the_whole_leaves_it_empty(shape: Shape, compact: bool, at: Seq<Place>)
    ensures
        ({
            let left = shape::remove(shape, Seq::empty(), compact);
            let top = shape(Seq::empty());
            &&& left(Seq::empty()) == (Types {
                null: top.bytes || top.integer || top.float || top.boolean || top.timestamp
                    || top.regex || top.null,
                undefined: top.undefined,
                array: top.array,
                object: top.object,
                ..Types::none()
            })
            &&& at.len() > 0 ==> left(at) == (Types {
                undefined: at.len() == 1 && match at[0] {
                    Place::Field(_) => top.object,
                    Place::Item(_) => top.array,
                },
                ..Types::none()
            })
        }),
{
    if at.len() > 0 {
        let top = shape::top(shape);
        assert(Types { object: true, ..Types::none() }.or(top) == top <==> top.object);
        assert(Types { array: true, ..Types::none() }.or(top) == top <==> top.array);
    }
}

/// A removal inside a value leaves its type as it is.
pub proof fn a_removal_inside_leaves_the_type(shape: Shape, path: Seq<Step>, compact: bool)
    requires
        path.len() > 0,
    ensures
        shape::remove(shape, path, compact)(Seq::empty()) == shape(Seq::empty()),
{
}

/// A removed field is missing. Everything else stays as it was. A value that is no object has no
/// field to remove.
pub proof fn a_removed_field_is_missing(
    shape: Shape,
    name: Seq<char>,
    compact: bool,
    at: Seq<Place>,
)
    ensures
        ({
            let left = shape::remove(shape, seq![Step::Field(name)], compact);
            &&& !shape(Seq::empty()).object ==> left == shape
            &&& shape(Seq::empty()).object ==> left(seq![Place::Field(name)] + at) == (Types {
                undefined: at.len() == 0,
                ..Types::none()
            })
            &&& at.len() == 0 || at[0] != Place::Field(name) ==> left(at) == shape(at)
        }),
{
    let path = seq![Step::Field(name)];
    assert(path.drop_first() =~= Seq::<Step>::empty());
    assert((seq![Place::Field(name)] + at).drop_first() =~= at);
}

/// A removed item is taken by the one behind it, and so on. Everything else stays as it was. A value
/// that is no array has no item to remove.
pub proof fn items_behind_a_removed_one_move_up(
    shape: Shape,
    i: nat,
    compact: bool,
    j: nat,
    at: Seq<Place>,
)
    ensures
        ({
            let left = shape::remove(shape, seq![Step::Index(i as int)], compact);
            &&& !shape(Seq::empty()).array ==> left == shape
            &&& shape(Seq::empty()).array && j < i ==> left(seq![Place::Item(j)] + at) == shape(
                seq![Place::Item(j)] + at,
            )
            &&& shape(Seq::empty()).array && j >= i ==> left(seq![Place::Item(j)] + at) == shape(
                seq![Place::Item(j + 1)] + at,
            )
            &&& at.len() == 0 || at[0] is Field ==> left(at) == shape(at)
        }),
{
    let path = seq![Step::Index(i as int)];
    let items = shape::items(shape);
    assert(path.drop_first() =~= Seq::<Step>::empty());
    assert(shape::remove_at(items, i, path.drop_first(), compact) == shape::shifted(items, i)) by {
        reveal_with_fuel(shape::remove_at, 2);
    }
    assert(shape::top(shape).array ==> shape::remove(shape, path, compact) == shape::with_items(
        shape,
        shape::shifted(items, i),
    )) by {
        reveal_with_fuel(shape::remove, 2);
    }
    assert((seq![Place::Item(j)] + at).drop_first() =~= at);
}

/// The places one step below.
proof fn lemma_places(shape: Shape)
    ensures
        forall|place: Place|
            #![trigger shape::below(shape, place)]
            shape::top(shape::below(shape, place)) == shape(seq![place]),
{
    assert forall|place: Place|
        #![trigger shape::below(shape, place)]
        shape::top(shape::below(shape, place)) == shape(seq![place]) by {
        assert(seq![place] + Seq::<Place>::empty() =~= seq![place]);
    }
}

/// Whether what is left of a member may be an empty array or object.
proof fn lemma_may_be_empty(left: Shape)
    ensures
        shape::may_be_empty(left) <==> {
            ||| left(Seq::empty()).object && forall|name: Seq<char>|
                (#[trigger] left(seq![Place::Field(name)])).undefined
            ||| left(Seq::empty()).array && forall|i: nat|
                (#[trigger] left(seq![Place::Item(i)])).undefined
        },
{
    lemma_places(left);
    assert forall|name: Seq<char>| #[trigger]
        shape::top(shape::below(left, Place::Field(name))) == left(seq![Place::Field(name)]) by {}
    assert forall|i: nat| #[trigger] shape::top(shape::below(left, Place::Item(i))) == left(
        seq![Place::Item(i)],
    ) by {}
    if forall|name: Seq<char>| (#[trigger] left(seq![Place::Field(name)])).undefined {
        assert forall|name: Seq<char>|
            (#[trigger] shape::top(shape::below(left, Place::Field(name)))).undefined by {
            assert(left(seq![Place::Field(name)]).undefined);
        }
    }
    if forall|i: nat| (#[trigger] left(seq![Place::Item(i)])).undefined {
        assert forall|i: nat|
            (#[trigger] shape::top(shape::below(left, Place::Item(i)))).undefined by {
            assert(left(seq![Place::Item(i)]).undefined);
        }
    }
    if forall|name: Seq<char>|
        (#[trigger] shape::top(shape::below(left, Place::Field(name)))).undefined {
        assert forall|name: Seq<char>| (#[trigger] left(seq![Place::Field(name)])).undefined by {
            assert(shape::top(shape::below(left, Place::Field(name))).undefined);
        }
    }
    if forall|i: nat| (#[trigger] shape::top(shape::below(left, Place::Item(i)))).undefined {
        assert forall|i: nat| (#[trigger] left(seq![Place::Item(i)])).undefined by {
            assert(shape::top(shape::below(left, Place::Item(i))).undefined);
        }
    }
}

/// Whether what is left of a member is an empty array or object, each time.
proof fn lemma_is_always_empty(left: Shape)
    ensures
        shape::is_always_empty(left) <==> {
            &&& forall|t: Type| #[trigger] left(Seq::empty()).has(t) ==> t is Array || t is Object
            &&& left(Seq::empty()).object ==> forall|name: Seq<char>, t: Type|
                t != Type::Undefined ==> !#[trigger] left(seq![Place::Field(name)]).has(t)
            &&& left(Seq::empty()).array ==> forall|i: nat, t: Type|
                t != Type::Undefined ==> !#[trigger] left(seq![Place::Item(i)]).has(t)
        },
{
    lemma_places(left);
    let top = shape::top(left);
    let collections = Types { array: true, object: true, ..Types::none() };
    soundness::lemma_within(top, collections);
    if forall|t: Type| #[trigger] left(Seq::empty()).has(t) ==> t is Array || t is Object {
        assert forall|t: Type| #[trigger] top.has(t) implies collections.has(t) by {}
    }
    if top.within(collections) {
        assert forall|t: Type| #[trigger] left(Seq::empty()).has(t) implies t is Array
            || t is Object by {
            assert(collections.has(t));
        }
    }
    assert forall|name: Seq<char>| #[trigger]
        shape::top(shape::below(left, Place::Field(name))) == left(seq![Place::Field(name)]) by {}
    assert forall|i: nat| #[trigger] shape::top(shape::below(left, Place::Item(i))) == left(
        seq![Place::Item(i)],
    ) by {}
    if forall|name: Seq<char>|
        !(#[trigger] shape::top(shape::below(left, Place::Field(name)))).any_defined() {
        assert forall|name: Seq<char>, t: Type| t != Type::Undefined implies !#[trigger] left(
            seq![Place::Field(name)],
        ).has(t) by {
            assert(!shape::top(shape::below(left, Place::Field(name))).any_defined());
            exactness::lemma_defined(left(seq![Place::Field(name)]));
        }
    }
    if forall|i: nat| !(#[trigger] shape::top(shape::below(left, Place::Item(i)))).any_defined() {
        assert forall|i: nat, t: Type| t != Type::Undefined implies !#[trigger] left(
            seq![Place::Item(i)],
        ).has(t) by {
            assert(!shape::top(shape::below(left, Place::Item(i))).any_defined());
            exactness::lemma_defined(left(seq![Place::Item(i)]));
        }
    }
    if forall|name: Seq<char>, t: Type|
        t != Type::Undefined ==> !#[trigger] left(seq![Place::Field(name)]).has(t) {
        assert forall|name: Seq<char>|
            !(#[trigger] shape::top(shape::below(left, Place::Field(name)))).any_defined() by {
            exactness::lemma_defined(left(seq![Place::Field(name)]));
        }
    }
    if forall|i: nat, t: Type|
        t != Type::Undefined ==> !#[trigger] left(seq![Place::Item(i)]).has(t) {
        assert forall|i: nat|
            !(#[trigger] shape::top(shape::below(left, Place::Item(i)))).any_defined() by {
            exactness::lemma_defined(left(seq![Place::Item(i)]));
        }
    }
}

/// Whether a member goes, in terms of what is left of it and of what the path finds in it.
proof fn lemma_pruned(member: Shape, rest: Seq<Step>, compact: bool)
    ensures
        ({
            let kept = shape::remove(member, rest, compact);
            let found = shape::at_path(member, rest)(Seq::empty());
            let may_go = compact && (exists|t: Type| t != Type::Undefined && #[trigger] found.has(t)) && {
                ||| kept(Seq::empty()).object && forall|other: Seq<char>|
                    (#[trigger] kept(seq![Place::Field(other)])).undefined
                ||| kept(Seq::empty()).array && forall|j: nat|
                    (#[trigger] kept(seq![Place::Item(j)])).undefined
            };
            let goes = may_go && !found.undefined && {
                &&& forall|t: Type| #[trigger]
                    kept(Seq::empty()).has(t) ==> t is Array || t is Object
                &&& kept(Seq::empty()).object ==> forall|other: Seq<char>, t: Type|
                    t != Type::Undefined ==> !#[trigger] kept(seq![Place::Field(other)]).has(t)
                &&& kept(Seq::empty()).array ==> forall|j: nat, t: Type|
                    t != Type::Undefined ==> !#[trigger] kept(seq![Place::Item(j)]).has(t)
            };
            shape::pruned(member, rest, compact) == if !may_go {
                Pruned::Never
            } else if goes {
                Pruned::Always
            } else {
                Pruned::Maybe
            }
        }),
{
    let kept = shape::remove(member, rest, compact);
    let found = shape::top(shape::at_path(member, rest));
    lemma_may_be_empty(kept);
    lemma_is_always_empty(kept);
    exactness::lemma_defined(found);
}

/// A removal inside a field changes that field alone. The field becomes what is left of it. With
/// compaction it may be missing where something is found to remove and what is left may be an empty
/// array or object, and it is missing where that is so each time. In any other case it is missing
/// only where it was missing before.
pub proof fn a_removal_inside_a_field(
    shape: Shape,
    name: Seq<char>,
    rest: Seq<Step>,
    compact: bool,
    at: Seq<Place>,
)
    requires
        rest.len() > 0,
    ensures
        ({
            let left = shape::remove(shape, seq![Step::Field(name)] + rest, compact);
            let field: Shape = |at: Seq<Place>| shape(seq![Place::Field(name)] + at);
            let kept = shape::remove(field, rest, compact);
            let found = shape::at_path(field, rest)(Seq::empty());
            let may_go = compact && (exists|t: Type| t != Type::Undefined && #[trigger] found.has(t)) && {
                ||| kept(Seq::empty()).object && forall|other: Seq<char>|
                    (#[trigger] kept(seq![Place::Field(other)])).undefined
                ||| kept(Seq::empty()).array && forall|j: nat|
                    (#[trigger] kept(seq![Place::Item(j)])).undefined
            };
            let goes = may_go && !found.undefined && {
                &&& forall|t: Type| #[trigger]
                    kept(Seq::empty()).has(t) ==> t is Array || t is Object
                &&& kept(Seq::empty()).object ==> forall|other: Seq<char>, t: Type|
                    t != Type::Undefined ==> !#[trigger] kept(seq![Place::Field(other)]).has(t)
                &&& kept(Seq::empty()).array ==> forall|j: nat, t: Type|
                    t != Type::Undefined ==> !#[trigger] kept(seq![Place::Item(j)]).has(t)
            };
            &&& !shape(Seq::empty()).object ==> left == shape
            &&& at.len() == 0 || at[0] != Place::Field(name) ==> left(at) == shape(at)
            &&& shape(Seq::empty()).object && !may_go ==> left(seq![Place::Field(name)] + at)
                == kept(at)
            &&& shape(Seq::empty()).object && goes ==> left(seq![Place::Field(name)] + at)
                == (Types { undefined: at.len() == 0, ..Types::none() })
            &&& shape(Seq::empty()).object && may_go && !goes ==> {
                &&& at.len() > 0 ==> left(seq![Place::Field(name)] + at) == kept(at)
                &&& left(seq![Place::Field(name)]) == (Types {
                    undefined: true,
                    ..kept(Seq::empty())
                })
            }
        }),
{
    let path = seq![Step::Field(name)] + rest;
    let field: Shape = |at: Seq<Place>| shape(seq![Place::Field(name)] + at);
    assert(path[0] == Step::Field(name));
    assert(path.drop_first() =~= rest);
    assert(field =~= shape::below(shape, Place::Field(name)));
    lemma_pruned(field, rest, compact);
    assert((seq![Place::Field(name)] + at).drop_first() =~= at);
    assert(seq![Place::Field(name)].drop_first() =~= Seq::<Place>::empty());
    let kept = shape::remove(field, rest, compact);
    let expected = match shape::pruned(field, rest, compact) {
        Pruned::Never => kept,
        Pruned::Maybe => shape::maybe_missing(kept),
        Pruned::Always => shape::missing(),
    };
    assert(shape::top(shape).object ==> shape::remove(shape, path, compact) == shape::with_field(
        shape,
        name,
        expected,
    )) by {
        reveal_with_fuel(shape::remove, 2);
    }
}

/// A removal inside an item changes that item alone, unless the item goes with compaction: then those
/// behind it move up. It goes under the same conditions as a field does. Where it may go and may
/// stay, either may be so.
pub proof fn a_removal_inside_an_item(
    shape: Shape,
    i: nat,
    rest: Seq<Step>,
    compact: bool,
    j: nat,
    at: Seq<Place>,
    t: Type,
)
    requires
        rest.len() > 0,
    ensures
        ({
            let left = shape::remove(shape, seq![Step::Index(i as int)] + rest, compact);
            let item: Shape = |at: Seq<Place>| shape(seq![Place::Item(i)] + at);
            let kept = shape::remove(item, rest, compact);
            let found = shape::at_path(item, rest)(Seq::empty());
            let may_go = compact && (exists|t: Type| t != Type::Undefined && #[trigger] found.has(t)) && {
                ||| kept(Seq::empty()).object && forall|other: Seq<char>|
                    (#[trigger] kept(seq![Place::Field(other)])).undefined
                ||| kept(Seq::empty()).array && forall|j: nat|
                    (#[trigger] kept(seq![Place::Item(j)])).undefined
            };
            let goes = may_go && !found.undefined && {
                &&& forall|t: Type| #[trigger]
                    kept(Seq::empty()).has(t) ==> t is Array || t is Object
                &&& kept(Seq::empty()).object ==> forall|other: Seq<char>, t: Type|
                    t != Type::Undefined ==> !#[trigger] kept(seq![Place::Field(other)]).has(t)
                &&& kept(Seq::empty()).array ==> forall|j: nat, t: Type|
                    t != Type::Undefined ==> !#[trigger] kept(seq![Place::Item(j)]).has(t)
            };
            let stays_so = if j == i {
                kept(at)
            } else {
                shape(seq![Place::Item(j)] + at)
            };
            let moves_up = if j < i {
                shape(seq![Place::Item(j)] + at)
            } else {
                shape(seq![Place::Item(j + 1)] + at)
            };
            &&& !shape(Seq::empty()).array ==> left == shape
            &&& at.len() == 0 || at[0] is Field ==> left(at) == shape(at)
            &&& shape(Seq::empty()).array && !may_go ==> left(seq![Place::Item(j)] + at)
                == stays_so
            &&& shape(Seq::empty()).array && goes ==> left(seq![Place::Item(j)] + at) == moves_up
            &&& shape(Seq::empty()).array && may_go && !goes ==> (left(
                seq![Place::Item(j)] + at,
            ).has(t) <==> stays_so.has(t) || moves_up.has(t))
        }),
{
    let path = seq![Step::Index(i as int)] + rest;
    let item: Shape = |at: Seq<Place>| shape(seq![Place::Item(i)] + at);
    let items = shape::items(shape);
    assert(path[0] == Step::Index(i as int));
    assert(path.drop_first() =~= rest);
    assert(item =~= items(i));
    lemma_pruned(item, rest, compact);
    assert((seq![Place::Item(j)] + at).drop_first() =~= at);
    let kept = shape::with_item(items, i, shape::remove(item, rest, compact));
    let expected = match shape::pruned(item, rest, compact) {
        Pruned::Never => kept,
        Pruned::Maybe => shape::either_items(kept, shape::shifted(items, i)),
        Pruned::Always => shape::shifted(items, i),
    };
    assert(shape::remove_at(items, i, rest, compact) == expected) by {
        reveal_with_fuel(shape::remove_at, 2);
    }
    assert(shape::top(shape).array ==> shape::remove(shape, path, compact) == shape::with_items(
        shape,
        expected,
    )) by {
        reveal_with_fuel(shape::remove, 2);
    }
}

/// Where it is known how many items there are, a removal at an index from the end is one at an index
/// from the start, and one before the first item removes nothing.
pub proof fn a_removal_from_the_end_of_a_known_length(
    shape: Shape,
    len: nat,
    back: nat,
    rest: Seq<Step>,
    compact: bool,
)
    requires
        back > 0,
        forall|i: nat|
            i < len ==> !(#[trigger] shape(seq![Place::Item(i)])).undefined && exists|t: Type|
                t != Type::Undefined && #[trigger] shape(seq![Place::Item(i)]).has(t),
        forall|i: nat, t: Type|
            i >= len && t != Type::Undefined ==> !#[trigger] shape(seq![Place::Item(i)]).has(t),
    ensures
        back <= len ==> shape::remove(shape, seq![Step::Index(-back)] + rest, compact)
            == shape::remove(shape, seq![Step::Index(len - back)] + rest, compact),
        back > len ==> shape::remove(shape, seq![Step::Index(-back)] + rest, compact) == shape,
{
    let path = seq![Step::Index(-back)] + rest;
    let other = seq![Step::Index(len - back)] + rest;
    assert(path.drop_first() =~= rest);
    assert(other.drop_first() =~= rest);
    exactness::lemma_length(shape, len);
    let items = shape::items(shape);
    let chosen = choose|len: nat| shape::has_length(items, len);
    shape::length_is_unique(items, len, chosen);
}

/// Where it is not known how many items there are, a removal at an index from the end may concern any
/// item, or none.
pub proof fn a_removal_from_the_end_of_an_unknown_length(
    shape: Shape,
    back: nat,
    rest: Seq<Step>,
    compact: bool,
    j: nat,
    at: Seq<Place>,
    t: Type,
)
    requires
        back > 0,
        forall|len: nat|
            #![trigger shape(seq![Place::Item(len)])]
            !{
                &&& forall|i: nat|
                    i < len ==> !(#[trigger] shape(seq![Place::Item(i)])).undefined && exists|
                        t: Type,
                    | t != Type::Undefined && #[trigger] shape(seq![Place::Item(i)]).has(t)
                &&& forall|i: nat, t: Type|
                    i >= len && t != Type::Undefined ==> !#[trigger] shape(
                        seq![Place::Item(i)],
                    ).has(t)
            },
    ensures
        ({
            let left = shape::remove(shape, seq![Step::Index(-back)] + rest, compact);
            let item: Shape = |at: Seq<Place>| shape(seq![Place::Item(j)] + at);
            &&& !shape(Seq::empty()).array ==> left == shape
            &&& at.len() == 0 || at[0] is Field ==> left(at) == shape(at)
            &&& shape(Seq::empty()).array ==> (left(seq![Place::Item(j)] + at).has(t) <==> {
                ||| shape(seq![Place::Item(j)] + at).has(t)
                ||| rest.len() > 0 && shape::remove(item, rest, compact)(at).has(t)
                ||| (rest.len() == 0 || compact) && shape(seq![Place::Item(j + 1)] + at).has(t)
            })
        }),
{
    let path = seq![Step::Index(-back)] + rest;
    let items = shape::items(shape);
    let item: Shape = |at: Seq<Place>| shape(seq![Place::Item(j)] + at);
    assert(path.drop_first() =~= rest);
    assert(item =~= items(j));
    assert((seq![Place::Item(j)] + at).drop_first() =~= at);
    if exists|len: nat| shape::has_length(items, len) {
        let len = choose|len: nat| shape::has_length(items, len);
        exactness::lemma_no_length(shape, len);
        exactness::lemma_defined(shape(seq![Place::Item(len)]));
        assert(false);
    }
    assert(shape::top(shape).array ==> shape::remove(shape, path, compact) == shape::with_items(
        shape,
        shape::remove_somewhere(items, rest, compact),
    )) by {
        reveal_with_fuel(shape::remove, 2);
    }
    assert(shape::remove_somewhere(items, rest, compact)(j)(at).has(t) <==> {
        ||| items(j)(at).has(t)
        ||| rest.len() > 0 && shape::remove(items(j), rest, compact)(at).has(t)
        ||| (rest.len() == 0 || compact) && items(j + 1)(at).has(t)
    }) by {
        reveal_with_fuel(shape::remove_somewhere, 2);
    }
}

/// With compaction, a field that was there is taken to be missing only if what is left of it may be
/// an empty array or an empty object.
pub proof fn only_what_may_be_empty_is_compacted(
    shape: Shape,
    name: Seq<char>,
    rest: Seq<Step>,
    compact: bool,
)
    requires
        rest.len() > 0,
    ensures
        ({
            let before = shape(seq![Place::Field(name)]);
            let after = shape::remove(shape, seq![Step::Field(name)] + rest, compact)(
                seq![Place::Field(name)],
            );
            let field: Shape = |at: Seq<Place>| shape(seq![Place::Field(name)] + at);
            let kept = shape::remove(field, rest, compact);
            after.undefined && !before.undefined ==> compact && {
                ||| soundness::admits(kept, ValueModel::Object(Map::empty()))
                ||| soundness::admits(kept, ValueModel::Array(Seq::empty()))
            }
        }),
{
    let field: Shape = |at: Seq<Place>| shape(seq![Place::Field(name)] + at);
    let kept = shape::remove(field, rest, compact);
    a_removal_inside_a_field(shape, name, rest, compact, Seq::empty());
    a_removal_inside_leaves_the_type(field, rest, compact);
    assert(seq![Place::Field(name)] + Seq::<Place>::empty() =~= seq![Place::Field(name)]);
    if kept(Seq::empty()).object && forall|other: Seq<char>|
        (#[trigger] kept(seq![Place::Field(other)])).undefined {
        lemma_admits_empty_object(kept);
    }
    if kept(Seq::empty()).array && forall|j: nat|
        (#[trigger] kept(seq![Place::Item(j)])).undefined {
        lemma_admits_empty_array(kept);
    }
}

proof fn lemma_admits_empty_object(shape: Shape)
    requires
        shape(Seq::empty()).object,
        forall|name: Seq<char>| (#[trigger] shape(seq![Place::Field(name)])).undefined,
    ensures
        soundness::admits(shape, ValueModel::Object(Map::empty())),
{
    let part = of_value::shape_of(ValueModel::Object(Map::empty()));
    assert forall|at: Seq<Place>| (#[trigger] part(at)).within(shape(at)) by {
        if at.len() == 0 {
            assert(at =~= Seq::<Place>::empty());
        } else if at.len() == 1 {
            assert(at =~= seq![at[0]]);
            if let Place::Field(name) = at[0] {
                assert(shape(seq![Place::Field(name)]).undefined);
            }
        }
    }
}

proof fn lemma_admits_empty_array(shape: Shape)
    requires
        shape(Seq::empty()).array,
        forall|i: nat| (#[trigger] shape(seq![Place::Item(i)])).undefined,
    ensures
        soundness::admits(shape, ValueModel::Array(Seq::empty())),
{
    let part = of_value::shape_of(ValueModel::Array(Seq::empty()));
    assert forall|at: Seq<Place>| (#[trigger] part(at)).within(shape(at)) by {
        if at.len() == 0 {
            assert(at =~= Seq::<Place>::empty());
        } else if at.len() == 1 {
            assert(at =~= seq![at[0]]);
            if let Place::Item(i) = at[0] {
                assert(shape(seq![Place::Item(i)]).undefined);
            }
        }
    }
}

/// Where another field of an object is always there, a removal inside the object with compaction
/// leaves the object in its place, and that other field as it was.
pub proof fn an_object_with_another_field_stays(
    shape: Shape,
    name: Seq<char>,
    inner: Seq<char>,
    rest: Seq<Step>,
    compact: bool,
    sibling: Seq<char>,
    at: Seq<Place>,
)
    requires
        sibling != inner,
        !shape(seq![Place::Field(name)]).array,
        !shape(seq![Place::Field(name), Place::Field(sibling)]).undefined,
    ensures
        ({
            let path = seq![Step::Field(name), Step::Field(inner)] + rest;
            let left = shape::remove(shape, path, compact);
            &&& left(seq![Place::Field(name)]) == shape(seq![Place::Field(name)])
            &&& left(seq![Place::Field(name), Place::Field(sibling)] + at) == shape(
                seq![Place::Field(name), Place::Field(sibling)] + at,
            )
        }),
{
    let behind = seq![Step::Field(inner)] + rest;
    let path = seq![Step::Field(name), Step::Field(inner)] + rest;
    assert(path =~= seq![Step::Field(name)] + behind);
    let below = seq![Place::Field(sibling)] + at;
    assert(seq![Place::Field(name), Place::Field(sibling)] + at =~= seq![Place::Field(name)]
        + below);
    assert(seq![Place::Field(name), Place::Field(sibling)] =~= seq![Place::Field(name)]
        + seq![Place::Field(sibling)]);
    assert(seq![Place::Field(name)] + Seq::<Place>::empty() =~= seq![Place::Field(name)]);
    let field: Shape = |at: Seq<Place>| shape(seq![Place::Field(name)] + at);
    let kept = shape::remove(field, behind, compact);
    a_removal_inside_a_field(shape, name, behind, compact, Seq::empty());
    a_removal_inside_a_field(shape, name, behind, compact, below);
    a_removal_inside_leaves_the_type(field, behind, compact);
    if rest.len() == 0 {
        assert(behind =~= seq![Step::Field(inner)]);
        a_removed_field_is_missing(field, inner, compact, below);
        a_removed_field_is_missing(field, inner, compact, seq![Place::Field(sibling)]);
    } else {
        a_removal_inside_a_field(field, inner, rest, compact, below);
        a_removal_inside_a_field(field, inner, rest, compact, seq![Place::Field(sibling)]);
    }
    assert(kept(seq![Place::Field(sibling)]) == field(seq![Place::Field(sibling)]));
    assert(!kept(seq![Place::Field(sibling)]).undefined);
    if !shape(Seq::empty()).object {
        assert(shape::remove(shape, path, compact) == shape);
    }
}

/// Where an array always has two items, a removal of an item with compaction leaves the array in its
/// place.
pub proof fn an_array_with_another_item_stays(
    shape: Shape,
    name: Seq<char>,
    index: nat,
    compact: bool,
)
    requires
        !shape(seq![Place::Field(name)]).object,
        !shape(seq![Place::Field(name), Place::Item(0)]).undefined,
        !shape(seq![Place::Field(name), Place::Item(1)]).undefined,
    ensures
        shape::remove(shape, seq![Step::Field(name), Step::Index(index as int)], compact)(
            seq![Place::Field(name)],
        ) == shape(seq![Place::Field(name)]),
{
    let behind = seq![Step::Index(index as int)];
    let path = seq![Step::Field(name), Step::Index(index as int)];
    assert(path =~= seq![Step::Field(name)] + behind);
    let field: Shape = |at: Seq<Place>| shape(seq![Place::Field(name)] + at);
    let kept = shape::remove(field, behind, compact);
    assert(seq![Place::Field(name)] + Seq::<Place>::empty() =~= seq![Place::Field(name)]);
    assert(seq![Place::Field(name), Place::Item(0)] =~= seq![Place::Field(name)]
        + seq![Place::Item(0)]);
    assert(seq![Place::Field(name), Place::Item(1)] =~= seq![Place::Field(name)]
        + seq![Place::Item(1)]);
    assert(seq![Place::Item(0)] + Seq::<Place>::empty() =~= seq![Place::Item(0)]);
    assert(seq![Place::Item(1)] + Seq::<Place>::empty() =~= seq![Place::Item(1)]);
    a_removal_inside_a_field(shape, name, behind, compact, Seq::empty());
    a_removal_inside_leaves_the_type(field, behind, compact);
    items_behind_a_removed_one_move_up(field, index, compact, 0, Seq::empty());
    assert(!kept(seq![Place::Item(0)]).undefined);
    if !shape(Seq::empty()).object {
        assert(shape::remove(shape, path, compact) == shape);
    }
}

/// Whether two kinds differ at most in whether the value may be missing.
spec fn differ_in_undefined(a: Shape, b: Shape) -> bool {
    &&& forall|at: Seq<Place>| at.len() > 0 ==> #[trigger] a(at) == b(at)
    &&& Types { undefined: false, ..a(Seq::empty()) } == (Types {
        undefined: false,
        ..b(Seq::empty())
    })
}

/// Kinds that differ in that differ in no more after a step.
proof fn lemma_differ(a: Shape, b: Shape, path: Seq<Step>)
    requires
        differ_in_undefined(a, b),
    ensures
        differ_in_undefined(shape::at_path(a, path), shape::at_path(b, path)),
    decreases path.len(),
{
    if path.len() > 0 {
        let step = path[0];
        assert forall|place: Place| #[trigger] shape::below(a, place) == shape::below(b, place) by {
            assert forall|at: Seq<Place>| #[trigger]
                shape::below(a, place)(at) == shape::below(b, place)(at) by {
                assert(a(seq![place] + at) == b(seq![place] + at));
            }
            assert(shape::below(a, place) =~= shape::below(b, place));
        }
        assert(shape::items(a) =~= shape::items(b)) by {
            assert forall|i: nat| #[trigger] shape::items(a)(i) == shape::items(b)(i) by {
                assert(shape::below(a, Place::Item(i)) == shape::below(b, Place::Item(i)));
            }
        }
        let ta = shape::top(a);
        let tb = shape::top(b);
        assert(ta.object == tb.object && ta.array == tb.array);
        assert(Types { object: true, ..Types::none() }.or(ta) == ta <==> ta.object);
        assert(Types { object: true, ..Types::none() }.or(tb) == tb <==> tb.object);
        assert(Types { array: true, ..Types::none() }.or(ta) == ta <==> ta.array);
        assert(Types { array: true, ..Types::none() }.or(tb) == tb <==> tb.array);
        assert(differ_in_undefined(shape::at_step(a, step), shape::at_step(b, step)));
        lemma_differ(shape::at_step(a, step), shape::at_step(b, step), path.drop_first());
    }
}

/// Nothing is found in a value that is no collection.
proof fn lemma_nothing_below(shape: Shape, path: Seq<Step>)
    requires
        path.len() > 0 ==> !shape::top(shape).array && !shape::top(shape).object,
        path.len() == 0 ==> !shape::top(shape).any_defined(),
    ensures
        !shape::top(shape::at_path(shape, path)).any_defined(),
    decreases path.len(),
{
    if path.len() > 0 {
        let top = shape::top(shape);
        assert(!(Types { object: true, ..Types::none() }.or(top) == top));
        assert(!(Types { array: true, ..Types::none() }.or(top) == top));
        let next = shape::at_step(shape, path[0]);
        assert(!shape::top(next).any_defined() && !shape::top(next).array && !shape::top(
            next,
        ).object);
        lemma_nothing_below(next, path.drop_first());
    }
}

/// Where fields alone lead to a value, nothing but a missing value is found there after the value was
/// removed.
pub proof fn what_was_removed_is_missing(shape: Shape, path: Seq<Step>, compact: bool, t: Type)
    requires
        path.len() > 0,
        forall|i: int| 0 <= i < path.len() ==> #[trigger] path[i] is Field,
        t != Type::Undefined,
    ensures
        !shape::at_path(shape::remove(shape, path, compact), path)(Seq::empty()).has(t),
{
    lemma_removed_is_missing(shape, path, compact);
    exactness::lemma_defined(
        shape::top(shape::at_path(shape::remove(shape, path, compact), path)),
    );
}

proof fn lemma_removed_is_missing(shape: Shape, path: Seq<Step>, compact: bool)
    requires
        path.len() > 0,
        forall|i: int| 0 <= i < path.len() ==> #[trigger] path[i] is Field,
    ensures
        !shape::top(shape::at_path(shape::remove(shape, path, compact), path)).any_defined(),
    decreases path.len(),
{
    let rest = path.drop_first();
    let left = shape::remove(shape, path, compact);
    assert(path[0] is Field);
    let name = path[0]->Field_0;
    let place = Place::Field(name);
    let top = shape::top(shape);
    let next = shape::at_step(left, path[0]);
    assert(path =~= seq![Step::Field(name)] + rest);
    assert(shape::top(left) == top);
    assert(Types { object: true, ..Types::none() }.or(top) == top <==> top.object);
    if !top.object {
        assert(!shape::top(next).any_defined() && !shape::top(next).array && !shape::top(
            next,
        ).object);
        lemma_nothing_below(next, rest);
    } else if rest.len() == 0 {
        assert(path =~= seq![Step::Field(name)]);
        a_removed_field_is_missing(shape, name, compact, Seq::empty());
        assert(seq![place] + Seq::<Place>::empty() =~= seq![place]);
        assert(shape::top(shape::below(left, place)) == left(seq![place]));
        assert(!shape::top(next).any_defined());
        assert(shape::at_path(next, rest) == next);
    } else {
        assert forall|i: int| 0 <= i < rest.len() implies #[trigger] rest[i] is Field by {
            assert(path[i + 1] is Field);
        }
        let field: Shape = |at: Seq<Place>| shape(seq![place] + at);
        let kept = shape::remove(field, rest, compact);
        lemma_removed_is_missing(field, rest, compact);
        let member = shape::below(left, place);
        a_removal_inside_a_field(shape, name, rest, compact, Seq::empty());
        assert(seq![place] + Seq::<Place>::empty() =~= seq![place]);
        assert forall|at: Seq<Place>| at.len() > 0 implies #[trigger] member(at) == kept(at) || (
        member(at) == Types::none()) by {
            a_removal_inside_a_field(shape, name, rest, compact, at);
        }
        if shape::top(member).any_defined() {
            assert forall|at: Seq<Place>| at.len() > 0 implies #[trigger] member(at) == kept(
                at,
            ) by {
                a_removal_inside_a_field(shape, name, rest, compact, at);
            }
            assert(differ_in_undefined(member, kept));
            assert(differ_in_undefined(next, member));
            assert(differ_in_undefined(next, kept));
            lemma_differ(next, kept, rest);
        } else {
            assert(!shape::top(next).any_defined());
            assert(!shape::top(next).array && !shape::top(next).object);
            lemma_nothing_below(next, rest);
        }
    }
}

} // verus!
