//! Kinds say no more than what holds: where a type may be found in the kind of a result, it comes
//! from a place in the kinds that the result was made from.
use crate::kind::of_value;
use crate::kind::shape;
use crate::kind::shape::{CollectionModel, Place, Shape};
use crate::kind::types::{Type, Types};
use crate::kind::Kind;
use crate::path::Step;
use crate::table::Key;
use crate::value::ValueModel;
use vstd::prelude::*;

verus! {

/// A set of types has a type other than `undefined` if and only if one can be named.
pub(super) proof fn lemma_defined(types: Types)
    ensures
        types.any_defined() <==> exists|t: Type| t != Type::Undefined && #[trigger] types.has(t),
{
    if types.any_defined() {
        if types.bytes {
            assert(types.has(Type::Bytes));
        } else if types.integer {
            assert(types.has(Type::Integer));
        } else if types.float {
            assert(types.has(Type::Float));
        } else if types.boolean {
            assert(types.has(Type::Boolean));
        } else if types.timestamp {
            assert(types.has(Type::Timestamp));
        } else if types.regex {
            assert(types.has(Type::Regex));
        } else if types.null {
            assert(types.has(Type::Null));
        } else if types.array {
            assert(types.has(Type::Array));
        } else {
            assert(types.object);
            assert(types.has(Type::Object));
        }
    }
}

/// The kind of a value says one type at the top, that of the value.
pub proof fn the_kind_of_a_value_is_its_type(value: ValueModel, t: Type)
    ensures
        of_value::shape_of(value)(Seq::empty()).has(t) <==> match value {
            ValueModel::Bytes(_) => t == Type::Bytes,
            ValueModel::Regex(_) => t == Type::Regex,
            ValueModel::Integer(_) => t == Type::Integer,
            ValueModel::Float(_) => t == Type::Float,
            ValueModel::Boolean(_) => t == Type::Boolean,
            ValueModel::Timestamp(_) => t == Type::Timestamp,
            ValueModel::Object(_) => t == Type::Object,
            ValueModel::Array(_) => t == Type::Array,
            ValueModel::Null => t == Type::Null,
        },
{
}

/// At the places inside a value, its kind says what the kinds of its members say, and that nothing
/// is at the others.
pub proof fn the_kind_of_a_value_is_that_of_its_members(value: ValueModel, at: Seq<Place>)
    ensures
        forall|i: nat|
            value matches ValueModel::Array(items) && i < items.len() ==> #[trigger]
                of_value::shape_of(value)(seq![Place::Item(i)] + at) == of_value::shape_of(
                value->Array_0[i as int],
            )(at),
        forall|i: nat|
            value matches ValueModel::Array(items) && i >= items.len() ==> #[trigger]
                of_value::shape_of(value)(seq![Place::Item(i)] + at) == (Types {
                undefined: at.len() == 0,
                ..Types::none()
            }),
        forall|name: Seq<char>|
            value matches ValueModel::Object(fields) && fields.contains_key(name) ==> #[trigger]
                of_value::shape_of(value)(seq![Place::Field(name)] + at) == of_value::shape_of(
                value->Object_0[name],
            )(at),
        forall|name: Seq<char>|
            value matches ValueModel::Object(fields) && !fields.contains_key(name) ==> #[trigger]
                of_value::shape_of(value)(seq![Place::Field(name)] + at) == (Types {
                undefined: at.len() == 0,
                ..Types::none()
            }),
        !(value is Array) ==> forall|i: nat| #[trigger]
            of_value::shape_of(value)(seq![Place::Item(i)] + at) == Types::none(),
        !(value is Object) ==> forall|name: Seq<char>| #[trigger]
            of_value::shape_of(value)(seq![Place::Field(name)] + at) == Types::none(),
{
    assert forall|place: Place|
        #![trigger seq![place] + at]
        (seq![place] + at)[0] == place && (seq![place] + at).drop_first() == at by {
        assert((seq![place] + at).drop_first() =~= at);
    }
}

/// The kind of a scalar has its types at the top, and nothing below.
pub proof fn a_scalar_has_nothing_below(types: Types, at: Seq<Place>)
    ensures
        shape::top_only(types)(Seq::empty()) == types,
        at.len() > 0 ==> shape::top_only(types)(at) == Types::none(),
{
}

/// The kind of a collection says of a member what the collection says of it: of one that is known by
/// its key what is known of that one, and of any other what is known of all others.
pub proof fn a_collection_says_what_its_members_are(
    types: Types,
    items: CollectionModel<nat>,
    fields: CollectionModel<Seq<char>>,
    i: nat,
    name: Seq<char>,
    at: Seq<Place>,
)
    ensures
        ({
            let both = shape::compose(types, Some(items), Some(fields));
            &&& both(Seq::empty()) == types
            &&& items.known.contains_key(i) ==> both(seq![Place::Item(i)] + at) == (items.known[i])(
                at,
            )
            &&& !items.known.contains_key(i) ==> both(seq![Place::Item(i)] + at) == (items.unknown)(
                at,
            )
            &&& fields.known.contains_key(name) ==> both(seq![Place::Field(name)] + at) == (
            fields.known[name])(at)
            &&& !fields.known.contains_key(name) ==> both(seq![Place::Field(name)] + at) == (
            fields.unknown)(at)
        }),
        ({
            let array = shape::compose(types, Some(items), None);
            &&& array(Seq::empty()) == types
            &&& items.known.contains_key(i) ==> array(seq![Place::Item(i)] + at) == (
            items.known[i])(at)
            &&& !items.known.contains_key(i) ==> array(seq![Place::Item(i)] + at) == (
            items.unknown)(at)
            &&& array(seq![Place::Field(name)] + at) == Types::none()
        }),
        ({
            let object = shape::compose(types, None, Some(fields));
            &&& object(Seq::empty()) == types
            &&& fields.known.contains_key(name) ==> object(seq![Place::Field(name)] + at) == (
            fields.known[name])(at)
            &&& !fields.known.contains_key(name) ==> object(seq![Place::Field(name)] + at) == (
            fields.unknown)(at)
            &&& object(seq![Place::Item(i)] + at) == Types::none()
        }),
{
    assert((seq![Place::Item(i)] + at)[0] == Place::Item(i));
    assert((seq![Place::Item(i)] + at).drop_first() =~= at);
    assert((seq![Place::Field(name)] + at)[0] == Place::Field(name));
    assert((seq![Place::Field(name)] + at).drop_first() =~= at);
}

/// The fields that a kind has are those that the collection says, one by one. Nothing is known of a
/// collection if nothing is known of any member.
pub proof fn a_kind_has_the_fields_of_its_collection(
    shape: Shape,
    fields: CollectionModel<Seq<char>>,
    name: Seq<char>,
    at: Seq<Place>,
    t: Type,
)
    ensures
        super::has_fields(shape, fields) && fields.known.contains_key(name) ==> shape(
            seq![Place::Field(name)] + at,
        ) == (fields.known[name])(at),
        super::has_fields(shape, fields) && !fields.known.contains_key(name) ==> shape(
            seq![Place::Field(name)] + at,
        ) == (fields.unknown)(at),
        shape::all_anything(fields) && fields.known.contains_key(name) ==> (fields.known[name])(
            at,
        ).has(t),
        shape::all_anything(fields) && !fields.known.contains_key(name) ==> (fields.unknown)(
            at,
        ).has(t),
        shape::missing()(at) == (Types { undefined: at.len() == 0, ..Types::none() }),
{
    if super::has_fields(shape, fields) {
        assert(shape::below(shape, Place::Field(name)) == fields.at(name));
        assert(shape::below(shape, Place::Field(name))(at) == shape(
            seq![Place::Field(name)] + at,
        ));
    }
    if shape::all_anything(fields) {
        assert(fields.at(name) == shape::anything());
    }
}

/// Of a list of kinds, the last one with a key counts.
pub proof fn the_last_kind_with_a_key_counts<K: Key>(entries: Seq<(K, Kind)>, i: int)
    requires
        0 <= i < entries.len(),
        forall|j: int| i < j < entries.len() ==> (#[trigger] entries[j]).0@ != entries[i].0@,
    ensures
        super::listed(entries).contains_key(entries[i].0@),
        super::listed(entries)[entries[i].0@] == entries[i].1@,
    decreases entries.len(),
{
    let first = entries.drop_last();
    if i < first.len() {
        assert(entries[entries.len() - 1].0@ != entries[i].0@);
        assert forall|j: int| i < j < first.len() implies (#[trigger] first[j]).0@
            != first[i].0@ by {
            assert(entries[j].0@ != entries[i].0@);
        }
        the_last_kind_with_a_key_counts(first, i);
    }
}

/// A list of kinds says nothing of a key that is not in it.
pub proof fn a_list_of_kinds_has_no_other_keys<K: Key>(entries: Seq<(K, Kind)>, key: K::V)
    requires
        super::listed(entries).contains_key(key),
    ensures
        exists|i: int| 0 <= i < entries.len() && (#[trigger] entries[i]).0@ == key,
    decreases entries.len(),
{
    if entries.len() > 0 {
        let first = entries.drop_last();
        if super::listed(first).contains_key(key) {
            a_list_of_kinds_has_no_other_keys(first, key);
            let i = choose|i: int| 0 <= i < first.len() && (#[trigger] first[i]).0@ == key;
            assert(entries[i].0@ == key);
        } else {
            assert(entries[entries.len() - 1].0@ == key);
        }
    }
}

/// Types other than that of a missing value, and those that are neither of a missing value nor of a
/// collection.
pub proof fn what_is_defined_and_what_is_primitive(types: Types)
    ensures
        types.any_defined() <==> types.bytes || types.integer || types.float || types.boolean
            || types.timestamp || types.regex || types.null || types.array || types.object,
        types.any_primitive() <==> types.bytes || types.integer || types.float || types.boolean
            || types.timestamp || types.regex || types.null,
{
}

/// In a union, a type may be found at a place if and only if it may be found there in one of the
/// two kinds.
pub proof fn a_union_is_the_least_kind(a: Shape, b: Shape, at: Seq<Place>, t: Type)
    ensures
        shape::either(a, b)(at).has(t) <==> a(at).has(t) || b(at).has(t),
{
}

/// Where a missing value is taken for null, null may be found in place of a missing value, and
/// nothing else is different.
pub proof fn a_missing_value_is_null(shape: Shape, at: Seq<Place>, t: Type)
    ensures
        at.len() > 0 ==> shape::null_if_missing(shape)(at) == shape(at),
        !shape::null_if_missing(shape)(Seq::empty()).undefined,
        t != Type::Undefined && t != Type::Null ==> (shape::null_if_missing(shape)(
            Seq::empty(),
        ).has(t) <==> shape(Seq::empty()).has(t)),
        shape::null_if_missing(shape)(Seq::empty()).null <==> shape(Seq::empty()).null || shape(
            Seq::empty(),
        ).undefined,
{
}

/// What may be missing may be what it was before, or missing.
pub proof fn a_value_that_may_be_missing(shape: Shape, at: Seq<Place>, t: Type)
    ensures
        at.len() > 0 ==> shape::maybe_missing(shape)(at) == shape(at),
        shape::maybe_missing(shape)(Seq::empty()).undefined,
        t != Type::Undefined ==> (shape::maybe_missing(shape)(Seq::empty()).has(t) <==> shape(
            Seq::empty(),
        ).has(t)),
{
}

/// Where nothing is known, every type may be found at every place.
pub proof fn of_anything_nothing_is_known(at: Seq<Place>, t: Type)
    ensures
        shape::anything()(at).has(t),
{
}

proof fn lemma_one_step(shape: Shape, step: Step)
    ensures
        shape::at_path(shape, seq![step]) == shape::at_step(shape, step),
{
    let path = seq![step];
    assert(path.drop_first() =~= Seq::<Step>::empty());
    assert(shape::at_path(shape::at_step(shape, step), path.drop_first()) == shape::at_step(
        shape,
        step,
    ));
}

/// The path without a step finds the kind itself.
pub proof fn the_root_has_the_whole_kind(shape: Shape)
    ensures
        shape::at_path(shape, Seq::empty()) == shape,
{
}

/// A step to a place finds what the kind says of that place. What is found is missing if the value
/// at the place is, or if the value that is looked into is of another type. Where there is no value
/// to look into, nothing is found, not even a missing value.
pub proof fn a_step_finds_what_is_at_its_place(
    shape: Shape,
    step: Step,
    place: Place,
    at: Seq<Place>,
    t: Type,
)
    requires
        match place {
            Place::Field(name) => step == Step::Field(name),
            Place::Item(i) => step == Step::Index(i as int),
        },
    ensures
        ({
            let found = shape::at_path(shape, seq![step]);
            let top = shape(Seq::empty());
            let holder = if place is Field {
                Type::Object
            } else {
                Type::Array
            };
            &&& at.len() > 0 && top.has(holder) ==> found(at) == shape(seq![place] + at)
            &&& at.len() > 0 && !top.has(holder) ==> found(at) == Types::none()
            &&& t != Type::Undefined ==> (found(Seq::empty()).has(t) <==> top.has(holder) && shape(
                seq![place],
            ).has(t))
            &&& found(Seq::empty()).has(Type::Undefined) <==> {
                ||| top.has(holder) && shape(seq![place]).has(Type::Undefined)
                ||| exists|other: Type| other != holder && #[trigger] top.has(other)
            }
        }),
{
    let path = seq![step];
    let top = shape::top(shape);
    lemma_one_step(shape, step);
    assert(seq![place] + Seq::<Place>::empty() =~= seq![place]);
    lemma_other_type(top, if place is Field {
        Type::Object
    } else {
        Type::Array
    });
    match place {
        Place::Field(_) => {
            assert(Types { object: true, ..Types::none() }.or(top) == top <==> top.object);
        },
        Place::Item(_) => {
            assert(Types { array: true, ..Types::none() }.or(top) == top <==> top.array);
        },
    }
}

/// The items have one length if there is an item at each position below it, each time, and none at
/// any other.
pub(super) proof fn lemma_length(shape: Shape, len: nat)
    requires
        forall|i: nat|
            i < len ==> !(#[trigger] shape(seq![Place::Item(i)])).undefined && exists|t: Type|
                t != Type::Undefined && #[trigger] shape(seq![Place::Item(i)]).has(t),
        forall|i: nat, t: Type|
            i >= len && t != Type::Undefined ==> !#[trigger] shape(seq![Place::Item(i)]).has(t),
    ensures
        shape::has_length(shape::items(shape), len),
{
    let items = shape::items(shape);
    assert forall|i: nat| #[trigger] shape::item_fits_length(items, len, i) by {
        assert(seq![Place::Item(i)] + Seq::<Place>::empty() =~= seq![Place::Item(i)]);
        assert(shape::top(items(i)) == shape(seq![Place::Item(i)]));
        lemma_defined(shape(seq![Place::Item(i)]));
    }
}

/// Items that have one length are there at each position below it, each time, and at no other.
pub(super) proof fn lemma_no_length(shape: Shape, len: nat)
    requires
        shape::has_length(shape::items(shape), len),
    ensures
        forall|i: nat|
            i < len ==> !(#[trigger] shape(seq![Place::Item(i)])).undefined && exists|t: Type|
                t != Type::Undefined && #[trigger] shape(seq![Place::Item(i)]).has(t),
        forall|i: nat, t: Type|
            i >= len && t != Type::Undefined ==> !#[trigger] shape(seq![Place::Item(i)]).has(t),
{
    let items = shape::items(shape);
    assert forall|i: nat| true implies #[trigger] shape(seq![Place::Item(i)]) == shape::top(
        items(i),
    ) && shape::item_fits_length(items, len, i) by {
        assert(seq![Place::Item(i)] + Seq::<Place>::empty() =~= seq![Place::Item(i)]);
    }
    assert forall|i: nat| i < len implies !(#[trigger] shape(seq![Place::Item(i)])).undefined
        && exists|t: Type|
        t != Type::Undefined && #[trigger] shape(seq![Place::Item(i)]).has(t) by {
        lemma_defined(shape(seq![Place::Item(i)]));
    }
    assert forall|i: nat, t: Type|
        i >= len && t != Type::Undefined implies !#[trigger] shape(seq![Place::Item(i)]).has(t) by {
        lemma_defined(shape(seq![Place::Item(i)]));
    }
}

/// Where it is known how many items there are, an index from the end is one from the start.
pub proof fn an_index_from_the_end_of_a_known_length(shape: Shape, len: nat, back: nat)
    requires
        back > 0,
        forall|i: nat|
            i < len ==> !(#[trigger] shape(seq![Place::Item(i)])).undefined && exists|t: Type|
                t != Type::Undefined && #[trigger] shape(seq![Place::Item(i)]).has(t),
        forall|i: nat, t: Type|
            i >= len && t != Type::Undefined ==> !#[trigger] shape(seq![Place::Item(i)]).has(t),
    ensures
        back <= len && shape(Seq::empty()).array ==> shape::at_path(
            shape,
            seq![Step::Index(-back)],
        ) == shape::at_path(shape, seq![Step::Index(len - back)]),
        back > len && shape(Seq::empty()).array ==> forall|at: Seq<Place>|
            #[trigger] shape::at_path(shape, seq![Step::Index(-back)])(at) == (Types {
                undefined: at.len() == 0,
                ..Types::none()
            }),
{
    lemma_one_step(shape, Step::Index(-back));
    lemma_one_step(shape, Step::Index(len - back));
    lemma_length(shape, len);
    let items = shape::items(shape);
    let chosen = choose|len: nat| shape::has_length(items, len);
    shape::length_is_unique(items, len, chosen);
    assert(shape::maybe_missing(shape::missing()) =~= shape::missing());
}

/// Where it is not known how many items there are, an index from the end may find any of them, or
/// nothing.
pub proof fn an_index_from_the_end_of_an_unknown_length(
    shape: Shape,
    back: nat,
    at: Seq<Place>,
    t: Type,
)
    requires
        back > 0,
        shape(Seq::empty()).array,
        forall|len: nat|
            #![trigger shape(seq![Place::Item(len)])]
            !{
                &&& forall|i: nat|
                    i < len ==> !(#[trigger] shape(seq![Place::Item(i)])).undefined && exists|
                        t: Type,
                    | t != Type::Undefined && #[trigger] shape(seq![Place::Item(i)]).has(t)
                &&& forall|i: nat, t: Type|
                    i >= len && t != Type::Undefined ==> !#[trigger] shape(
                        seq![Place::Item(i)],
                    ).has(t)
            },
    ensures
        ({
            let found = shape::at_path(shape, seq![Step::Index(-back)]);
            &&& at.len() > 0 || t != Type::Undefined ==> (found(at).has(t) <==> exists|i: nat|
                #[trigger] shape(seq![Place::Item(i)] + at).has(t))
            &&& found(Seq::empty()).undefined
        }),
{
    lemma_one_step(shape, Step::Index(-back));
    let items = shape::items(shape);
    if exists|len: nat| shape::has_length(items, len) {
        let len = choose|len: nat| shape::has_length(items, len);
        lemma_no_length(shape, len);
        lemma_defined(shape(seq![Place::Item(len)]));
        assert(false);
    }
    let found = shape::at_path(shape, seq![Step::Index(-back)]);
    let some = shape::some_item(items);
    assert(Types { array: true, ..Types::none() }.or(shape::top(shape)) == shape::top(shape));
    assert(at.len() > 0 || t != Type::Undefined ==> found(at).has(t) == some(at).has(t));
    assert(at.len() > 0 || t != Type::Undefined ==> some(at).has(t) == shape::some_item_has(
        items,
        at,
        t,
    ));
    if exists|i: nat| #[trigger] shape(seq![Place::Item(i)] + at).has(t) {
        let i = choose|i: nat| #[trigger] shape(seq![Place::Item(i)] + at).has(t);
        assert(items(i)(at).has(t));
    }
    if shape::some_item_has(items, at, t) {
        let i = choose|i: nat| (#[trigger] items(i))(at).has(t);
        assert(shape(seq![Place::Item(i)] + at).has(t));
    }
}

/// Nothing is found behind the end of an array that is not one, wherever the index counts from.
pub proof fn an_index_from_the_end_of_something_else(shape: Shape, back: nat, at: Seq<Place>)
    requires
        back > 0,
        !shape(Seq::empty()).array,
    ensures
        shape::at_path(shape, seq![Step::Index(-back)])(at) == (Types {
            undefined: at.len() == 0 && shape(Seq::empty()) != Types::none(),
            ..Types::none()
        }),
{
    lemma_one_step(shape, Step::Index(-back));
    assert(!(Types { array: true, ..Types::none() }.or(shape::top(shape)).array == shape::top(
        shape,
    ).array));
}

/// A set has a type other than `t` if and only if it is neither empty nor just `t`.
proof fn lemma_other_type(types: Types, t: Type)
    ensures
        (exists|other: Type| other != t && #[trigger] types.has(other)) <==> !(types
            == Types::none()) && !(forall|other: Type| #[trigger] types.has(other) <==> other == t),
        (forall|other: Type| #[trigger] types.has(other) <==> other == t) && t == Type::Object ==> types
            == (Types { object: true, ..Types::none() }),
        (forall|other: Type| #[trigger] types.has(other) <==> other == t) && t == Type::Array ==> types
            == (Types { array: true, ..Types::none() }),
        t == Type::Object && types == (Types { object: true, ..Types::none() }) ==> forall|
            other: Type,
        | #[trigger] types.has(other) <==> other == t,
        t == Type::Array && types == (Types { array: true, ..Types::none() }) ==> forall|
            other: Type,
        | #[trigger] types.has(other) <==> other == t,
{
    let none = Types::none();
    if !(exists|other: Type| other != t && #[trigger] types.has(other)) {
        if !types.has(t) {
            assert forall|other: Type| types.has(other) == none.has(other) by {}
            types.same_types(none);
        }
    }
    if forall|other: Type| #[trigger] types.has(other) <==> other == t {
        let object = Types { object: true, ..Types::none() };
        let array = Types { array: true, ..Types::none() };
        if t == Type::Object {
            assert forall|other: Type| types.has(other) == object.has(other) by {}
            types.same_types(object);
        }
        if t == Type::Array {
            assert forall|other: Type| types.has(other) == array.has(other) by {}
            types.same_types(array);
        }
    }
}

} // verus!
