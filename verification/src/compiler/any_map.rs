//! Values of types that only the program around the compiler knows.
use std::any::Any;
use vstd::prelude::*;

verus! {

/// A type whose values can be held in an [`AnyMap`]: every type without borrowed parts.
pub trait CustomData {

}

impl<T: 'static> CustomData for T {

}

/// A value with its type forgotten.
pub struct Erased {
    pub data: Box<dyn CustomData>,
}

/// The value with its type forgotten.
pub open spec fn erased<T: 'static>(data: T) -> Erased {
    Erased { data: Box::new(data) }
}

/// Whether different values of a type have different codes.
pub open spec fn is_code<T>(code: spec_fn(T) -> Seq<int>) -> bool {
    forall|a: T, b: T| #[trigger] code(a) == #[trigger] code(b) ==> a == b
}

/// Whether the values of a type can be told apart by finitely many numbers each. Ghost types may
/// have more values than that.
pub open spec fn has_code<T>() -> bool {
    exists|code: spec_fn(T) -> Seq<int>| #[trigger] is_code(code)
}

/// Whether `value` is the value behind `data`. Where the values of its type have codes, no other
/// value is.
pub open spec fn is_behind<T: 'static>(data: Erased, value: T) -> bool {
    &&& data == erased(value)
    &&& has_code::<T>() ==> forall|other: T| data == #[trigger] erased(other) ==> other == value
}

/// A value of any type. Verus has no model of `std::any::Any`, so the box is hidden from it.
#[verifier::external_body]
pub struct AnyValue {
    data: Box<dyn Any>,
}

/// The value that an [`AnyValue`] holds.
pub uninterp spec fn content(value: AnyValue) -> Erased;

/// The number of the type of a value that an [`AnyValue`] holds. Types that are one to Verus, which
/// ignores lifetimes, have one number.
pub uninterp spec fn type_of(data: Erased) -> int;

/// Whether the types with this number are one type to `std::any::Any`. Types that differ only in
/// the lifetimes that a `dyn` type in them ranges over have one number, but are two types to `Any`.
pub uninterp spec fn is_one_type(number: int) -> bool;

/// The number of the type `T`.
pub open spec fn type_number<T: 'static>() -> int {
    type_of(erased(arbitrary::<T>()))
}

/// `std::boxed::Box::new`, with the box turned into one of `dyn Any`: holds the value, which keeps
/// its type.
#[verifier::external_body]
fn any_new<T: 'static>(data: T) -> (r: AnyValue)
    ensures
        content(r) == erased(data),
        type_of(content(r)) == type_number::<T>(),
{
    AnyValue { data: Box::new(data) }
}

/// `<dyn std::any::Any>::downcast_ref`: the value held, if and only if it has the type `T`. Where
/// other types have the number of `T`, the number does not tell whether it has.
#[verifier::external_body]
fn any_ref<T: 'static>(value: &AnyValue) -> (r: Option<&T>)
    ensures
        match r {
            Some(data) => {
                &&& type_of(content(*value)) == type_number::<T>()
                &&& is_behind(content(*value), *data)
            },
            None => is_one_type(type_number::<T>()) ==> type_of(content(*value)) != type_number::<
                T,
            >(),
        },
{
    value.data.downcast_ref::<T>()
}

/// `<dyn std::any::Any>::downcast_mut`: the value held, to be changed, if and only if it has the
/// type `T`. It has the same type afterwards. Where other types have the number of `T`, the number
/// does not tell whether it has.
#[verifier::external_body]
fn any_mut<T: 'static>(value: &mut AnyValue) -> (r: Option<&mut T>)
    ensures
        match r {
            Some(data) => {
                &&& type_of(content(*old(value))) == type_number::<T>()
                &&& is_behind(content(*old(value)), *data)
                &&& content(*final(value)) == erased(*final(data))
                &&& type_of(content(*final(value))) == type_number::<T>()
            },
            None => {
                &&& is_one_type(type_number::<T>()) ==> type_of(content(*old(value)))
                    != type_number::<T>()
                &&& *final(value) == *old(value)
            },
        },
{
    value.data.downcast_mut::<T>()
}

/// Values of any types. A value of a type takes the place of the one that was there before.
pub struct AnyMap {
    values: Vec<AnyValue>,
}

/// The values whose type has a number, in the order in which they are held.
spec fn numbered(values: Seq<AnyValue>, number: int) -> Seq<Erased>
    decreases values.len(),
{
    if values.len() == 0 {
        Seq::empty()
    } else if type_of(content(values.last())) == number {
        numbered(values.drop_last(), number).push(content(values.last()))
    } else {
        numbered(values.drop_last(), number)
    }
}

/// The values by the number of their type.
spec fn by_number(values: Seq<AnyValue>) -> Map<int, Seq<Erased>> {
    Map::new(
        |number: int| numbered(values, number).len() > 0,
        |number: int| numbered(values, number),
    )
}

impl View for AnyMap {
    type V = Map<int, Seq<Erased>>;

    closed spec fn view(&self) -> Map<int, Seq<Erased>> {
        by_number(self.values@)
    }
}

/// The values whose type has the number of `T`. Where that is the number of several types, there may
/// be one of each. Otherwise only the first one is ever found.
pub open spec fn held<T: 'static>(values: Map<int, Seq<Erased>>) -> Seq<Erased> {
    if values.contains_key(type_number::<T>()) {
        values[type_number::<T>()]
    } else {
        Seq::empty()
    }
}

/// Whether a value of type `T` may be at this place among those held: at the first one, where `T`
/// has its number for itself.
pub open spec fn may_be_at<T: 'static>(i: int) -> bool {
    is_one_type(type_number::<T>()) ==> i == 0
}

/// Whether there may be no value of type `T`: only where none is held, if `T` has its number for
/// itself.
pub open spec fn may_have_none<T: 'static>(values: Map<int, Seq<Erased>>) -> bool {
    is_one_type(type_number::<T>()) ==> held::<T>(values).len() == 0
}

/// Whether `data` is the value of type `T`, and it is at place `i` among those held.
pub open spec fn is_found_at<T: 'static>(values: Map<int, Seq<Erased>>, data: T, i: int) -> bool {
    &&& 0 <= i < held::<T>(values).len()
    &&& may_be_at::<T>(i)
    &&& is_behind(held::<T>(values)[i], data)
}

/// Whether `data` is the value of type `T`.
pub open spec fn is_found<T: 'static>(values: Map<int, Seq<Erased>>, data: T) -> bool {
    exists|i: int| is_found_at(values, data, i)
}

/// Whether `found` is what is found when the value of type `T` is asked for.
pub open spec fn finds<T: 'static>(values: Map<int, Seq<Erased>>, found: Option<T>) -> bool {
    match found {
        Some(data) => is_found(values, data),
        None => may_have_none::<T>(values),
    }
}

/// The values when the one at place `i` among those held for `T` is `data`.
pub open spec fn with_value_at<T: 'static>(
    values: Map<int, Seq<Erased>>,
    data: T,
    i: int,
) -> Map<int, Seq<Erased>> {
    values.insert(type_number::<T>(), held::<T>(values).update(i, erased(data)))
}

/// The values when `data` is held in addition.
pub open spec fn with_another<T: 'static>(values: Map<int, Seq<Erased>>, data: T) -> Map<
    int,
    Seq<Erased>,
> {
    values.insert(type_number::<T>(), held::<T>(values).push(erased(data)))
}

/// Whether `data` took the place `i` among those held for `T`.
pub open spec fn replaces_at<T: 'static>(
    before: Map<int, Seq<Erased>>,
    after: Map<int, Seq<Erased>>,
    data: T,
    i: int,
) -> bool {
    &&& 0 <= i < held::<T>(before).len()
    &&& may_be_at::<T>(i)
    &&& after == with_value_at(before, data, i)
}

/// Whether `data` took the place of the value of type `T`.
pub open spec fn replaces<T: 'static>(
    before: Map<int, Seq<Erased>>,
    after: Map<int, Seq<Erased>>,
    data: T,
) -> bool {
    exists|i: int| replaces_at(before, after, data, i)
}

/// Whether the values are these when the value of type `T` is set: it takes the place of the one
/// that was there, and is held in addition where there was none.
pub open spec fn sets<T: 'static>(
    before: Map<int, Seq<Erased>>,
    after: Map<int, Seq<Erased>>,
    data: T,
) -> bool {
    ||| replaces(before, after, data)
    ||| may_have_none::<T>(before) && after == with_another(before, data)
}

/// Whether the value of type `T` is changed from `data` to `changed`, and nothing else is.
pub open spec fn changes<T: 'static>(
    before: Map<int, Seq<Erased>>,
    after: Map<int, Seq<Erased>>,
    data: T,
    changed: T,
) -> bool {
    exists|i: int|
        is_found_at(before, data, i) && #[trigger] replaces_at(before, after, changed, i)
}

/// Whether the values are these when that of type `T` is taken out, and `removed` says whether there
/// was one.
pub open spec fn removes<T: 'static>(
    before: Map<int, Seq<Erased>>,
    after: Map<int, Seq<Erased>>,
    removed: bool,
) -> bool {
    &&& after.remove(type_number::<T>()) == before.remove(type_number::<T>())
    &&& removed ==> before.contains_key(type_number::<T>())
    &&& !removed ==> after == before
    &&& is_one_type(type_number::<T>()) ==> {
        &&& removed == before.contains_key(type_number::<T>())
        &&& after == before.remove(type_number::<T>())
    }
}

/// Setting a value, or changing it in place, touches only what has the number of its type, and
/// leaves the value there.
pub proof fn set_value_is_held<T: 'static>(
    before: Map<int, Seq<Erased>>,
    after: Map<int, Seq<Erased>>,
    data: T,
)
    requires
        sets(before, after, data),
    ensures
        held::<T>(after).contains(erased(data)),
        after.remove(type_number::<T>()) == before.remove(type_number::<T>()),
        is_one_type(type_number::<T>()) ==> held::<T>(after)[0] == erased(data),
{
    assert(after.remove(type_number::<T>()) =~= before.remove(type_number::<T>()));
    if replaces(before, after, data) {
        let i = choose|i: int| replaces_at(before, after, data, i);
        assert(held::<T>(after)[i] == erased(data));
    } else {
        assert(held::<T>(after).last() == erased(data));
    }
}

/// A value that was changed in place is as it would be had it been set.
pub proof fn changed_value_is_set<T: 'static>(
    before: Map<int, Seq<Erased>>,
    after: Map<int, Seq<Erased>>,
    data: T,
    changed: T,
)
    requires
        changes(before, after, data, changed),
    ensures
        sets(before, after, changed),
{
}

/// What is handed out to be changed is what is found.
pub proof fn what_is_changed_was_found<T: 'static>(
    before: Map<int, Seq<Erased>>,
    after: Map<int, Seq<Erased>>,
    data: T,
    changed: T,
)
    requires
        changes(before, after, data, changed),
    ensures
        finds(before, Some(data)),
{
}

/// What is found is held, and nothing is found only where nothing is held, if the type has its number
/// for itself.
pub proof fn what_is_found_is_held<T: 'static>(values: Map<int, Seq<Erased>>, found: Option<T>)
    requires
        finds(values, found),
    ensures
        found matches Some(data) ==> values.contains_key(type_number::<T>())
            && values[type_number::<T>()].contains(erased(data)),
        found matches Some(data) ==> is_one_type(type_number::<T>()) ==> values[type_number::<
            T,
        >()][0] == erased(data),
        found is None && is_one_type(type_number::<T>()) && values.contains_key(type_number::<T>())
            ==> values[type_number::<T>()].len() == 0,
{
    if let Some(data) = found {
        let i = choose|i: int| is_found_at(values, data, i);
        assert(values[type_number::<T>()][i] == erased(data));
    }
}

/// What was set, or changed in place, is found, whatever was there before. The type has to have its
/// number for itself, and its values have to be such that they can be told apart.
pub proof fn set_value_is_found<T: 'static>(
    before: Map<int, Seq<Erased>>,
    after: Map<int, Seq<Erased>>,
    data: T,
    found: Option<T>,
)
    requires
        has_code::<T>(),
        sets(before, after, data),
        finds(after, found),
    ensures
        is_one_type(type_number::<T>()) ==> found == Some(data),
{
    set_value_is_held(before, after, data);
    if let (Some(other), true) = (found, is_one_type(type_number::<T>())) {
        let i = choose|i: int| is_found_at(after, other, i);
        assert(held::<T>(after)[i] == erased(data));
    }
}

/// Setting a value of one type, or changing it in place, does not change what is found of a type
/// with another number.
pub proof fn values_of_other_types_are_left_alone<T: 'static, U: 'static>(
    before: Map<int, Seq<Erased>>,
    after: Map<int, Seq<Erased>>,
    data: T,
    found: Option<U>,
)
    requires
        type_number::<T>() != type_number::<U>(),
        sets(before, after, data),
    ensures
        finds(after, found) == finds(before, found),
{
    assert(held::<U>(after) == held::<U>(before));
    if let Some(other) = found {
        assert forall|i: int| is_found_at(after, other, i) == is_found_at(before, other, i) by {}
    }
}

/// Where just a value of one type was set, a value of another type is found only if the two types
/// have one number, and none is found only if that is not so or is the number of several types.
pub proof fn different_types_are_told_apart<T: 'static, U: 'static>(
    after: Map<int, Seq<Erased>>,
    data: T,
    found: Option<U>,
)
    requires
        sets(Map::empty(), after, data),
        finds(after, found),
    ensures
        found is Some ==> type_number::<T>() == type_number::<U>(),
        found is None && is_one_type(type_number::<U>()) ==> type_number::<T>() != type_number::<
            U,
        >(),
{
    set_value_is_held(Map::empty(), after, data);
    if let Some(other) = found {
        let i = choose|i: int| is_found_at(after, other, i);
        assert(0 <= i < held::<U>(after).len());
    }
}

/// A value that was taken out is not found, where its type has its number for itself, and what is
/// found of a type with another number is the same as before.
pub proof fn removed_value_is_not_found<T: 'static, U: 'static>(
    before: Map<int, Seq<Erased>>,
    after: Map<int, Seq<Erased>>,
    removed: bool,
    found: Option<T>,
    other: Option<U>,
)
    requires
        removes::<T>(before, after, removed),
        finds(after, found),
    ensures
        is_one_type(type_number::<T>()) ==> found is None,
        is_one_type(type_number::<T>()) ==> removed == before.contains_key(type_number::<T>()),
        removed ==> before.contains_key(type_number::<T>()),
        !removed ==> after == before,
        after.remove(type_number::<T>()) == before.remove(type_number::<T>()),
        type_number::<T>() != type_number::<U>() ==> finds(after, other) == finds(before, other),
{
    if type_number::<T>() != type_number::<U>() {
        let number = type_number::<U>();
        assert(after.remove(type_number::<T>()).contains_key(number) == after.contains_key(number));
        assert(before.remove(type_number::<T>()).contains_key(number) == before.contains_key(
            number,
        ));
        assert(after.contains_key(number) ==> after.remove(type_number::<T>())[number]
            == after[number]);
        assert(held::<U>(after) == held::<U>(before));
        if let Some(data) = other {
            assert forall|i: int| is_found_at(after, data, i) == is_found_at(before, data, i) by {}
        }
    }
    if let Some(data) = found {
        let i = choose|i: int| is_found_at(after, data, i);
        assert(0 <= i < held::<T>(after).len());
    }
}

/// Nothing is found where nothing was set.
pub proof fn nothing_is_found_at_first<T: 'static>(found: Option<T>)
    ensures
        finds(Map::empty(), found) <==> found is None,
{
}

/// The values of a type in two lists, one behind the other.
proof fn lemma_numbered_sum(a: Seq<AnyValue>, b: Seq<AnyValue>, number: int)
    ensures
        numbered(a + b, number) == numbered(a, number) + numbered(b, number),
    decreases b.len(),
{
    if b.len() == 0 {
        assert(a + b =~= a);
        assert(numbered(a, number) + numbered(b, number) =~= numbered(a, number));
    } else {
        assert((a + b).drop_last() =~= a + b.drop_last());
        assert((a + b).last() == b.last());
        lemma_numbered_sum(a, b.drop_last(), number);
        assert(numbered(a + b, number) =~= numbered(a, number) + numbered(b, number));
    }
}

/// A list with one value that is counted or not.
proof fn lemma_numbered_one(value: AnyValue, number: int)
    ensures
        numbered(seq![value], number) == if type_of(content(value)) == number {
            seq![content(value)]
        } else {
            Seq::empty()
        },
{
    let one = seq![value];
    assert(one.drop_last() =~= Seq::<AnyValue>::empty());
    assert(one.last() == value);
    assert(numbered(one.drop_last(), number) =~= Seq::<Erased>::empty());
    assert(numbered(one, number) =~= if type_of(content(value)) == number {
        seq![content(value)]
    } else {
        Seq::empty()
    });
}

/// The place of a value among those whose type has the same number.
spec fn place(values: Seq<AnyValue>, i: int) -> int {
    numbered(values.take(i), type_of(content(values[i]))).len() as int
}

/// A value is at its place, the others are before and behind it.
proof fn lemma_split(values: Seq<AnyValue>, i: int, number: int)
    requires
        0 <= i < values.len(),
    ensures
        numbered(values, number) == numbered(values.take(i), number) + numbered(
            seq![values[i]],
            number,
        ) + numbered(values.skip(i + 1), number),
{
    assert(values =~= values.take(i) + seq![values[i]] + values.skip(i + 1));
    lemma_numbered_sum(values.take(i), seq![values[i]], number);
    lemma_numbered_sum(values.take(i) + seq![values[i]], values.skip(i + 1), number);
}

/// A value is at its place among those whose type has the same number.
proof fn lemma_at_place(values: Seq<AnyValue>, i: int)
    requires
        0 <= i < values.len(),
    ensures
        ({
            let list = numbered(values, type_of(content(values[i])));
            0 <= place(values, i) < list.len() && list[place(values, i)] == content(values[i])
        }),
{
    let number = type_of(content(values[i]));
    lemma_split(values, i, number);
    lemma_numbered_one(values[i], number);
}

/// Where no value has the number, none is counted.
proof fn lemma_none_numbered(values: Seq<AnyValue>, number: int)
    requires
        forall|j: int| 0 <= j < values.len() ==> type_of(content(#[trigger] values[j])) != number,
    ensures
        numbered(values, number).len() == 0,
    decreases values.len(),
{
    if values.len() > 0 {
        assert(values.last() == values[values.len() - 1]);
        assert forall|j: int| 0 <= j < values.len() - 1 implies type_of(
            content(#[trigger] values.drop_last()[j]),
        ) != number by {
            assert(values.drop_last()[j] == values[j]);
        }
        lemma_none_numbered(values.drop_last(), number);
    }
}

/// A value that takes the place of one of its number is where that one was.
proof fn lemma_replaced(values: Seq<AnyValue>, i: int)
    requires
        0 <= i < values.len(),
    ensures
        forall|value: AnyValue|
            type_of(content(value)) == type_of(content(values[i])) ==> by_number(
                #[trigger] values.update(i, value),
            ) == by_number(values).insert(
                type_of(content(value)),
                by_number(values)[type_of(content(value))].update(place(values, i), content(value)),
            ),
{
    assert forall|value: AnyValue|
        type_of(content(value)) == type_of(content(values[i])) implies by_number(
        #[trigger] values.update(i, value),
    ) == by_number(values).insert(
        type_of(content(value)),
        by_number(values)[type_of(content(value))].update(place(values, i), content(value)),
    ) by {
        let after = values.update(i, value);
        let number = type_of(content(value));
        assert(after.take(i) =~= values.take(i));
        assert(after.skip(i + 1) =~= values.skip(i + 1));
        lemma_at_place(values, i);
        assert forall|other: int| true implies numbered(after, other) == if other == number {
            numbered(values, number).update(place(values, i), content(value))
        } else {
            #[trigger] numbered(values, other)
        } by {
            lemma_split(values, i, other);
            lemma_split(after, i, other);
            lemma_numbered_one(values[i], other);
            lemma_numbered_one(value, other);
            if other == number {
                assert(numbered(after, other) =~= numbered(values, number).update(
                    place(values, i),
                    content(value),
                ));
            }
        }
        assert(by_number(after) =~= by_number(values).insert(
            number,
            by_number(values)[number].update(place(values, i), content(value)),
        ));
    }
}

/// A value at the end is behind the others of its number.
proof fn lemma_added(values: Seq<AnyValue>, value: AnyValue)
    ensures
        by_number(values.push(value)) == by_number(values).insert(
            type_of(content(value)),
            numbered(values, type_of(content(value))).push(content(value)),
        ),
{
    let after = values.push(value);
    assert(after.drop_last() =~= values);
    assert(after.last() == value);
    assert(by_number(after) =~= by_number(values).insert(
        type_of(content(value)),
        numbered(values, type_of(content(value))).push(content(value)),
    ));
}

/// Without one value, those of another number are the same.
proof fn lemma_taken_out(values: Seq<AnyValue>, i: int)
    requires
        0 <= i < values.len(),
    ensures
        by_number(values.remove(i)).remove(type_of(content(values[i]))) == by_number(values).remove(
            type_of(content(values[i])),
        ),
{
    let number = type_of(content(values[i]));
    let after = values.remove(i);
    assert(after =~= values.take(i) + values.skip(i + 1));
    assert forall|other: int| other != number implies numbered(after, other) == #[trigger] numbered(
        values,
        other,
    ) by {
        lemma_numbered_sum(values.take(i), values.skip(i + 1), other);
        lemma_split(values, i, other);
        lemma_numbered_one(values[i], other);
        assert(numbered(after, other) =~= numbered(values, other));
    }
    assert(by_number(after).remove(number) =~= by_number(values).remove(number));
}

impl AnyMap {
    /// A map without a value.
    pub fn new() -> (r: Self)
        ensures
            r@ == Map::<int, Seq<Erased>>::empty(),
    {
        let r = AnyMap { values: Vec::new() };
        assert(r@ =~= Map::<int, Seq<Erased>>::empty());
        r
    }

    /// The position of the value of type `T`.
    fn position<T: 'static>(&self) -> (r: Option<usize>)
        ensures
            match r {
                Some(i) => {
                    &&& i < self.values@.len()
                    &&& type_of(content(self.values@[i as int])) == type_number::<T>()
                    &&& may_be_at::<T>(place(self.values@, i as int))
                    &&& 0 <= place(self.values@, i as int) < held::<T>(self@).len()
                    &&& held::<T>(self@)[place(self.values@, i as int)] == content(
                        self.values@[i as int],
                    )
                },
                None => may_have_none::<T>(self@),
            },
    {
        let mut i: usize = 0;
        while i < self.values.len()
            invariant
                i <= self.values@.len(),
                is_one_type(type_number::<T>()) ==> forall|j: int|
                    0 <= j < i ==> type_of(content(#[trigger] self.values@[j])) != type_number::<
                        T,
                    >(),
            decreases self.values@.len() - i,
        {
            if any_ref::<T>(&self.values[i]).is_some() {
                proof {
                    lemma_at_place(self.values@, i as int);
                    if is_one_type(type_number::<T>()) {
                        let before = self.values@.take(i as int);
                        assert forall|j: int| 0 <= j < before.len() implies type_of(
                            content(#[trigger] before[j]),
                        ) != type_number::<T>() by {
                            assert(before[j] == self.values@[j]);
                        }
                        lemma_none_numbered(before, type_number::<T>());
                    }
                }
                return Some(i);
            }
            i += 1;
        }
        proof {
            if is_one_type(type_number::<T>()) {
                lemma_none_numbered(self.values@, type_number::<T>());
            }
        }
        None
    }

    /// The value of type `T`.
    pub fn get<T: 'static>(&self) -> (r: Option<&T>)
        ensures
            finds(
                self@,
                match r {
                    Some(data) => Some(*data),
                    None => None,
                },
            ),
    {
        match self.position::<T>() {
            Some(i) => {
                let r = any_ref::<T>(&self.values[i]);
                proof {
                    if let Some(data) = r {
                        assert(is_found_at(self@, *data, place(self.values@, i as int)));
                    }
                }
                r
            },
            None => None,
        }
    }

    /// The value of type `T`, to be changed.
    pub fn get_mut<T: 'static>(&mut self) -> (r: Option<&mut T>)
        ensures
            match r {
                Some(data) => changes(old(self)@, final(self)@, *data, *final(data)),
                None => may_have_none::<T>(old(self)@) && final(self)@ == old(self)@,
            },
    {
        match self.position::<T>() {
            Some(i) => {
                let ghost k = place(self.values@, i as int);
                proof {
                    let values = self.values@;
                    lemma_replaced(values, i as int);
                    assert(values.update(i as int, values[i as int]) =~= values);
                    assert forall|value: AnyValue, data: T, changed: T|
                        #![trigger values.update(i as int, value),
                            is_behind(content(values[i as int]), data), erased(changed)]
                        is_behind(content(values[i as int]), data) && content(value) == erased(
                            changed,
                        ) && type_of(content(value)) == type_number::<T>() implies changes(
                        by_number(values),
                        by_number(values.update(i as int, value)),
                        data,
                        changed,
                    ) by {
                        assert(replaces_at(
                            by_number(values),
                            by_number(values.update(i as int, value)),
                            changed,
                            k,
                        ));
                    }
                }
                any_mut::<T>(&mut self.values[i])
            },
            None => None,
        }
    }

    /// Sets the value of type `T`.
    pub fn insert<T: 'static>(&mut self, data: T)
        ensures
            sets(old(self)@, final(self)@, data),
    {
        match self.position::<T>() {
            Some(i) => {
                let ghost k = place(self.values@, i as int);
                proof {
                    lemma_replaced(self.values@, i as int);
                }
                self.values[i] = any_new(data);
                assert(replaces_at(old(self)@, self@, data, k));
            },
            None => {
                let value = any_new(data);
                proof {
                    lemma_added(self.values@, value);
                    assert(held::<T>(self@) =~= numbered(self.values@, type_number::<T>()));
                }
                self.values.push(value);
            },
        }
    }

    /// Takes the value of type `T` out, and says whether there was one.
    pub fn remove<T: 'static>(&mut self) -> (r: bool)
        ensures
            removes::<T>(old(self)@, final(self)@, r),
    {
        let mut r = false;
        let mut i: usize = 0;
        while i < self.values.len()
            invariant
                i <= self.values@.len(),
                self@.remove(type_number::<T>()) == old(self)@.remove(type_number::<T>()),
                is_one_type(type_number::<T>()) ==> forall|j: int|
                    0 <= j < i ==> type_of(content(#[trigger] self.values@[j])) != type_number::<
                        T,
                    >(),
                r ==> old(self)@.contains_key(type_number::<T>()),
                !r ==> self.values@ == old(self).values@,
            decreases self.values@.len() - i,
        {
            if any_ref::<T>(&self.values[i]).is_some() {
                proof {
                    lemma_taken_out(self.values@, i as int);
                    lemma_at_place(self.values@, i as int);
                }
                let _ = self.values.remove(i);
                r = true;
            } else {
                i += 1;
            }
        }
        proof {
            if is_one_type(type_number::<T>()) {
                lemma_none_numbered(self.values@, type_number::<T>());
                assert(self@ =~= self@.remove(type_number::<T>()));
            }
        }
        r
    }
}

} // verus!
