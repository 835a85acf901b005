//! The values that a program reads and makes.
use crate::path::{OwnedSegment, OwnedValuePath, Step};
use crate::table::Table;
use crate::value_regex::ValueRegex;
use vstd::prelude::*;

verus! {

/// The fields of an object.
pub type ObjectMap = Table<String, Value>;

/// A value.
#[derive(Debug)]
pub enum Value {
    Bytes(Vec<u8>),
    Regex(ValueRegex),
    Integer(i64),
    /// A number with a fraction, by the bits of its IEEE 754 form. Negative zero is held as zero,
    /// so that equal numbers have equal bits.
    Float(u64),
    Boolean(bool),
    /// A point in time, in nanoseconds since 1970 began.
    Timestamp(i128),
    Object(ObjectMap),
    Array(Vec<Value>),
    Null,
}

/// What a [`Value`] is.
#[verifier::ext_equal]
pub enum ValueModel {
    Bytes(Seq<u8>),
    Regex(Seq<char>),
    Integer(i64),
    Float(u64),
    Boolean(bool),
    Timestamp(i128),
    Object(Map<Seq<char>, ValueModel>),
    Array(Seq<ValueModel>),
    Null,
}

impl View for Value {
    type V = ValueModel;

    open spec fn view(&self) -> ValueModel
        decreases self,
    {
        match self {
            Value::Bytes(bytes) => ValueModel::Bytes(bytes@),
            Value::Regex(regex) => ValueModel::Regex(regex@),
            Value::Integer(integer) => ValueModel::Integer(*integer),
            Value::Float(bits) => ValueModel::Float(*bits),
            Value::Boolean(boolean) => ValueModel::Boolean(*boolean),
            Value::Timestamp(time) => ValueModel::Timestamp(*time),
            Value::Object(fields) => {
                proof {
                    assert forall|name: Seq<char>| fields@.contains_key(name) implies #[trigger]
                        decreases_to!(fields => fields@[name]) by {
                        fields.value_is_smaller(name);
                    }
                }
                ValueModel::Object(
                    Map::new(
                        |name: Seq<char>| fields@.contains_key(name),
                        |name: Seq<char>|
                            if fields@.contains_key(name) {
                                fields@[name]@
                            } else {
                                ValueModel::Null
                            },
                    ),
                )
            },
            Value::Array(items) => ValueModel::Array(
                Seq::new(
                    items@.len(),
                    |i: int|
                        if 0 <= i < items@.len() {
                            items@[i]@
                        } else {
                            ValueModel::Null
                        },
                ),
            ),
            Value::Null => ValueModel::Null,
        }
    }
}

/// What a value is follows from how it is held.
pub proof fn a_value_is_what_it_holds(
    bytes: Vec<u8>,
    regex: ValueRegex,
    integer: i64,
    bits: u64,
    boolean: bool,
    time: i128,
)
    ensures
        Value::Bytes(bytes)@ == ValueModel::Bytes(bytes@),
        Value::Regex(regex)@ == ValueModel::Regex(regex@),
        Value::Integer(integer)@ == ValueModel::Integer(integer),
        Value::Float(bits)@ == ValueModel::Float(bits),
        Value::Boolean(boolean)@ == ValueModel::Boolean(boolean),
        Value::Timestamp(time)@ == ValueModel::Timestamp(time),
        Value::Null@ == ValueModel::Null,
{
}

/// An array is its items, in their order, and an object is its fields.
pub proof fn a_collection_is_its_members(items: Vec<Value>, fields: ObjectMap)
    ensures
        Value::Array(items)@ matches ValueModel::Array(s) && s.len() == items@.len() && forall|
            j: int,
        |
            0 <= j < items@.len() ==> #[trigger] s[j] == items@[j]@,
        Value::Object(fields)@ matches ValueModel::Object(m) && m.dom() == fields@.dom() && forall|
            name: Seq<char>,
        |
            fields@.contains_key(name) ==> #[trigger] m[name] == fields@[name]@,
{
    lemma_array_view(items);
    lemma_object_view(fields);
}

/// What an array is, item by item.
pub(crate) proof fn lemma_array_view(items: Vec<Value>)
    ensures
        Value::Array(items)@ matches ValueModel::Array(s) && s.len() == items@.len() && forall|
            j: int,
        |
            0 <= j < items@.len() ==> #[trigger] s[j] == items@[j]@,
{
    reveal_with_fuel(<Value as View>::view, 2);
}

/// What an object is, field by field.
pub(crate) proof fn lemma_object_view(fields: ObjectMap)
    ensures
        Value::Object(fields)@ matches ValueModel::Object(m) && m.dom() == fields@.dom() && forall|
            name: Seq<char>,
        |
            fields@.contains_key(name) ==> #[trigger] m[name] == fields@[name]@,
{
    reveal_with_fuel(<Value as View>::view, 2);
    assert(Value::Object(fields)@->Object_0.dom() =~= fields@.dom());
}

impl Clone for Value {
    fn clone(&self) -> (r: Self)
        ensures
            r@ == self@,
        decreases self,
    {
        match self {
            Value::Bytes(bytes) => {
                let mut copy: Vec<u8> = Vec::new();
                let mut i: usize = 0;
                while i < bytes.len()
                    invariant
                        i <= bytes@.len(),
                        copy@ == bytes@.take(i as int),
                    decreases bytes@.len() - i,
                {
                    copy.push(bytes[i]);
                    i += 1;
                    assert(copy@ =~= bytes@.take(i as int));
                }
                assert(copy@ =~= bytes@);
                Value::Bytes(copy)
            },
            Value::Regex(regex) => Value::Regex(regex.clone()),
            Value::Integer(integer) => Value::Integer(*integer),
            Value::Float(bits) => Value::Float(*bits),
            Value::Boolean(boolean) => Value::Boolean(*boolean),
            Value::Timestamp(time) => Value::Timestamp(*time),
            Value::Object(fields) => {
                let count: usize = fields.len();
                let mut copy: ObjectMap = Table::new();
                let mut i: usize = 0;
                while i < count
                    invariant
                        i <= count == fields.order().len(),
                        fields.order().no_duplicates(),
                        fields.order().to_set() == fields@.dom(),
                        copy@.dom() =~= fields.order().take(i as int).to_set(),
                        forall|name: Seq<char>| #[trigger]
                            copy@.contains_key(name) ==> fields@.contains_key(name)
                                && copy@[name]@ == fields@[name]@,
                        decreases_to!(self => fields),
                    decreases count - i,
                {
                    let (name, field) = fields.entry(i);
                    proof {
                        fields.value_is_smaller(name@);
                        assert(fields.order().take(i + 1) =~= fields.order().take(i as int).push(
                            name@,
                        ));
                    }
                    let _ = copy.insert(name.clone(), field.clone());
                    proof {
                        lemma_push_to_set(fields.order().take(i as int), name@);
                    }
                    i += 1;
                }
                assert(fields.order().take(count as int) =~= fields.order());
                let r = Value::Object(copy);
                proof {
                    lemma_object_view(copy);
                    lemma_object_view(*fields);
                }
                assert(r@->Object_0 =~= self@->Object_0);
                r
            },
            Value::Array(items) => {
                let mut copy: Vec<Value> = Vec::new();
                let mut i: usize = 0;
                while i < items.len()
                    invariant
                        i <= items@.len(),
                        copy@.len() == i,
                        forall|j: int| 0 <= j < i ==> #[trigger] copy@[j]@ == items@[j]@,
                        decreases_to!(self => items),
                    decreases items@.len() - i,
                {
                    proof {
                        assert(decreases_to!(items@ => items@[i as int]));
                    }
                    copy.push(items[i].clone());
                    i += 1;
                }
                let r = Value::Array(copy);
                proof {
                    lemma_array_view(copy);
                    lemma_array_view(*items);
                }
                assert forall|j: int| 0 <= j < items@.len() implies r@->Array_0[j]
                    == self@->Array_0[j] by {
                    assert(copy@[j]@ == items@[j]@);
                }
                assert(r@->Array_0 =~= self@->Array_0);
                r
            },
            Value::Null => Value::Null,
        }
    }
}

/// The value at one step into `value`, if there is one.
pub open spec fn child(value: ValueModel, step: Step) -> Option<ValueModel> {
    match (value, step) {
        (ValueModel::Object(fields), Step::Field(name)) => if fields.contains_key(name) {
            Some(fields[name])
        } else {
            None
        },
        (ValueModel::Array(items), Step::Index(index)) => {
            let i = if index < 0 {
                items.len() + index
            } else {
                index
            };
            if 0 <= i < items.len() {
                Some(items[i])
            } else {
                None
            }
        },
        _ => None,
    }
}

/// The value at `path` in `value`, if there is one.
pub open spec fn lookup(value: ValueModel, path: Seq<Step>) -> Option<ValueModel>
    decreases path.len(),
{
    if path.len() == 0 {
        Some(value)
    } else {
        match child(value, path[0]) {
            Some(next) => lookup(next, path.drop_first()),
            None => None,
        }
    }
}

/// The value at `path` in `value`, or null where there is none.
pub open spec fn leaf(value: ValueModel, path: Seq<Step>) -> ValueModel {
    match lookup(value, path) {
        Some(found) => found,
        None => ValueModel::Null,
    }
}

/// A path without a step finds the value itself.
pub proof fn the_root_is_found(value: ValueModel)
    ensures
        lookup(value, Seq::empty()) == Some(value),
        leaf(value, Seq::empty()) == value,
{
}

/// An index finds the item at that position, counted from the start, or from the end if it is
/// negative. There is nothing before the first item and behind the last one.
pub proof fn an_index_finds_an_item(items: Seq<ValueModel>, index: int)
    ensures
        0 <= index < items.len() ==> lookup(
            ValueModel::Array(items),
            seq![Step::Index(index)],
        ) == Some(items[index]),
        -items.len() <= index < 0 ==> lookup(
            ValueModel::Array(items),
            seq![Step::Index(index)],
        ) == Some(items[items.len() + index]),
        index >= items.len() || index < -items.len() ==> lookup(
            ValueModel::Array(items),
            seq![Step::Index(index)],
        ) is None,
{
    let path = seq![Step::Index(index)];
    assert(path.drop_first() =~= Seq::<Step>::empty());
    if let Some(found) = child(ValueModel::Array(items), path[0]) {
        assert(lookup(found, path.drop_first()) == Some(found));
    }
}

/// A name finds the field with that name.
pub proof fn a_name_finds_a_field(fields: Map<Seq<char>, ValueModel>, name: Seq<char>)
    ensures
        fields.contains_key(name) ==> lookup(ValueModel::Object(fields), seq![Step::Field(name)])
            == Some(fields[name]),
        !fields.contains_key(name) ==> lookup(
            ValueModel::Object(fields),
            seq![Step::Field(name)],
        ) is None,
{
    let path = seq![Step::Field(name)];
    assert(path.drop_first() =~= Seq::<Step>::empty());
    if fields.contains_key(name) {
        assert(lookup(fields[name], path.drop_first()) == Some(fields[name]));
    }
}

/// A name finds something only in an object, an index only in an array.
pub proof fn only_collections_have_members(value: ValueModel, step: Step, more: Seq<Step>)
    requires
        lookup(value, seq![step] + more) is Some,
    ensures
        step is Field ==> value is Object,
        step is Index ==> value is Array,
{
    assert((seq![step] + more)[0] == step);
}

/// Where a path finds nothing, null is read.
pub proof fn what_is_not_found_is_null(value: ValueModel, path: Seq<Step>)
    ensures
        lookup(value, path) is None ==> leaf(value, path) == ValueModel::Null,
        lookup(value, path) matches Some(found) ==> leaf(value, path) == found,
{
}

impl Value {
    fn child(&self, segment: &OwnedSegment) -> (r: Option<&Value>)
        ensures
            match r {
                Some(found) => child(self@, segment@) == Some(found@),
                None => child(self@, segment@) is None,
            },
    {
        match (self, segment) {
            (Value::Object(fields), OwnedSegment::Field(name)) => {
                proof {
                    lemma_object_view(*fields);
                }
                fields.get(name)
            },
            (Value::Array(items), OwnedSegment::Index(index)) => {
                proof {
                    lemma_array_view(*items);
                }
                let len: usize = items.len();
                if *index >= 0 {
                    let i: usize = *index as usize;
                    if i < len {
                        Some(&items[i])
                    } else {
                        None
                    }
                } else {
                    let back: u128 = (-(*index as i128)) as u128;
                    if back <= len as u128 {
                        Some(&items[len - back as usize])
                    } else {
                        None
                    }
                }
            },
            _ => None,
        }
    }

    /// The value at `path`. It is borrowed from this value: nothing is copied.
    pub fn get(&self, path: &OwnedValuePath) -> (r: Option<&Value>)
        ensures
            match r {
                Some(found) => lookup(self@, path@) == Some(found@),
                None => lookup(self@, path@) is None,
            },
    {
        let mut current: &Value = self;
        let mut i: usize = 0;
        assert(path@.skip(0) =~= path@);
        while i < path.segments.len()
            invariant
                i <= path.segments@.len(),
                lookup(self@, path@) == lookup(current@, path@.skip(i as int)),
            decreases path.segments@.len() - i,
        {
            proof {
                assert(path@.skip(i as int)[0] == path.segments@[i as int]@);
                assert(path@.skip(i as int).drop_first() =~= path@.skip(i + 1));
            }
            match current.child(&path.segments[i]) {
                Some(next) => {
                    current = next;
                },
                None => {
                    return None;
                },
            }
            i += 1;
        }
        Some(current)
    }

    /// Whether the two values are the same value.
    fn same(&self, other: &Value) -> (r: bool)
        ensures
            r == (self@ == other@),
        decreases self,
    {
        match (self, other) {
            (Value::Bytes(a), Value::Bytes(b)) => {
                assert(self@ == ValueModel::Bytes(a@) && other@ == ValueModel::Bytes(b@));
                if a.len() != b.len() {
                    return false;
                }
                let mut i: usize = 0;
                while i < a.len()
                    invariant
                        i <= a@.len() == b@.len(),
                        self@ == ValueModel::Bytes(a@),
                        other@ == ValueModel::Bytes(b@),
                        forall|j: int| 0 <= j < i ==> a@[j] == b@[j],
                    decreases a@.len() - i,
                {
                    if a[i] != b[i] {
                        assert(a@[i as int] != b@[i as int]);
                        return false;
                    }
                    i += 1;
                }
                assert(a@ =~= b@);
                true
            },
            (Value::Regex(a), Value::Regex(b)) => *a == *b,
            (Value::Integer(a), Value::Integer(b)) => *a == *b,
            (Value::Float(a), Value::Float(b)) => *a == *b,
            (Value::Boolean(a), Value::Boolean(b)) => *a == *b,
            (Value::Timestamp(a), Value::Timestamp(b)) => *a == *b,
            (Value::Object(a), Value::Object(b)) => Value::same_fields(a, b),
            (Value::Array(a), Value::Array(b)) => {
                proof {
                    lemma_array_view(*a);
                    lemma_array_view(*b);
                }
                if a.len() != b.len() {
                    return false;
                }
                let mut i: usize = 0;
                while i < a.len()
                    invariant
                        i <= a@.len() == b@.len(),
                        self@->Array_0.len() == a@.len(),
                        other@->Array_0.len() == b@.len(),
                        self@ is Array,
                        other@ is Array,
                        forall|j: int| 0 <= j < a@.len() ==> self@->Array_0[j] == a@[j]@,
                        forall|j: int| 0 <= j < a@.len() ==> other@->Array_0[j] == b@[j]@,
                        forall|j: int| 0 <= j < i ==> #[trigger] a@[j]@ == b@[j]@,
                        decreases_to!(self => a),
                    decreases a@.len() - i,
                {
                    proof {
                        assert(decreases_to!(a@ => a@[i as int]));
                    }
                    if !a[i].same(&b[i]) {
                        assert(self@->Array_0[i as int] != other@->Array_0[i as int]);
                        return false;
                    }
                    i += 1;
                }
                assert forall|j: int| 0 <= j < a@.len() implies self@->Array_0[j]
                    == other@->Array_0[j] by {
                    assert(a@[j]@ == b@[j]@);
                }
                assert(self@->Array_0 =~= other@->Array_0);
                true
            },
            (Value::Null, Value::Null) => true,
            _ => false,
        }
    }

    fn same_fields(a: &ObjectMap, b: &ObjectMap) -> (r: bool)
        ensures
            r == (Value::Object(*a)@ == Value::Object(*b)@),
        decreases a,
    {
        proof {
            lemma_object_view(*a);
            lemma_object_view(*b);
        }
        let ghost left = Value::Object(*a)@->Object_0;
        let ghost right = Value::Object(*b)@->Object_0;
        let count: usize = a.len();
        let other_count: usize = b.len();
        if count != other_count {
            return false;
        }
        let mut i: usize = 0;
        while i < count
            invariant
                i <= count == a.order().len(),
                a.order().to_set() == a@.dom(),
                left == Value::Object(*a)@->Object_0,
                right == Value::Object(*b)@->Object_0,
                left.dom() == a@.dom(),
                right.dom() == b@.dom(),
                forall|name: Seq<char>|
                    a@.contains_key(name) ==> #[trigger] left[name] == a@[name]@,
                forall|name: Seq<char>|
                    b@.contains_key(name) ==> #[trigger] right[name] == b@[name]@,
                forall|j: int|
                    0 <= j < i ==> b@.contains_key(#[trigger] a.order()[j]) && left[a.order()[j]]
                        == right[a.order()[j]],
            decreases count - i,
        {
            let (name, field) = a.entry(i);
            proof {
                a.value_is_smaller(name@);
                assert(left.contains_key(name@));
            }
            match b.get(name) {
                Some(other_field) => {
                    if !field.same(other_field) {
                        assert(left[name@] != right[name@]);
                        return false;
                    }
                },
                None => {
                    return false;
                },
            }
            i += 1;
        }
        assert forall|name: Seq<char>| a@.contains_key(name) implies b@.contains_key(name)
            && left[name] == right[name] by {
            assert(a.order().to_set().contains(name));
            let j = choose|j: int| 0 <= j < a.order().len() && a.order()[j] == name;
            assert(b@.contains_key(a.order()[j]));
        }
        proof {
            assert(a@.dom().subset_of(b@.dom()));
            vstd::set_lib::lemma_subset_equality(a@.dom(), b@.dom());
            assert(left =~= right);
        }
        true
    }
}

impl vstd::std_specs::cmp::PartialEqSpecImpl for Value {
    open spec fn obeys_eq_spec() -> bool {
        true
    }

    open spec fn eq_spec(&self, other: &Self) -> bool {
        self@ == other@
    }
}

impl PartialEq for Value {
    fn eq(&self, other: &Self) -> (r: bool) {
        self.same(other)
    }
}

impl vstd::std_specs::convert::FromSpecImpl<i64> for Value {
    open spec fn obeys_from_spec() -> bool {
        true
    }

    open spec fn from_spec(integer: i64) -> Value {
        Value::Integer(integer)
    }
}

impl From<i64> for Value {
    fn from(integer: i64) -> (r: Value) {
        Value::Integer(integer)
    }
}

impl vstd::std_specs::convert::FromSpecImpl<bool> for Value {
    open spec fn obeys_from_spec() -> bool {
        true
    }

    open spec fn from_spec(boolean: bool) -> Value {
        Value::Boolean(boolean)
    }
}

impl From<bool> for Value {
    fn from(boolean: bool) -> (r: Value) {
        Value::Boolean(boolean)
    }
}

impl vstd::std_specs::convert::FromSpecImpl<Vec<Value>> for Value {
    open spec fn obeys_from_spec() -> bool {
        true
    }

    open spec fn from_spec(items: Vec<Value>) -> Value {
        Value::Array(items)
    }
}

impl From<Vec<Value>> for Value {
    fn from(items: Vec<Value>) -> (r: Value) {
        Value::Array(items)
    }
}

impl vstd::std_specs::convert::FromSpecImpl<ObjectMap> for Value {
    open spec fn obeys_from_spec() -> bool {
        true
    }

    open spec fn from_spec(fields: ObjectMap) -> Value {
        Value::Object(fields)
    }
}

impl From<ObjectMap> for Value {
    fn from(fields: ObjectMap) -> (r: Value) {
        Value::Object(fields)
    }
}

/// The set of a sequence with one more item.
pub(crate) proof fn lemma_push_to_set<A>(s: Seq<A>, a: A)
    ensures
        s.push(a).to_set() == s.to_set().insert(a),
{
    let t = s.push(a);
    assert forall|x: A| t.to_set().contains(x) <==> s.to_set().insert(a).contains(x) by {
        if s.contains(x) {
            let i = choose|i: int| 0 <= i < s.len() && s[i] == x;
            assert(t[i] == x);
        }
        assert(t[s.len() as int] == a);
        if t.contains(x) && x != a {
            let i = choose|i: int| 0 <= i < t.len() && t[i] == x;
            assert(s[i] == x);
        }
    }
    assert(t.to_set() =~= s.to_set().insert(a));
}

} // verus!
