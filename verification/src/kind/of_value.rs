//! The kind of a value.
use crate::kind::shape;
use crate::kind::shape::{CollectionModel, Place, Shape};
use crate::kind::types::Types;
use crate::kind::{Collection, Kind, Position, Unknown};
use crate::table::{Key, Table};
use crate::value::{ObjectMap, Value, ValueModel};
use vstd::prelude::*;

verus! {

/// The type of a value, as a set of one.
pub open spec fn type_of(value: ValueModel) -> Types {
    match value {
        ValueModel::Bytes(_) => Types { bytes: true, ..Types::none() },
        ValueModel::Regex(_) => Types { regex: true, ..Types::none() },
        ValueModel::Integer(_) => Types { integer: true, ..Types::none() },
        ValueModel::Float(_) => Types { float: true, ..Types::none() },
        ValueModel::Boolean(_) => Types { boolean: true, ..Types::none() },
        ValueModel::Timestamp(_) => Types { timestamp: true, ..Types::none() },
        ValueModel::Object(_) => Types { object: true, ..Types::none() },
        ValueModel::Array(_) => Types { array: true, ..Types::none() },
        ValueModel::Null => Types { null: true, ..Types::none() },
    }
}

/// What is at a place in a value, where the place is one in such a value: a value, or nothing.
pub open spec fn member_of(value: ValueModel, place: Place) -> Option<Option<ValueModel>> {
    match (value, place) {
        (ValueModel::Object(fields), Place::Field(name)) => Some(
            if fields.contains_key(name) {
                Some(fields[name])
            } else {
                None
            },
        ),
        (ValueModel::Array(items), Place::Item(i)) => Some(
            if i < items.len() {
                Some(items[i as int])
            } else {
                None
            },
        ),
        _ => None,
    }
}

/// The type of what is at a place below a value.
pub open spec fn type_at(value: ValueModel, at: Seq<Place>) -> Types
    decreases at.len(),
{
    if at.len() == 0 {
        type_of(value)
    } else {
        match member_of(value, at[0]) {
            Some(Some(member)) => type_at(member, at.drop_first()),
            Some(None) => shape::missing()(at.drop_first()),
            None => Types::none(),
        }
    }
}

/// The shape of one value.
pub open spec fn shape_of(value: ValueModel) -> Shape {
    |at: Seq<Place>| type_at(value, at)
}

/// The shape of an array, item by item.
proof fn lemma_array_shape(items: Seq<ValueModel>, members: CollectionModel<nat>)
    requires
        forall|i: nat| #[trigger]
            members.at(i) == (if i < items.len() {
                shape_of(items[i as int])
            } else {
                shape::missing()
            }),
    ensures
        shape::compose(Types { array: true, ..Types::none() }, Some(members), None) == shape_of(
            ValueModel::Array(items),
        ),
{
    let left = shape::compose(Types { array: true, ..Types::none() }, Some(members), None);
    let right = shape_of(ValueModel::Array(items));
    assert forall|at: Seq<Place>| #[trigger] left(at) == right(at) by {
        if at.len() > 0 {
            match at[0] {
                Place::Item(i) => {
                    assert(members.at(i) == (if i < items.len() {
                        shape_of(items[i as int])
                    } else {
                        shape::missing()
                    }));
                },
                Place::Field(_) => {},
            }
        }
    }
    assert(left =~= right);
}

/// The shape of an object, field by field.
proof fn lemma_object_shape(
    fields: Map<Seq<char>, ValueModel>,
    members: CollectionModel<Seq<char>>,
)
    requires
        forall|name: Seq<char>| #[trigger]
            members.at(name) == (if fields.contains_key(name) {
                shape_of(fields[name])
            } else {
                shape::missing()
            }),
    ensures
        shape::compose(Types { object: true, ..Types::none() }, None, Some(members)) == shape_of(
            ValueModel::Object(fields),
        ),
{
    let left = shape::compose(Types { object: true, ..Types::none() }, None, Some(members));
    let right = shape_of(ValueModel::Object(fields));
    assert forall|at: Seq<Place>| #[trigger] left(at) == right(at) by {
        if at.len() > 0 {
            match at[0] {
                Place::Field(name) => {
                    assert(members.at(name) == (if fields.contains_key(name) {
                        shape_of(fields[name])
                    } else {
                        shape::missing()
                    }));
                },
                Place::Item(_) => {},
            }
        }
    }
    assert(left =~= right);
}

impl Kind {
    /// The kind of this value alone, as far as kinds go.
    pub fn of(value: &Value) -> (r: Kind)
        ensures
            r@ == shape_of(value@),
        decreases value,
    {
        let types = match value {
            Value::Bytes(_) => Types { bytes: true, ..Types::empty() },
            Value::Regex(_) => Types { regex: true, ..Types::empty() },
            Value::Integer(_) => Types { integer: true, ..Types::empty() },
            Value::Float(_) => Types { float: true, ..Types::empty() },
            Value::Boolean(_) => Types { boolean: true, ..Types::empty() },
            Value::Timestamp(_) => Types { timestamp: true, ..Types::empty() },
            Value::Object(fields) => {
                let members = Kind::of_fields(fields);
                proof {
                    crate::value::lemma_object_view(*fields);
                    lemma_object_shape(value@->Object_0, members@);
                }
                return Kind::object(members);
            },
            Value::Array(items) => {
                let members = Kind::of_items(items);
                proof {
                    crate::value::lemma_array_view(*items);
                    lemma_array_shape(value@->Array_0, members@);
                }
                return Kind::array(members);
            },
            Value::Null => Types { null: true, ..Types::empty() },
        };
        let r = super::scalar(types);
        assert(r@ =~= shape_of(value@));
        r
    }

    fn of_fields(fields: &ObjectMap) -> (r: Collection<String>)
        ensures
            forall|name: Seq<char>| #[trigger]
                r@.at(name) == (if fields@.contains_key(name) {
                    shape_of(fields@[name]@)
                } else {
                    shape::missing()
                }),
        decreases fields,
    {
        let count: usize = fields.len();
        let mut known: Table<String, Kind> = Table::new();
        let mut i: usize = 0;
        while i < count
            invariant
                i <= count == fields.order().len(),
                fields.order().to_set() == fields@.dom(),
                known@.dom() =~= fields.order().take(i as int).to_set(),
                forall|name: Seq<char>| #[trigger]
                    known@.contains_key(name) ==> fields@.contains_key(name) && known@[name]@
                        == shape_of(fields@[name]@),
            decreases count - i,
        {
            let (name, field) = fields.entry(i);
            proof {
                fields.value_is_smaller(name@);
                super::lemma_take_to_set(fields.order(), i as int);
            }
            let _ = known.insert(name.clone(), Kind::of(field));
            i += 1;
        }
        proof {
            assert(fields.order().take(count as int) =~= fields.order());
        }
        closed(known)
    }

    fn of_items(items: &Vec<Value>) -> (r: Collection<Position>)
        ensures
            forall|i: nat| #[trigger]
                r@.at(i) == (if i < items@.len() {
                    shape_of(items@[i as int]@)
                } else {
                    shape::missing()
                }),
        decreases items,
    {
        let mut known: Table<Position, Kind> = Table::new();
        let mut i: usize = 0;
        while i < items.len()
            invariant
                i <= items@.len(),
                forall|j: nat| #[trigger] known@.contains_key(j) <==> j < i,
                forall|j: nat| #[trigger]
                    known@.contains_key(j) ==> known@[j]@ == shape_of(items@[j as int]@),
            decreases items@.len() - i,
        {
            proof {
                assert(decreases_to!(items@ => items@[i as int]));
            }
            let _ = known.insert(Position(i), Kind::of(&items[i]));
            i += 1;
        }
        closed(known)
    }
}

/// The collection of these members, and no others.
fn closed<K: Key>(known: Table<K, Kind>) -> (r: Collection<K>)
    ensures
        forall|key: K::V| #[trigger]
            r@.at(key) == (if known@.contains_key(key) {
                known@[key]@
            } else {
                shape::missing()
            }),
{
    let r = Collection { known, unknown: Unknown::Exact(Box::new(Kind::undefined())) };
    proof {
        super::lemma_unknown_view(r.unknown);
        assert(r@.unknown =~= shape::missing());
    }
    r
}

} // verus!
