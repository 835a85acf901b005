//! Whether two kinds are the same.
use crate::kind::shape;
use crate::kind::shape::{CollectionModel, Place, Shape};
use crate::kind::types::Types;
use crate::kind::{Collection, Kind, Unknown};
use crate::table::Key;
use vstd::prelude::*;

verus! {

/// The shape of a value that may be missing where `missing` is set.
spec fn optional(shape: Shape, missing: bool) -> Shape {
    if missing {
        shape::maybe_missing(shape)
    } else {
        shape
    }
}

/// Whether two collections say the same of each member.
spec fn same_model<K>(a: CollectionModel<K>, b: CollectionModel<K>) -> bool {
    forall|key: K| #[trigger] a.at(key) == b.at(key)
}

/// Whether there are the same collections, or none.
spec fn same_members<K>(a: Option<CollectionModel<K>>, b: Option<CollectionModel<K>>) -> bool {
    match (a, b) {
        (Some(a), Some(b)) => same_model(a, b),
        (None, None) => true,
        _ => false,
    }
}

/// Two kinds say the same if their tops and their collections do.
proof fn lemma_same_kind(a: Kind, a_missing: bool, b: Kind, b_missing: bool)
    ensures
        optional(a@, a_missing) == optional(b@, b_missing) <==> {
            &&& shape::top(optional(a@, a_missing)) == shape::top(optional(b@, b_missing))
            &&& same_members(super::model(a.array), super::model(b.array))
            &&& same_members(super::model(a.object), super::model(b.object))
        },
{
    let left = optional(a@, a_missing);
    let right = optional(b@, b_missing);
    let fields = (super::model(a.object), super::model(b.object));
    let items = (super::model(a.array), super::model(b.array));
    super::lemma_kind_view(a);
    super::lemma_kind_view(b);
    if left == right {
        assert(shape::top(left).array == items.0 is Some);
        assert(shape::top(left).object == fields.0 is Some);
        assert(shape::top(right).array == items.1 is Some);
        assert(shape::top(right).object == fields.1 is Some);
        if let (Some(x), Some(y)) = fields {
            assert forall|name: Seq<char>| #[trigger] x.at(name) == y.at(name) by {
                assert forall|at: Seq<Place>| #[trigger] (x.at(name))(at) == (y.at(name))(at) by {
                    let whole = seq![Place::Field(name)] + at;
                    assert(whole.drop_first() =~= at);
                    assert(left(whole) == right(whole));
                }
                assert(x.at(name) =~= y.at(name));
            }
        }
        if let (Some(x), Some(y)) = items {
            assert forall|i: nat| #[trigger] x.at(i) == y.at(i) by {
                assert forall|at: Seq<Place>| #[trigger] (x.at(i))(at) == (y.at(i))(at) by {
                    let whole = seq![Place::Item(i)] + at;
                    assert(whole.drop_first() =~= at);
                    assert(left(whole) == right(whole));
                }
                assert(x.at(i) =~= y.at(i));
            }
        }
        assert(same_members(items.0, items.1));
        assert(same_members(fields.0, fields.1));
    }
    if shape::top(left) == shape::top(right) && same_members(items.0, items.1) && same_members(
        fields.0,
        fields.1,
    ) {
        assert forall|at: Seq<Place>| #[trigger] left(at) == right(at) by {
            if at.len() == 0 {
                assert(at =~= Seq::<Place>::empty());
            } else {
                match at[0] {
                    Place::Field(name) => {
                        if let (Some(x), Some(y)) = fields {
                            assert(x.at(name) == y.at(name));
                        }
                    },
                    Place::Item(i) => {
                        if let (Some(x), Some(y)) = items {
                            assert(x.at(i) == y.at(i));
                        }
                    },
                }
            }
        }
        assert(left =~= right);
    }
}

/// Nothing is known of a value if nothing is known of its type and of its members.
proof fn lemma_anything(kind: Kind, missing: bool)
    ensures
        optional(kind@, missing) == shape::anything() <==> {
            &&& shape::top(optional(kind@, missing)) == Types::all()
            &&& kind.array is Some
            &&& shape::all_anything(kind.array->0@)
            &&& kind.object is Some
            &&& shape::all_anything(kind.object->0@)
        },
{
    let shape = optional(kind@, missing);
    super::lemma_kind_members(kind);
    super::lemma_kind_view(kind);
    if shape == shape::anything() {
        assert(shape::top(shape) == Types::all());
        assert forall|i: nat| #[trigger] kind.array->0@.at(i) == shape::anything() by {
            assert(shape::below(kind@, Place::Item(i)) =~= shape::anything()) by {
                assert forall|at: Seq<Place>| #[trigger]
                    shape::below(kind@, Place::Item(i))(at) == Types::all() by {
                    assert(shape(seq![Place::Item(i)] + at) == Types::all());
                }
            }
        }
        assert forall|name: Seq<char>| #[trigger]
            kind.object->0@.at(name) == shape::anything() by {
            assert(shape::below(kind@, Place::Field(name)) =~= shape::anything()) by {
                assert forall|at: Seq<Place>| #[trigger]
                    shape::below(kind@, Place::Field(name))(at) == Types::all() by {
                    assert(shape(seq![Place::Field(name)] + at) == Types::all());
                }
            }
        }
    }
    if shape::top(shape) == Types::all() && kind.array is Some && shape::all_anything(
        kind.array->0@,
    ) && kind.object is Some && shape::all_anything(kind.object->0@) {
        assert forall|at: Seq<Place>| #[trigger] shape(at) == Types::all() by {
            if at.len() == 0 {
                assert(at =~= Seq::<Place>::empty());
            } else {
                match at[0] {
                    Place::Field(name) => {
                        assert(kind.object->0@.at(name) == shape::anything());
                    },
                    Place::Item(i) => {
                        assert(kind.array->0@.at(i) == shape::anything());
                    },
                }
            }
        }
        assert(shape =~= shape::anything());
    }
}

impl Kind {
    /// Whether nothing is known of a value of this kind, that may be missing where `missing` is
    /// set.
    fn is_anything(&self, missing: bool) -> (r: bool)
        ensures
            r == (optional(self@, missing) == shape::anything()),
        decreases self, 0nat,
    {
        let array = match &self.array {
            Some(items) => items.is_any(),
            None => false,
        };
        let object = match &self.object {
            Some(fields) => fields.is_any(),
            None => false,
        };
        proof {
            lemma_anything(*self, missing);
            super::lemma_kind_members(*self);
        }
        let types = self.types();
        array && object && Types { undefined: types.undefined || missing, ..types } == Types::full()
    }

    /// Whether the two kinds are the same, where each may be missing.
    fn same(&self, missing: bool, other: &Kind, other_missing: bool) -> (r: bool)
        ensures
            r == (optional(self@, missing) == optional(other@, other_missing)),
        decreases self, 0nat,
    {
        let array = match (&self.array, &other.array) {
            (Some(a), Some(b)) => a.same(b),
            (None, None) => true,
            _ => false,
        };
        let object = match (&self.object, &other.object) {
            (Some(a), Some(b)) => a.same(b),
            (None, None) => true,
            _ => false,
        };
        proof {
            lemma_same_kind(*self, missing, *other, other_missing);
            super::lemma_kind_members(*self);
            super::lemma_kind_members(*other);
        }
        assert(array == same_members(super::model(self.array), super::model(other.array)));
        assert(object == same_members(super::model(self.object), super::model(other.object)));
        let a = self.types();
        let b = other.types();
        array && object && Types { undefined: a.undefined || missing, ..a } == Types {
            undefined: b.undefined || other_missing,
            ..b
        }
    }
}

impl Unknown {
    fn is_anything(&self) -> (r: bool)
        ensures
            r == (self@ == shape::anything()),
        decreases self, 0nat,
    {
        proof {
            super::lemma_unknown_view(*self);
        }
        match self {
            Unknown::Exact(kind) => kind.is_anything(true),
            Unknown::Anything => true,
        }
    }

    fn same_as_known(&self, kind: &Kind) -> (r: bool)
        ensures
            r == (self@ == kind@),
        decreases self, 0nat,
    {
        proof {
            super::lemma_unknown_view(*self);
        }
        match self {
            Unknown::Exact(exact) => exact.same(true, kind, false),
            Unknown::Anything => kind.is_anything(false),
        }
    }

    fn same(&self, other: &Unknown) -> (r: bool)
        ensures
            r == (self@ == other@),
        decreases self, 0nat,
    {
        proof {
            super::lemma_unknown_view(*self);
            super::lemma_unknown_view(*other);
        }
        match (self, other) {
            (Unknown::Exact(a), Unknown::Exact(b)) => a.same(true, b, true),
            (Unknown::Anything, _) => other.is_anything(),
            (_, Unknown::Anything) => self.is_anything(),
        }
    }
}

impl<K: Key> Collection<K> {
    /// Whether nothing is known of any member.
    pub fn is_any(&self) -> (r: bool)
        ensures
            r == shape::all_anything(self@),
        decreases self, 0nat,
    {
        let count: usize = self.known.len();
        if !self.unknown.is_anything() {
            proof {
                let key = K::unused(self.known@.dom());
                assert(self@.at(key) != shape::anything());
            }
            return false;
        }
        let mut i: usize = 0;
        while i < count
            invariant
                i <= count == self.known.order().len(),
                forall|j: int|
                    0 <= j < i ==> #[trigger] self@.at(self.known.order()[j]) == shape::anything(),
            decreases count - i,
        {
            let (key, kind) = self.known.entry(i);
            proof {
                self.known.value_is_smaller(key@);
                assert(self@.at(key@) == kind@);
            }
            if !kind.is_anything(false) {
                return false;
            }
            i += 1;
        }
        proof {
            assert forall|key: K::V| #[trigger] self@.at(key) == shape::anything() by {
                if self.known@.contains_key(key) {
                    assert(self.known.order().to_set().contains(key));
                    let j = choose|j: int|
                        0 <= j < self.known.order().len() && self.known.order()[j] == key;
                    assert(self@.at(self.known.order()[j]) == shape::anything());
                }
            }
        }
        true
    }

    /// Whether the two collections say the same of each member.
    fn same(&self, other: &Self) -> (r: bool)
        ensures
            r == same_model(self@, other@),
        decreases self, 0nat,
    {
        let count: usize = self.known.len();
        let other_count: usize = other.known.len();
        if !self.unknown.same(&other.unknown) {
            proof {
                let keys = self.known@.dom() + other.known@.dom();
                let key = K::unused(keys);
                assert(self@.at(key) != other@.at(key));
            }
            return false;
        }
        let mut i: usize = 0;
        while i < count
            invariant
                i <= count == self.known.order().len(),
                forall|j: int|
                    0 <= j < i ==> #[trigger] self@.at(self.known.order()[j]) == other@.at(
                        self.known.order()[j],
                    ),
            decreases count - i,
        {
            let (key, kind) = self.known.entry(i);
            proof {
                self.known.value_is_smaller(key@);
                assert(self@.at(key@) == kind@);
            }
            let same = match other.known.get(key) {
                Some(other_kind) => kind.same(false, other_kind, false),
                None => match &other.unknown {
                    Unknown::Exact(exact) => {
                        proof {
                            super::lemma_unknown_view(other.unknown);
                        }
                        kind.same(false, exact, true)
                    },
                    Unknown::Anything => {
                        proof {
                            super::lemma_unknown_view(other.unknown);
                        }
                        kind.is_anything(false)
                    },
                },
            };
            if !same {
                assert(self@.at(key@) != other@.at(key@));
                return false;
            }
            i += 1;
        }
        let mut k: usize = 0;
        while k < other_count
            invariant
                k <= other_count == other.known.order().len(),
                count == self.known.order().len(),
                self.known.order().to_set() == self.known@.dom(),
                forall|j: int|
                    0 <= j < count ==> #[trigger] self@.at(self.known.order()[j]) == other@.at(
                        self.known.order()[j],
                    ),
                forall|j: int|
                    0 <= j < k ==> #[trigger] self@.at(other.known.order()[j]) == other@.at(
                        other.known.order()[j],
                    ),
            decreases other_count - k,
        {
            let (key, other_kind) = other.known.entry(k);
            assert(other@.at(key@) == other_kind@);
            if self.known.get(key).is_none() {
                if !self.unknown.same_as_known(other_kind) {
                    assert(self@.at(key@) != other@.at(key@));
                    return false;
                }
            } else {
                proof {
                    assert(self.known.order().to_set().contains(key@));
                    let j = choose|j: int|
                        0 <= j < self.known.order().len() && self.known.order()[j] == key@;
                    assert(self@.at(self.known.order()[j]) == other@.at(self.known.order()[j]));
                }
            }
            k += 1;
        }
        proof {
            assert forall|key: K::V| #[trigger] self@.at(key) == other@.at(key) by {
                if self.known@.contains_key(key) {
                    assert(self.known.order().to_set().contains(key));
                    let j = choose|j: int|
                        0 <= j < self.known.order().len() && self.known.order()[j] == key;
                    assert(self@.at(self.known.order()[j]) == other@.at(self.known.order()[j]));
                } else if other.known@.contains_key(key) {
                    assert(other.known.order().to_set().contains(key));
                    let j = choose|j: int|
                        0 <= j < other.known.order().len() && other.known.order()[j] == key;
                    assert(self@.at(other.known.order()[j]) == other@.at(other.known.order()[j]));
                }
            }
        }
        true
    }
}

impl vstd::std_specs::cmp::PartialEqSpecImpl for Kind {
    open spec fn obeys_eq_spec() -> bool {
        true
    }

    open spec fn eq_spec(&self, other: &Self) -> bool {
        self@ == other@
    }
}

impl PartialEq for Kind {
    fn eq(&self, other: &Self) -> (r: bool) {
        self.same(false, other, false)
    }
}

} // verus!
