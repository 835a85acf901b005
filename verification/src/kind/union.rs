//! Unions of kinds.
use crate::kind::shape;
use crate::kind::shape::{CollectionModel, Place};
use crate::kind::types::Types;
use crate::kind::{Collection, Kind, Unknown};
use crate::table::{Key, Table};
use vstd::prelude::*;

verus! {

/// Whether `r` says of each member what `a` or `b` says of it.
spec fn is_union<K>(
    a: Option<CollectionModel<K>>,
    b: Option<CollectionModel<K>>,
    r: Option<CollectionModel<K>>,
) -> bool {
    match (a, b) {
        (Some(a), Some(b)) => r matches Some(r) && forall|key: K| #[trigger]
            r.at(key) == shape::either(a.at(key), b.at(key)),
        (Some(_), None) => r == a,
        (None, _) => r == b,
    }
}

proof fn lemma_compose_either(
    top: (Types, Types),
    array: (Option<CollectionModel<nat>>, Option<CollectionModel<nat>>),
    object: (Option<CollectionModel<Seq<char>>>, Option<CollectionModel<Seq<char>>>),
    merged: (Option<CollectionModel<nat>>, Option<CollectionModel<Seq<char>>>),
)
    requires
        is_union(array.0, array.1, merged.0),
        is_union(object.0, object.1, merged.1),
    ensures
        shape::compose(top.0.or(top.1), merged.0, merged.1) == shape::either(
            shape::compose(top.0, array.0, object.0),
            shape::compose(top.1, array.1, object.1),
        ),
{
    let left = shape::compose(top.0.or(top.1), merged.0, merged.1);
    let right = shape::either(
        shape::compose(top.0, array.0, object.0),
        shape::compose(top.1, array.1, object.1),
    );
    assert forall|at: Seq<Place>| #[trigger] left(at) == right(at) by {
        if at.len() > 0 {
            match at[0] {
                Place::Field(name) => {},
                Place::Item(index) => {},
            }
        }
    }
    assert(left =~= right);
}

fn union_members<K: Key>(
    a: &Option<Box<Collection<K>>>,
    b: &Option<Box<Collection<K>>>,
) -> (r: Option<Box<Collection<K>>>)
    ensures
        is_union(super::model(*a), super::model(*b), super::model(r)),
        r is Some <==> a is Some || b is Some,
    decreases a, 0nat,
{
    match (a, b) {
        (Some(a), Some(b)) => Some(Box::new(a.union(b))),
        (Some(a), None) => Some(Box::new((&**a).clone())),
        (None, Some(b)) => Some(Box::new((&**b).clone())),
        (None, None) => None,
    }
}

impl Kind {
    /// The kind of the values of either kind.
    pub fn union(&self, other: &Kind) -> (r: Kind)
        ensures
            r@ == shape::either(self@, other@),
        decreases self, 0nat,
    {
        let array = union_members(&self.array, &other.array);
        let object = union_members(&self.object, &other.object);
        let r = super::build(self.types().union(other.types()), array, object);
        proof {
            super::lemma_kind_view(*self);
            super::lemma_kind_view(*other);
            lemma_compose_either(
                (self.top(), other.top()),
                (super::model(self.array), super::model(other.array)),
                (super::model(self.object), super::model(other.object)),
                (super::model(array), super::model(object)),
            );
        }
        r
    }

    /// The kind of the values of this kind, and of a missing value.
    pub fn or_undefined(self) -> (r: Kind)
        ensures
            r@ == shape::maybe_missing(self@),
    {
        let r = Kind { undefined: true, ..self };
        proof {
            super::lemma_kind_view(self);
            super::lemma_kind_view(r);
            assert(r@ =~= shape::maybe_missing(self@));
        }
        r
    }
}

/// The kind of a member that is `kind` where it is known, and not known by its key elsewhere.
fn union_unknown(kind: &Kind, unknown: &Unknown) -> (r: Kind)
    ensures
        r@ == shape::either(kind@, unknown@),
    decreases kind, 1nat,
{
    proof {
        super::lemma_unknown_view(*unknown);
    }
    let r = match unknown {
        Unknown::Exact(exact) => kind.union(exact).or_undefined(),
        Unknown::Anything => Kind::any(),
    };
    assert(r@ =~= shape::either(kind@, unknown@));
    r
}

impl<K: Key> Collection<K> {
    /// The collection in which each member has the kind that it has in either collection.
    pub(super) fn union(&self, other: &Collection<K>) -> (r: Collection<K>)
        ensures
            forall|key: K::V| #[trigger] r@.at(key) == shape::either(self@.at(key), other@.at(key)),
            r@.known.dom() == self@.known.dom() + other@.known.dom(),
            r@.unknown == shape::either(self@.unknown, other@.unknown),
        decreases self, 0nat,
    {
        proof {
            super::lemma_unknown_view(self.unknown);
            super::lemma_unknown_view(other.unknown);
        }
        let mut known: Table<K, Kind> = Table::new();
        let count: usize = self.known.len();
        let mut i: usize = 0;
        while i < count
            invariant
                i <= count == self.known.order().len(),
                self.known.order().to_set() == self.known@.dom(),
                known@.dom() =~= self.known.order().take(i as int).to_set(),
                forall|key: K::V| #[trigger]
                    known@.contains_key(key) ==> self.known@.contains_key(key) && known@[key]@
                        == shape::either(self@.at(key), other@.at(key)),
            decreases count - i,
        {
            let (key, kind) = self.known.entry(i);
            proof {
                self.known.value_is_smaller(key@);
                super::lemma_take_to_set(self.known.order(), i as int);
            }
            let merged = match other.known.get(key) {
                Some(other_kind) => kind.union(other_kind),
                None => union_unknown(kind, &other.unknown),
            };
            let _ = known.insert(key.duplicate(), merged);
            i += 1;
        }
        assert(self.known.order().take(count as int) =~= self.known.order());
        let other_count: usize = other.known.len();
        let mut j: usize = 0;
        while j < other_count
            invariant
                j <= other_count == other.known.order().len(),
                other.known.order().to_set() == other.known@.dom(),
                known@.dom() =~= self.known@.dom() + other.known.order().take(j as int).to_set(),
                forall|key: K::V| #[trigger]
                    known@.contains_key(key) ==> known@[key]@ == shape::either(
                        self@.at(key),
                        other@.at(key),
                    ),
            decreases other_count - j,
        {
            let (key, other_kind) = other.known.entry(j);
            proof {
                super::lemma_take_to_set(other.known.order(), j as int);
                super::lemma_unknown_view(self.unknown);
            }
            if self.known.get(key).is_none() {
                let merged = match &self.unknown {
                    Unknown::Exact(exact) => exact.union(other_kind).or_undefined(),
                    Unknown::Anything => Kind::any(),
                };
                assert(merged@ =~= shape::either(self@.at(key@), other@.at(key@)));
                let _ = known.insert(key.duplicate(), merged);
            } else {
                assert(known@.contains_key(key@));
            }
            j += 1;
        }
        assert(other.known.order().take(other_count as int) =~= other.known.order());
        let unknown = match (&self.unknown, &other.unknown) {
            (Unknown::Exact(a), Unknown::Exact(b)) => Unknown::Exact(Box::new(a.union(b))),
            _ => Unknown::Anything,
        };
        let r = Collection { known, unknown };
        proof {
            super::lemma_unknown_view(unknown);
            assert(r@.unknown =~= shape::either(self@.unknown, other@.unknown));
            assert(r@.known.dom() =~= self@.known.dom() + other@.known.dom());
        }
        r
    }
}

} // verus!
