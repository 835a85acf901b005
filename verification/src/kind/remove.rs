//! The kind of what is left when a value inside another one was removed.
use crate::kind::shape;
use crate::kind::shape::{Place, Pruned, Shape};
use crate::kind::types::Types;
use crate::kind::{Collection, Kind, Position, Unknown};
use crate::path::{OwnedSegment, OwnedValuePath};
use crate::table::{Key, Table};
use vstd::prelude::*;

verus! {

impl<K: Key> Collection<K> {
    /// The collection of which each member is missing.
    pub fn empty() -> (r: Self)
        ensures
            r@.known == Map::<K::V, Shape>::empty(),
            r@.unknown == shape::missing(),
    {
        let r = Collection {
            known: Table::new(),
            unknown: Unknown::Exact(Box::new(Kind::undefined())),
        };
        proof {
            super::lemma_unknown_view(r.unknown);
            assert(r@.unknown =~= shape::missing());
            assert(r@.known =~= Map::<K::V, Shape>::empty());
        }
        r
    }

    /// The collection with another kind for one member.
    fn with(&self, key: K, kind: Kind) -> (r: Self)
        ensures
            forall|other: K::V| #[trigger]
                r@.at(other) == (if other == key@ {
                    kind@
                } else {
                    self@.at(other)
                }),
    {
        let Collection { mut known, unknown } = self.clone();
        let ghost before = Collection { known, unknown };
        let _ = known.insert(key, kind);
        let r = Collection { known, unknown };
        proof {
            assert forall|other: K::V| #[trigger] r@.at(other) == (if other == key@ {
                kind@
            } else {
                self@.at(other)
            }) by {
                assert(before@.at(other) == self@.at(other));
            }
        }
        r
    }

    /// Whether each member may be missing.
    fn may_be_empty(&self) -> (r: bool)
        ensures
            r == forall|key: K::V| (#[trigger] shape::top(self@.at(key))).undefined,
    {
        proof {
            super::lemma_unknown_view(self.unknown);
        }
        let count: usize = self.known.len();
        let mut i: usize = 0;
        while i < count
            invariant
                i <= count == self.known.order().len(),
                forall|j: int|
                    0 <= j < i ==> (#[trigger] shape::top(
                        self@.at(self.known.order()[j]),
                    )).undefined,
            decreases count - i,
        {
            let (key, kind) = self.known.entry(i);
            proof {
                super::lemma_kind_view(*kind);
                assert(self@.at(key@) == kind@);
            }
            if !kind.types().undefined {
                assert(!shape::top(self@.at(key@)).undefined);
                return false;
            }
            i += 1;
        }
        proof {
            assert forall|key: K::V| (#[trigger] shape::top(self@.at(key))).undefined by {
                if self.known@.contains_key(key) {
                    assert(self.known.order().to_set().contains(key));
                    let j = choose|j: int|
                        0 <= j < self.known.order().len() && self.known.order()[j] == key;
                    assert(shape::top(self@.at(self.known.order()[j])).undefined);
                }
            }
        }
        true
    }

    /// Whether no member is there, each time.
    fn is_always_empty(&self) -> (r: bool)
        ensures
            r == forall|key: K::V| !(#[trigger] shape::top(self@.at(key))).any_defined(),
    {
        let unknown = self.unknown.to_kind();
        proof {
            super::lemma_kind_view(unknown);
        }
        let count: usize = self.known.len();
        if unknown.types().contains_any_defined() {
            proof {
                let key = K::unused(self.known@.dom());
                assert(shape::top(self@.at(key)).any_defined());
            }
            return false;
        }
        let mut i: usize = 0;
        while i < count
            invariant
                i <= count == self.known.order().len(),
                forall|j: int|
                    0 <= j < i ==> !(#[trigger] shape::top(
                        self@.at(self.known.order()[j]),
                    )).any_defined(),
            decreases count - i,
        {
            let (key, kind) = self.known.entry(i);
            proof {
                super::lemma_kind_view(*kind);
                assert(self@.at(key@) == kind@);
            }
            if kind.types().contains_any_defined() {
                assert(shape::top(self@.at(key@)).any_defined());
                return false;
            }
            i += 1;
        }
        proof {
            assert forall|key: K::V| !(#[trigger] shape::top(self@.at(key))).any_defined() by {
                if self.known@.contains_key(key) {
                    assert(self.known.order().to_set().contains(key));
                    let j = choose|j: int|
                        0 <= j < self.known.order().len() && self.known.order()[j] == key;
                    assert(!shape::top(self@.at(self.known.order()[j])).any_defined());
                }
            }
        }
        true
    }
}

impl Collection<Position> {
    /// The items when the one at position `i` was taken out.
    fn shifted(&self, i: usize) -> (r: Self)
        ensures
            r.items() == shape::shifted(self.items(), i as nat),
    {
        let count: usize = self.known.len();
        let mut known: Table<Position, Kind> = Table::new();
        let ghost order = self.known.order();
        let mut j: usize = 0;
        while j < count
            invariant
                j <= count == self.known.order().len(),
                order == self.known.order(),
                order.no_duplicates(),
                order.to_set() == self.known@.dom(),
                forall|p: nat| #[trigger]
                    known@.contains_key(p) ==> {
                        let from: nat = if p < i { p } else { p + 1 };
                        self.known@.contains_key(from) && known@[p]@ == self.known@[from]@
                    },
                forall|k: int|
                    #![trigger order[k]]
                    0 <= k < j && order[k] != i ==> known@.contains_key(
                        if order[k] < i {
                            order[k]
                        } else {
                            (order[k] - 1) as nat
                        },
                    ),
            decreases count - j,
        {
            let (position, kind) = self.known.entry(j);
            if position.0 < i {
                let _ = known.insert(Position(position.0), kind.clone());
            } else if position.0 > i {
                let _ = known.insert(Position(position.0 - 1), kind.clone());
            }
            j += 1;
        }
        let Collection { known: _, unknown } = self.clone();
        let r = Collection { known, unknown };
        proof {
            let shifted = shape::shifted(self.items(), i as nat);
            assert forall|p: nat| #[trigger] r.items()(p) == shifted(p) by {
                let from: nat = if p < i { p } else { p + 1 };
                assert(self.items()(from) == self@.at(from));
                if self.known@.contains_key(from) {
                    assert(order.to_set().contains(from));
                    let k = choose|k: int| 0 <= k < order.len() && order[k] == from;
                    assert(order[k] != i);
                    assert(known@.contains_key(p));
                }
            }
            assert(r.items() =~= shifted);
        }
        r
    }
}

impl Kind {
    fn may_be_empty(&self) -> (r: bool)
        ensures
            r == shape::may_be_empty(self@),
    {
        proof {
            super::lemma_kind_members(*self);
        }
        let object = match &self.object {
            Some(fields) => {
                let r = fields.may_be_empty();
                proof {
                    if !r {
                        let name = choose|name: Seq<char>|
                            !(#[trigger] shape::top(fields@.at(name))).undefined;
                        assert(!shape::top(shape::below(self@, Place::Field(name))).undefined);
                    }
                }
                r
            },
            None => false,
        };
        let array = match &self.array {
            Some(items) => {
                let r = items.may_be_empty();
                proof {
                    if !r {
                        let i = choose|i: nat| !(#[trigger] shape::top(items@.at(i))).undefined;
                        assert(!shape::top(shape::below(self@, Place::Item(i))).undefined);
                    }
                }
                r
            },
            None => false,
        };
        object || array
    }

    fn is_always_empty(&self) -> (r: bool)
        ensures
            r == shape::is_always_empty(self@),
    {
        proof {
            super::lemma_kind_members(*self);
        }
        let types = self.types();
        if types.contains_any_primitive() || types.undefined {
            return false;
        }
        let object = match &self.object {
            Some(fields) => {
                let r = fields.is_always_empty();
                proof {
                    if !r {
                        let name = choose|name: Seq<char>|
                            (#[trigger] shape::top(fields@.at(name))).any_defined();
                        assert(shape::top(shape::below(self@, Place::Field(name))).any_defined());
                    }
                }
                r
            },
            None => true,
        };
        let array = match &self.array {
            Some(items) => {
                let r = items.is_always_empty();
                proof {
                    if !r {
                        let i = choose|i: nat| (#[trigger] shape::top(items@.at(i))).any_defined();
                        assert(shape::top(shape::below(self@, Place::Item(i))).any_defined());
                    }
                }
                r
            },
            None => true,
        };
        object && array
    }

    fn emptied(&self) -> (r: Kind)
        ensures
            r@ == shape::emptied(self@),
    {
        proof {
            super::lemma_kind_members(*self);
        }
        let types = self.types();
        let array = if types.array {
            Some(Box::new(Collection::empty()))
        } else {
            None
        };
        let object = if types.object {
            Some(Box::new(Collection::empty()))
        } else {
            None
        };
        let r = super::build(
            Types {
                null: types.contains_any_primitive(),
                undefined: types.undefined,
                ..Types::empty()
            },
            array,
            object,
        );
        assert(r@ =~= shape::emptied(self@));
        r
    }

    /// The kind with another one for a field.
    fn with_field(&self, name: &String, field: Kind) -> (r: Kind)
        requires
            shape::top(self@).object,
        ensures
            r@ == shape::with_field(self@, name@, field@),
    {
        proof {
            super::lemma_kind_members(*self);
            super::lemma_kind_view(*self);
        }
        let ghost given = field@;
        let types = self.types();
        match &self.object {
            Some(fields) => {
                let fields = fields.with(name.clone(), field);
                let copy = self.clone();
                let r = super::build(types, copy.array, Some(Box::new(fields)));
                proof {
                    super::lemma_kind_view(copy);
                    let expected = shape::with_field(self@, name@, given);
                    assert forall|at: Seq<Place>| #[trigger] (r@)(at) == expected(at) by {
                        assert((copy@)(at) == (self@)(at));
                    }
                    assert(r@ =~= expected);
                }
                r
            },
            None => self.clone(),
        }
    }

    /// The kind with other items.
    fn with_items(&self, items: Collection<Position>) -> (r: Kind)
        requires
            shape::top(self@).array,
        ensures
            r@ == shape::with_items(self@, items.items()),
    {
        let ghost given = items.items();
        let copy = self.clone();
        proof {
            super::lemma_kind_members(*self);
            super::lemma_kind_members(copy);
            super::lemma_kind_view(*self);
            super::lemma_kind_view(copy);
        }
        let r = super::build(self.types(), Some(Box::new(items)), copy.object);
        proof {
            let expected = shape::with_items(self@, given);
            assert forall|at: Seq<Place>| #[trigger] (r@)(at) == expected(at) by {
                assert((copy@)(at) == (self@)(at));
                if at.len() > 0 && at[0] is Item {
                    assert(given(at[0]->Item_0) == items@.at(at[0]->Item_0));
                }
            }
            assert(r@ =~= expected);
        }
        r
    }
}

impl Collection<Position> {
    /// The items with another one at position `i`.
    fn with_item(&self, i: usize, item: Kind) -> (r: Self)
        ensures
            r.items() == shape::with_item(self.items(), i as nat, item@),
    {
        let ghost given = item@;
        let r = self.with(Position(i), item);
        proof {
            let expected = shape::with_item(self.items(), i as nat, given);
            assert forall|j: nat| #[trigger] r.items()(j) == expected(j) by {
                assert(self.items()(j) == self@.at(j));
            }
            assert(r.items() =~= expected);
        }
        r
    }

    /// The items that are either these or the others.
    fn either_items(&self, other: &Self) -> (r: Self)
        ensures
            r.items() == shape::either_items(self.items(), other.items()),
    {
        let r = self.union(other);
        proof {
            let expected = shape::either_items(self.items(), other.items());
            assert forall|j: nat| #[trigger] r.items()(j) == expected(j) by {
                assert(self.items()(j) == self@.at(j));
                assert(other.items()(j) == other@.at(j));
            }
            assert(r.items() =~= expected);
        }
        r
    }

    /// The items when the value at the steps of `path` from `start` on was removed from the one
    /// at position `i`.
    fn remove_at(&self, i: usize, path: &OwnedValuePath, start: usize, compact: bool) -> (r: Self)
        requires
            start <= path@.len(),
        ensures
            r.items() == shape::remove_at(
                self.items(),
                i as nat,
                path@.skip(start as int),
                compact,
            ),
        decreases path@.len() - start, 1nat,
    {
        if start == path.segments.len() {
            return self.shifted(i);
        }
        let item = self.member(&Position(i));
        assert(item@ == self.items()(i as nat));
        let left = item.remove_rest(path, start, compact);
        match item.pruned(&left, path, start, compact) {
            Pruned::Never => self.with_item(i, left),
            Pruned::Maybe => self.with_item(i, left).either_items(&self.shifted(i)),
            Pruned::Always => self.shifted(i),
        }
    }

    /// The items when the value at the steps of `path` from `start` on was removed from each.
    fn remove_everywhere(&self, path: &OwnedValuePath, start: usize, compact: bool) -> (r: Self)
        requires
            start < path@.len(),
        ensures
            r.items() == (|j: nat|
                shape::remove(self.items()(j), path@.skip(start as int), compact)),
        decreases path@.len() - start, 1nat,
    {
        let ghost rest = path@.skip(start as int);
        let count: usize = self.known.len();
        let mut known: Table<Position, Kind> = Table::new();
        let mut j: usize = 0;
        while j < count
            invariant
                j <= count == self.known.order().len(),
                start < path@.len(),
                rest == path@.skip(start as int),
                self.known.order().to_set() == self.known@.dom(),
                known@.dom() =~= self.known.order().take(j as int).to_set(),
                forall|p: nat| #[trigger]
                    known@.contains_key(p) ==> self.known@.contains_key(p) && known@[p]@
                        == shape::remove(self@.at(p), rest, compact),
            decreases count - j,
        {
            let (position, kind) = self.known.entry(j);
            proof {
                super::lemma_take_to_set(self.known.order(), j as int);
                assert(self@.at(position@) == kind@);
            }
            let _ = known.insert(Position(position.0), kind.remove_rest(path, start, compact));
            j += 1;
        }
        assert(self.known.order().take(count as int) =~= self.known.order());
        let unknown = self.unknown.to_kind().remove_rest(path, start, compact);
        let ghost left = unknown@;
        let r = Collection { known, unknown: Unknown::Exact(Box::new(unknown)) };
        proof {
            super::lemma_unknown_view(self.unknown);
            super::lemma_unknown_view(r.unknown);
            assert(left(Seq::empty()).undefined);
            assert(shape::maybe_missing(left) =~= left) by {
                assert forall|at: Seq<Place>| #[trigger]
                    shape::maybe_missing(left)(at) == left(at) by {
                    if at.len() == 0 {
                        assert(at =~= Seq::<Place>::empty());
                    }
                }
            }
            let expected = |j: nat| shape::remove(self.items()(j), rest, compact);
            assert forall|j: nat| #[trigger] r.items()(j) == expected(j) by {
                assert(self.items()(j) == self@.at(j));
            }
            assert(r.items() =~= expected);
        }
        r
    }

    /// The items when the value at the steps of `path` from `start` on was removed from one of
    /// them.
    fn remove_somewhere(&self, path: &OwnedValuePath, start: usize, compact: bool) -> (r: Self)
        requires
            start <= path@.len(),
        ensures
            r.items() == shape::remove_somewhere(self.items(), path@.skip(start as int), compact),
        decreases path@.len() - start, 2nat,
    {
        if start == path.segments.len() {
            return self.either_items(&self.shifted(0));
        }
        let kept = self.either_items(&self.remove_everywhere(path, start, compact));
        if compact {
            kept.either_items(&self.shifted(0))
        } else {
            kept
        }
    }
}

impl Kind {
    /// Whether a member of this kind goes when the value at the steps of `path` from `start` on
    /// was removed from it, which leaves `left`.
    fn pruned(&self, left: &Kind, path: &OwnedValuePath, start: usize, compact: bool) -> (r: Pruned)
        requires
            start <= path@.len(),
            left@ == shape::remove(self@, path@.skip(start as int), compact),
        ensures
            r == shape::pruned(self@, path@.skip(start as int), compact),
    {
        let found = self.at_rest(path, start);
        proof {
            super::lemma_kind_members(found);
        }
        let types = found.types();
        if !compact || !types.contains_any_defined() || !left.may_be_empty() {
            Pruned::Never
        } else if !types.undefined && left.is_always_empty() {
            Pruned::Always
        } else {
            Pruned::Maybe
        }
    }

    /// The kind of what is left when the value at the steps of `path` from `start` on was
    /// removed.
    fn remove_rest(&self, path: &OwnedValuePath, start: usize, compact: bool) -> (r: Kind)
        requires
            start < path@.len(),
        ensures
            r@ == shape::remove(self@, path@.skip(start as int), compact),
        decreases path@.len() - start, 0nat,
    {
        proof {
            super::lemma_kind_members(*self);
            assert(path@.skip(start as int)[0] == path.segments@[start as int]@);
            assert(path@.skip(start as int).drop_first() =~= path@.skip(start + 1));
        }
        let count: usize = path.segments.len();
        match &path.segments[start] {
            OwnedSegment::Field(name) => match &self.object {
                Some(fields) => {
                    if start + 1 == count {
                        return self.with_field(name, Kind::undefined());
                    }
                    let field = fields.member(name);
                    assert(field@ == shape::below(self@, Place::Field(name@)));
                    let left = field.remove_rest(path, start + 1, compact);
                    match field.pruned(&left, path, start + 1, compact) {
                        Pruned::Never => self.with_field(name, left),
                        Pruned::Maybe => self.with_field(name, left.or_undefined()),
                        Pruned::Always => self.with_field(name, Kind::undefined()),
                    }
                },
                None => self.clone(),
            },
            OwnedSegment::Index(index) => match &self.array {
                Some(items) => {
                    if *index >= 0 {
                        let i: usize = *index as usize;
                        return self.with_items(items.remove_at(i, path, start + 1, compact));
                    }
                    let back: usize = (-(*index as i128)) as usize;
                    match items.length() {
                        Some(len) => {
                            proof {
                                let chosen = choose|len: nat|
                                    shape::has_length(items.items(), len);
                                shape::length_is_unique(items.items(), chosen, len as nat);
                            }
                            if back <= len {
                                self.with_items(
                                    items.remove_at(len - back, path, start + 1, compact),
                                )
                            } else {
                                self.clone()
                            }
                        },
                        None => self.with_items(items.remove_somewhere(path, start + 1, compact)),
                    }
                },
                None => self.clone(),
            },
        }
    }

    /// Makes this the kind of what is left of a value when the value at `path` inside it was
    /// removed.
    pub fn remove(&mut self, path: &OwnedValuePath, compact: bool)
        ensures
            final(self)@ == shape::remove(old(self)@, path@, compact),
    {
        assert(path@.skip(0) =~= path@);
        *self = if path.is_root() {
            self.emptied()
        } else {
            self.remove_rest(path, 0, compact)
        };
    }
}

} // verus!
