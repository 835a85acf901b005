//! The kind of what is found at a path.
use crate::kind::shape;
use crate::kind::shape::Place;
use crate::kind::types::{Type, Types};
use crate::kind::{Collection, Kind, Position, Unknown};
use crate::path::{OwnedSegment, OwnedValuePath};
use crate::table::Key;
use vstd::prelude::*;

verus! {

impl Unknown {
    /// The kind of a member that is not known by its key.
    pub(super) fn to_kind(&self) -> (r: Kind)
        ensures
            r@ == self@,
    {
        proof {
            super::lemma_unknown_view(*self);
        }
        match self {
            Unknown::Exact(kind) => (&**kind).clone().or_undefined(),
            Unknown::Anything => Kind::any(),
        }
    }
}

impl<K: Key> Collection<K> {
    /// The kind of the member with this key.
    pub(super) fn member(&self, key: &K) -> (r: Kind)
        ensures
            r@ == self@.at(key@),
    {
        match self.known.get(key) {
            Some(kind) => kind.clone(),
            None => self.unknown.to_kind(),
        }
    }
}

/// A set with the first `count` positions has no fewer elements.
proof fn lemma_first_positions(positions: Set<nat>, count: nat)
    requires
        positions.finite(),
        forall|i: nat| i < count ==> positions.contains(i),
    ensures
        count <= positions.len(),
    decreases count,
{
    if count > 0 {
        let last = (count - 1) as nat;
        assert(positions.contains(last));
        lemma_first_positions(positions.remove(last), last);
    }
}

impl Collection<Position> {
    /// Whether there is an item at this position, each time.
    fn is_present(&self, position: usize) -> (r: bool)
        ensures
            r == {
                let types = shape::top(self@.at(position as nat));
                types.any_defined() && !types.undefined
            },
    {
        let kind = self.member(&Position(position));
        proof {
            super::lemma_kind_view(kind);
        }
        let types = kind.types();
        types.contains_any_defined() && !types.undefined
    }

    /// The number of items, where it is the same each time.
    pub(super) fn length(&self) -> (r: Option<usize>)
        ensures
            match r {
                Some(len) => shape::has_length(self.items(), len as nat),
                None => !exists|len: nat| shape::has_length(self.items(), len),
            },
    {
        let unknown = self.unknown.to_kind();
        proof {
            super::lemma_kind_view(unknown);
        }
        let count: usize = self.known.len();
        let ghost items = self.items();
        if unknown.types().contains_any_defined() {
            proof {
                assert forall|len: nat| !shape::has_length(items, len) by {
                    let free = super::lemma_unused_position(self.known@.dom(), len);
                    assert(items(free) == self.unknown@);
                    assert(!shape::item_fits_length(items, len, free));
                }
            }
            return None;
        }
        let mut len: usize = 0;
        while len < count && self.is_present(len)
            invariant
                len <= count,
                items == self.items(),
                forall|i: nat| i < len ==> shape::item_fits_length(items, len as nat, i),
            decreases count - len,
        {
            proof {
                let next = (len + 1) as nat;
                assert forall|i: nat| i < next implies #[trigger] shape::item_fits_length(
                    items,
                    next,
                    i,
                ) by {
                    assert(i < len ==> shape::item_fits_length(items, len as nat, i));
                    assert(items(i) == self@.at(i));
                }
            }
            len += 1;
        }
        let mut j: usize = 0;
        while j < count
            invariant
                j <= count == self.known.order().len(),
                count == self.known@.len(),
                self.known@.dom().finite(),
                self.known.order().to_set() == self.known@.dom(),
                items == self.items(),
                len <= count,
                !shape::top(self.unknown@).any_defined(),
                forall|i: nat| i < len ==> shape::item_fits_length(items, len as nat, i),
                len == count || !{
                    let types = shape::top(self@.at(len as nat));
                    types.any_defined() && !types.undefined
                },
                forall|i: int|
                    0 <= i < j && len <= self.known.order()[i] ==> shape::item_fits_length(
                        items,
                        len as nat,
                        #[trigger] self.known.order()[i],
                    ),
            decreases count - j,
        {
            let (position, kind) = self.known.entry(j);
            proof {
                super::lemma_kind_view(*kind);
                assert(items(position@) == kind@);
            }
            if position.0 >= len && kind.types().contains_any_defined() {
                proof {
                    assert forall|other: nat| !shape::has_length(items, other) by {
                        if shape::has_length(items, other) {
                            assert(shape::item_fits_length(items, other, position@));
                            assert(shape::item_fits_length(items, other, len as nat));
                            assert(items(len as nat) == self@.at(len as nat));
                            let others = self.known@.dom().remove(position@);
                            assert forall|i: nat| i < len implies others.contains(i) by {
                                assert(shape::item_fits_length(items, len as nat, i));
                                assert(items(i) == self@.at(i));
                            }
                            lemma_first_positions(others, len as nat);
                        }
                    }
                }
                return None;
            }
            j += 1;
        }
        proof {
            assert forall|i: nat| shape::item_fits_length(items, len as nat, i) by {
                if i >= len && self.known@.contains_key(i) {
                    assert(self.known.order().to_set().contains(i));
                    let j = choose|j: int|
                        0 <= j < self.known.order().len() && self.known.order()[j] == i;
                    assert(shape::item_fits_length(items, len as nat, self.known.order()[j]));
                }
                assert(items(i) == self@.at(i));
            }
        }
        Some(len)
    }

    /// The kind of an item at an unknown position.
    fn some_item(&self) -> (r: Kind)
        ensures
            r@ == shape::some_item(self.items()),
    {
        let ghost items = self.items();
        let mut r = self.unknown.to_kind();
        let count: usize = self.known.len();
        let mut j: usize = 0;
        while j < count
            invariant
                j <= count == self.known.order().len(),
                forall|at: Seq<Place>, t: Type| #[trigger]
                    (r@)(at).has(t) <==> (self.unknown@)(at).has(t) || exists|i: int|
                        0 <= i < j && (#[trigger] self@.at(self.known.order()[i]))(at).has(t),
            decreases count - j,
        {
            let (position, kind) = self.known.entry(j);
            let ghost before = r@;
            r = r.union(kind);
            proof {
                assert(self@.at(self.known.order()[j as int]) == kind@);
                assert forall|at: Seq<Place>, t: Type| #[trigger]
                    (r@)(at).has(t) <==> (self.unknown@)(at).has(t) || exists|i: int|
                        0 <= i < j + 1 && (#[trigger] self@.at(self.known.order()[i]))(at).has(
                            t,
                        ) by {
                    assert((r@)(at).has(t) == (before(at).has(t) || (kind@)(at).has(t)));
                }
            }
            j += 1;
        }
        let ghost all = r@;
        let r = r.or_undefined();
        proof {
            assert forall|at: Seq<Place>| #[trigger]
                all(at) == Types::all_with(|t: Type| shape::some_item_has(items, at, t)) by {
                let found = Types::all_with(|t: Type| shape::some_item_has(items, at, t));
                assert forall|t: Type| #[trigger] all(at).has(t) == found.has(t) by {
                    if (self.unknown@)(at).has(t) {
                        let free = super::lemma_unused_position(self.known@.dom(), 0);
                        assert(items(free)(at).has(t));
                    }
                    if exists|i: int|
                        0 <= i < count && (#[trigger] self@.at(self.known.order()[i]))(at).has(t) {
                        let i = choose|i: int|
                            0 <= i < count && (#[trigger] self@.at(self.known.order()[i]))(at).has(
                                t,
                            );
                        assert(items(self.known.order()[i])(at).has(t));
                    }
                    if shape::some_item_has(items, at, t) {
                        let i = choose|i: nat| (#[trigger] items(i))(at).has(t);
                        assert(items(i) == self@.at(i));
                        if self.known@.contains_key(i) {
                            assert(self.known.order().to_set().contains(i));
                            let j = choose|j: int|
                                0 <= j < self.known.order().len() && self.known.order()[j] == i;
                            assert(self@.at(self.known.order()[j])(at).has(t));
                        }
                    }
                }
                all(at).same_types(found);
            }
            assert(r@ =~= shape::some_item(items));
        }
        r
    }

    /// The kind of the item `back` positions before the end.
    fn item_from_end(&self, back: usize) -> (r: Kind)
        ensures
            r@ == shape::item_from_end(self.items(), back as nat),
    {
        match self.length() {
            Some(len) => {
                proof {
                    let chosen = choose|len: nat| shape::has_length(self.items(), len);
                    shape::length_is_unique(self.items(), chosen, len as nat);
                }
                if back <= len {
                    self.member(&Position(len - back))
                } else {
                    Kind::undefined()
                }
            },
            None => self.some_item(),
        }
    }
}

impl Kind {
    /// Whether there is no value of this kind.
    pub fn is_never(&self) -> (r: bool)
        ensures
            r == (shape::top(self@) == Types::none()),
    {
        proof {
            super::lemma_kind_view(*self);
        }
        self.types() == Types::empty()
    }

    /// What is found at a member of this kind.
    fn found(&self, holder: Types, member: Kind) -> (r: Kind)
        requires
            holder.within(shape::top(self@)),
        ensures
            r@ == shape::found(self@, holder, member@),
    {
        proof {
            super::lemma_kind_view(*self);
        }
        if self.is_never() {
            Kind::never()
        } else if self.types() == holder {
            member
        } else {
            member.or_undefined()
        }
    }

    fn at_segment(&self, segment: &OwnedSegment) -> (r: Kind)
        ensures
            r@ == shape::at_step(self@, segment@),
    {
        proof {
            super::lemma_kind_members(*self);
        }
        if self.is_never() {
            return Kind::never();
        }
        match segment {
            OwnedSegment::Field(name) => match &self.object {
                Some(fields) => {
                    let member = fields.member(name);
                    self.found(Types { object: true, ..Types::empty() }, member)
                },
                None => Kind::undefined(),
            },
            OwnedSegment::Index(index) => match &self.array {
                Some(items) => {
                    if *index >= 0 {
                        let position = Position(*index as usize);
                        assert(shape::items(self@)(position@) == items.items()(position@));
                        let member = items.member(&position);
                        self.found(Types { array: true, ..Types::empty() }, member)
                    } else {
                        let back: usize = (-(*index as i128)) as usize;
                        let member = items.item_from_end(back);
                        self.found(Types { array: true, ..Types::empty() }, member)
                    }
                },
                None => Kind::undefined(),
            },
        }
    }

    /// The kind of what is found at `path` in a value of this kind.
    pub fn at_path(&self, path: &OwnedValuePath) -> (r: Kind)
        ensures
            r@ == shape::at_path(self@, path@),
    {
        assert(path@.skip(0) =~= path@);
        self.at_rest(path, 0)
    }

    /// The kind of what is found at the steps of `path` from `start` on.
    pub(super) fn at_rest(&self, path: &OwnedValuePath, start: usize) -> (r: Kind)
        requires
            start <= path@.len(),
        ensures
            r@ == shape::at_path(self@, path@.skip(start as int)),
    {
        let mut r = self.clone();
        let mut i: usize = start;
        while i < path.segments.len()
            invariant
                start <= i <= path.segments@.len(),
                shape::at_path(self@, path@.skip(start as int)) == shape::at_path(
                    r@,
                    path@.skip(i as int),
                ),
            decreases path.segments@.len() - i,
        {
            proof {
                assert(path@.skip(i as int)[0] == path.segments@[i as int]@);
                assert(path@.skip(i as int).drop_first() =~= path@.skip(i + 1));
            }
            r = r.at_segment(&path.segments[i]);
            i += 1;
        }
        r
    }
}

} // verus!
