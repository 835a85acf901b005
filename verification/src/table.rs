//! A map held as two parallel vectors, with keys that are compared by what they stand for.
use vstd::prelude::*;

verus! {

/// A key of a [`Table`]: a value that can be compared with another by its view, and copied.
pub trait Key: View + Sized {
    /// Whether the two keys stand for the same thing.
    fn same(&self, other: &Self) -> (r: bool)
        ensures
            r == (self@ == other@),
    ;

    /// A second key that stands for the same thing.
    fn duplicate(&self) -> (r: Self)
        ensures
            r@ == self@,
    ;

    /// There are always more keys.
    proof fn unused(keys: Set<Self::V>) -> (r: Self::V)
        requires
            keys.finite(),
        ensures
            !keys.contains(r),
    ;
}

/// Among finitely many texts there is none with some of the lengths from `len` on.
pub(crate) proof fn lemma_unused_text(texts: Set<Seq<char>>, len: nat) -> (r: Seq<char>)
    requires
        texts.finite(),
    ensures
        !texts.contains(r),
        len <= r.len(),
    decreases texts.len(),
{
    let text = Seq::new(len, |i: int| 'a');
    if texts.contains(text) {
        lemma_unused_text(texts.remove(text), len + 1)
    } else {
        text
    }
}

impl Key for String {
    proof fn unused(keys: Set<Seq<char>>) -> (r: Seq<char>) {
        lemma_unused_text(keys, 0)
    }

    fn same(&self, other: &Self) -> (r: bool) {
        *self == *other
    }

    fn duplicate(&self) -> (r: Self) {
        self.clone()
    }
}

/// A map from keys to values. No key occurs twice.
#[derive(Debug)]
pub struct Table<K: Key, V> {
    keys: Vec<K>,
    values: Vec<V>,
}

/// The place of `key` among `keys`, if it has one.
spec fn is_place<K: Key>(keys: Seq<K>, len: nat, key: K::V, i: int) -> bool {
    0 <= i < keys.len() && i < len && keys[i]@ == key
}

impl<K: Key, V> View for Table<K, V> {
    type V = Map<K::V, V>;

    closed spec fn view(&self) -> Map<K::V, V> {
        Map::new(
            |key: K::V| exists|i: int| is_place(self.keys@, self.values@.len(), key, i),
            |key: K::V|
                self.values@[choose|i: int| is_place(self.keys@, self.values@.len(), key, i)],
        )
    }
}

impl<K: Key, V> Table<K, V> {
    /// Every key has one value, and no key occurs twice.
    #[verifier::type_invariant]
    spec fn well_formed(&self) -> bool {
        &&& self.keys@.len() == self.values@.len()
        &&& forall|i: int, j: int|
            0 <= i < j < self.keys@.len() ==> #[trigger] self.keys@[i]@ != #[trigger] self.keys@[j]@
    }

    /// The keys in the order in which [`Self::entry`] hands them out.
    pub closed spec fn order(&self) -> Seq<K::V> {
        Seq::new(self.keys@.len(), |i: int| self.keys@[i]@)
    }

    /// A value in a table comes before the table in the order by which recursion ends.
    pub proof fn value_is_smaller(&self, key: K::V)
        requires
            self@.contains_key(key),
        ensures
            decreases_to!(self => self@[key]),
    {
        let i = choose|i: int| is_place(self.keys@, self.values@.len(), key, i);
        assert(decreases_to!(self.values@ => self.values@[i]));
    }

    /// What `order` and the view say of each other.
    proof fn order_matches_view(&self)
        requires
            self.well_formed(),
        ensures
            self.order().no_duplicates(),
            self.order().to_set() == self@.dom(),
            self@.dom().finite(),
            self@.len() == self.order().len(),
            forall|i: int|
                0 <= i < self.keys@.len() ==> self@.contains_key(#[trigger] self.keys@[i]@)
                    && self@[self.keys@[i]@] == self.values@[i],
    {
        assert forall|i: int| 0 <= i < self.keys@.len() implies self@.contains_key(
            #[trigger] self.keys@[i]@,
        ) && self@[self.keys@[i]@] == self.values@[i] by {
            assert(is_place(self.keys@, self.values@.len(), self.keys@[i]@, i));
        }
        assert(self.order().no_duplicates());
        assert(self.order().to_set() =~= self@.dom()) by {
            assert forall|key: K::V| self@.dom().contains(key) implies self.order().contains(
                key,
            ) by {
                let i = choose|i: int| is_place(self.keys@, self.values@.len(), key, i);
                assert(self.order()[i] == key);
            }
        }
        self.order().unique_seq_to_set();
    }

    /// A table with no entry.
    pub fn new() -> (r: Self)
        ensures
            r@ == Map::<K::V, V>::empty(),
            r.order() == Seq::<K::V>::empty(),
    {
        let r = Table { keys: Vec::new(), values: Vec::new() };
        assert(r@ =~= Map::<K::V, V>::empty());
        r
    }

    /// The number of entries.
    pub fn len(&self) -> (r: usize)
        ensures
            r == self@.len(),
            r == self.order().len(),
            self@.dom().finite(),
            self.order().no_duplicates(),
            self.order().to_set() == self@.dom(),
    {
        proof {
            use_type_invariant(self);
            self.order_matches_view();
        }
        self.keys.len()
    }

    /// The entry at position `i` of [`Self::order`].
    pub fn entry(&self, i: usize) -> (r: (&K, &V))
        requires
            i < self.order().len(),
        ensures
            r.0@ == self.order()[i as int],
            self@.contains_key(r.0@),
            *r.1 == self@[r.0@],
    {
        proof {
            use_type_invariant(self);
            self.order_matches_view();
        }
        (&self.keys[i], &self.values[i])
    }

    fn position(&self, key: &K) -> (r: Option<usize>)
        ensures
            match r {
                Some(i) => is_place(self.keys@, self.values@.len(), key@, i as int),
                None => !self@.contains_key(key@),
            },
    {
        proof {
            use_type_invariant(self);
        }
        let mut i: usize = 0;
        while i < self.keys.len()
            invariant
                i <= self.keys@.len(),
                self.keys@.len() == self.values@.len(),
                forall|j: int| 0 <= j < i ==> #[trigger] self.keys@[j]@ != key@,
            decreases self.keys@.len() - i,
        {
            if self.keys[i].same(key) {
                return Some(i);
            }
            i += 1;
        }
        None
    }

    /// The value of `key`.
    pub fn get(&self, key: &K) -> (r: Option<&V>)
        ensures
            match r {
                Some(value) => self@.contains_key(key@) && *value == self@[key@],
                None => !self@.contains_key(key@),
            },
    {
        proof {
            use_type_invariant(self);
            self.order_matches_view();
        }
        match self.position(key) {
            Some(i) => Some(&self.values[i]),
            None => None,
        }
    }

    /// The value of `key`, to be changed in place.
    pub fn get_mut(&mut self, key: &K) -> (r: Option<&mut V>)
        ensures
            match r {
                Some(value) => {
                    &&& old(self)@.contains_key(key@)
                    &&& *value == old(self)@[key@]
                    &&& final(self)@ == old(self)@.insert(key@, *final(value))
                },
                None => !old(self)@.contains_key(key@) && final(self)@ == old(self)@,
            },
            final(self).order() == old(self).order(),
    {
        proof {
            use_type_invariant(&*self);
            self.order_matches_view();
        }
        match self.position(key) {
            Some(i) => Some(&mut self.values[i]),
            None => None,
        }
    }

    /// Sets the value of `key`, and hands back the value it had.
    pub fn insert(&mut self, key: K, value: V) -> (r: Option<V>)
        ensures
            final(self)@ == old(self)@.insert(key@, value),
            r == (if old(self)@.contains_key(key@) {
                Some(old(self)@[key@])
            } else {
                None
            }),
    {
        proof {
            use_type_invariant(&*self);
            self.order_matches_view();
        }
        match self.get_mut(&key) {
            Some(slot) => {
                let mut value = value;
                std::mem::swap(slot, &mut value);
                return Some(value);
            },
            None => {},
        }
        let mut taken: Table<K, V> = Table::new();
        std::mem::swap(self, &mut taken);
        proof {
            use_type_invariant(&taken);
            taken.order_matches_view();
        }
        let ghost before = taken;
        let Table { mut keys, mut values } = taken;
        keys.push(key);
        values.push(value);
        assert forall|i: int, j: int| 0 <= i < j < keys@.len() implies #[trigger] keys@[i]@
            != #[trigger] keys@[j]@ by {
            if j == keys@.len() - 1 {
                assert(before.order().to_set().contains(before.keys@[i]@));
            }
        }
        *self = Table { keys, values };
        proof {
            self.order_matches_view();
            assert forall|k: K::V| self@.contains_key(k) implies before@.contains_key(k) || k
                == key@ by {
                let i = choose|i: int| is_place(keys@, values@.len(), k, i);
                if i < before.keys@.len() {
                    assert(is_place(before.keys@, before.values@.len(), k, i));
                }
            }
            assert forall|k: K::V| before@.contains_key(k) implies self@.contains_key(k) && self@[k]
                == before@[k] by {
                let i = choose|i: int| is_place(before.keys@, before.values@.len(), k, i);
                assert(self.keys@[i]@ == k);
            }
            assert(self.keys@[keys@.len() - 1]@ == key@);
            assert(self@ =~= before@.insert(key@, value));
        }
        None
    }

    /// Takes `key` and its value out, and hands the value back.
    pub fn remove(&mut self, key: &K) -> (r: Option<V>)
        ensures
            final(self)@ == old(self)@.remove(key@),
            r == (if old(self)@.contains_key(key@) {
                Some(old(self)@[key@])
            } else {
                None
            }),
    {
        proof {
            use_type_invariant(&*self);
            self.order_matches_view();
        }
        let place: Option<usize> = self.position(key);
        let place: usize = match place {
            Some(i) => i,
            None => {
                assert(self@ =~= self@.remove(key@));
                return None;
            },
        };
        let mut taken: Table<K, V> = Table::new();
        std::mem::swap(self, &mut taken);
        proof {
            use_type_invariant(&taken);
            taken.order_matches_view();
        }
        let ghost before = taken;
        let Table { mut keys, mut values } = taken;
        let _ = keys.remove(place);
        let value = values.remove(place);
        assert forall|i: int, j: int| 0 <= i < j < keys@.len() implies #[trigger] keys@[i]@
            != #[trigger] keys@[j]@ by {
            let a = if i < place { i } else { i + 1 };
            let b = if j < place { j } else { j + 1 };
            assert(before.keys@[a]@ != before.keys@[b]@);
        }
        *self = Table { keys, values };
        proof {
            self.order_matches_view();
            assert forall|k: K::V| self@.contains_key(k) implies before@.contains_key(k) && k
                != key@ && self@[k] == before@[k] by {
                let i = choose|i: int| is_place(keys@, values@.len(), k, i);
                let a = if i < place { i } else { i + 1 };
                assert(before.keys@[a]@ == k);
                assert(self.keys@[i]@ == k);
                assert(before.keys@[place as int]@ == key@);
            }
            assert forall|k: K::V| before@.contains_key(k) && k != key@ implies self@.contains_key(
                k,
            ) by {
                let a = choose|i: int| is_place(before.keys@, before.values@.len(), k, i);
                let i = if a < place { a } else { a - 1 };
                assert(self.keys@[i]@ == k);
            }
            assert(before.keys@[place as int]@ == key@);
            assert(self@ =~= before@.remove(key@));
        }
        Some(value)
    }

    /// Takes some entry out, and hands it back.
    pub fn pop(&mut self) -> (r: Option<(K, V)>)
        ensures
            match r {
                Some((key, value)) => {
                    &&& old(self)@.contains_key(key@)
                    &&& value == old(self)@[key@]
                    &&& final(self)@ == old(self)@.remove(key@)
                    &&& final(self)@.len() + 1 == old(self)@.len()
                },
                None => {
                    &&& old(self)@ == Map::<K::V, V>::empty()
                    &&& final(self)@ == old(self)@
                },
            },
    {
        proof {
            use_type_invariant(&*self);
            self.order_matches_view();
        }
        let count: usize = self.keys.len();
        if count == 0 {
            assert(self@ =~= Map::<K::V, V>::empty());
            return None;
        }
        let key = self.keys[count - 1].duplicate();
        assert(self@.contains_key(key@));
        match self.remove(&key) {
            Some(value) => Some((key, value)),
            None => None,
        }
    }

    /// Takes every entry out.
    pub fn clear(&mut self)
        ensures
            final(self)@ == Map::<K::V, V>::empty(),
    {
        *self = Table::new();
    }
}

impl<K: Key, V: Clone> Clone for Table<K, V> {
    fn clone(&self) -> (r: Self)
        ensures
            r@.dom() == self@.dom(),
            forall|key: K::V| #[trigger]
                self@.contains_key(key) ==> cloned::<V>(self@[key], r@[key]),
            r.order() == self.order(),
    {
        proof {
            use_type_invariant(self);
            self.order_matches_view();
        }
        let mut keys: Vec<K> = Vec::new();
        let mut values: Vec<V> = Vec::new();
        let mut i: usize = 0;
        while i < self.keys.len()
            invariant
                i <= self.keys@.len(),
                self.keys@.len() == self.values@.len(),
                keys@.len() == i,
                values@.len() == i,
                forall|j: int| 0 <= j < i ==> #[trigger] keys@[j]@ == self.keys@[j]@,
                forall|j: int| 0 <= j < i ==> cloned::<V>(self.values@[j], #[trigger] values@[j]),
            decreases self.keys@.len() - i,
        {
            keys.push(self.keys[i].duplicate());
            values.push(self.values[i].clone());
            i += 1;
        }
        assert forall|a: int, b: int| 0 <= a < b < keys@.len() implies #[trigger] keys@[a]@
            != #[trigger] keys@[b]@ by {
            assert(self.keys@[a]@ != self.keys@[b]@);
        }
        let r = Table { keys, values };
        proof {
            r.order_matches_view();
            assert(r.order() =~= self.order());
            assert forall|key: K::V| #[trigger] self@.contains_key(key) implies cloned::<V>(
                self@[key],
                r@[key],
            ) by {
                let j = choose|i: int| is_place(self.keys@, self.values@.len(), key, i);
                assert(r.keys@[j]@ == key);
                assert(self.keys@[j]@ == key);
            }
        }
        r
    }
}

} // verus!
