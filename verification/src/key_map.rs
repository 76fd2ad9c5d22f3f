//! Maps and sets keyed by strings, kept in key order.
//!
//! `KeyMap` stores its entries in a vector that ascends by key, so that a
//! key is found by bisection and the entries come out in key order. Its view
//! is the plain mathematical map; the order in which entries are listed is
//! `in_order` of the map's domain.
use crate::order::{ascending, in_order, key_lt, rank, Rank};
use crate::order::{
    lemma_ascending_is_in_order, lemma_ascending_no_duplicates, lemma_in_order, lemma_key_order,
    lemma_take_next,
};
use vstd::prelude::*;

verus! {

/// The map that sends `keys[i]` to `values[i]`.
pub open spec fn pairing<T>(keys: Seq<Seq<char>>, values: Seq<T>) -> Map<Seq<char>, T> {
    Map::new(|k: Seq<char>| keys.contains(k), |k: Seq<char>| values[keys.index_of(k)])
}

proof fn lemma_pairing_at<T>(keys: Seq<Seq<char>>, values: Seq<T>, i: int)
    requires
        keys.no_duplicates(),
        keys.len() == values.len(),
        0 <= i < keys.len(),
    ensures
        pairing(keys, values).contains_key(keys[i]),
        pairing(keys, values)[keys[i]] == values[i],
{
    assert(keys.contains(keys[i]));
    let j = keys.index_of(keys[i]);
    assert(0 <= j < keys.len() && keys[j] == keys[i]);
}

proof fn lemma_pairing_insert<T>(keys: Seq<Seq<char>>, values: Seq<T>, at: int, k: Seq<char>, v: T)
    requires
        keys.no_duplicates(),
        keys.len() == values.len(),
        0 <= at <= keys.len(),
        !keys.contains(k),
    ensures
        keys.insert(at, k).no_duplicates(),
        pairing(keys.insert(at, k), values.insert(at, v)) == pairing(keys, values).insert(k, v),
{
    let keys2 = keys.insert(at, k);
    let values2 = values.insert(at, v);
    assert forall|i: int, j: int| 0 <= i < keys2.len() && 0 <= j < keys2.len() && i != j implies keys2[i]
        != keys2[j] by {
        if i != at && j != at {
            let i0 = if i < at {
                i
            } else {
                i - 1
            };
            let j0 = if j < at {
                j
            } else {
                j - 1
            };
            assert(keys2[i] == keys[i0]);
            assert(keys2[j] == keys[j0]);
        } else if i == at {
            let j0 = if j < at {
                j
            } else {
                j - 1
            };
            assert(keys2[j] == keys[j0]);
            assert(keys.contains(keys[j0]));
        } else {
            let i0 = if i < at {
                i
            } else {
                i - 1
            };
            assert(keys2[i] == keys[i0]);
            assert(keys.contains(keys[i0]));
        }
    }
    let before = pairing(keys, values).insert(k, v);
    let after = pairing(keys2, values2);
    assert forall|q: Seq<char>| after.contains_key(q) == before.contains_key(q) by {
        if keys2.contains(q) {
            let j = choose|j: int| 0 <= j < keys2.len() && keys2[j] == q;
            if j != at {
                let j0 = if j < at {
                    j
                } else {
                    j - 1
                };
                assert(keys[j0] == q);
            }
        }
        if keys.contains(q) {
            let j = choose|j: int| 0 <= j < keys.len() && keys[j] == q;
            let j2 = if j < at {
                j
            } else {
                j + 1
            };
            assert(keys2[j2] == q);
        }
        if q == k {
            assert(keys2[at] == q);
        }
    }
    assert forall|q: Seq<char>| after.contains_key(q) implies after[q] == before[q] by {
        let j = choose|j: int| 0 <= j < keys2.len() && keys2[j] == q;
        lemma_pairing_at(keys2, values2, j);
        if j != at {
            let j0 = if j < at {
                j
            } else {
                j - 1
            };
            assert(keys[j0] == q);
            assert(keys.contains(q));
            lemma_pairing_at(keys, values, j0);
        }
    }
    assert(after =~= before);
}

proof fn lemma_pairing_update<T>(keys: Seq<Seq<char>>, values: Seq<T>, at: int, v: T)
    requires
        keys.no_duplicates(),
        keys.len() == values.len(),
        0 <= at < keys.len(),
    ensures
        pairing(keys, values.update(at, v)) == pairing(keys, values).insert(keys[at], v),
{
    let values2 = values.update(at, v);
    let before = pairing(keys, values).insert(keys[at], v);
    let after = pairing(keys, values2);
    assert(keys.contains(keys[at]));
    assert forall|q: Seq<char>| after.contains_key(q) implies after[q] == before[q] by {
        let j = choose|j: int| 0 <= j < keys.len() && keys[j] == q;
        lemma_pairing_at(keys, values2, j);
        lemma_pairing_at(keys, values, j);
    }
    assert(after =~= before);
}

proof fn lemma_pairing_remove<T>(keys: Seq<Seq<char>>, values: Seq<T>, at: int)
    requires
        keys.no_duplicates(),
        keys.len() == values.len(),
        0 <= at < keys.len(),
    ensures
        keys.remove(at).no_duplicates(),
        pairing(keys.remove(at), values.remove(at)) == pairing(keys, values).remove(keys[at]),
{
    let keys2 = keys.remove(at);
    let values2 = values.remove(at);
    assert forall|i: int, j: int| 0 <= i < keys2.len() && 0 <= j < keys2.len() && i != j implies keys2[i]
        != keys2[j] by {
        let i0 = if i < at {
            i
        } else {
            i + 1
        };
        let j0 = if j < at {
            j
        } else {
            j + 1
        };
        assert(keys2[i] == keys[i0]);
        assert(keys2[j] == keys[j0]);
    }
    let before = pairing(keys, values).remove(keys[at]);
    let after = pairing(keys2, values2);
    assert forall|q: Seq<char>| after.contains_key(q) == before.contains_key(q) by {
        if keys2.contains(q) {
            let j = choose|j: int| 0 <= j < keys2.len() && keys2[j] == q;
            let j0 = if j < at {
                j
            } else {
                j + 1
            };
            assert(keys[j0] == q);
        }
        if keys.contains(q) && q != keys[at] {
            let j = choose|j: int| 0 <= j < keys.len() && keys[j] == q;
            let j2 = if j < at {
                j
            } else {
                j - 1
            };
            assert(keys2[j2] == q);
        }
    }
    assert forall|q: Seq<char>| after.contains_key(q) implies after[q] == before[q] by {
        let j = choose|j: int| 0 <= j < keys2.len() && keys2[j] == q;
        lemma_pairing_at(keys2, values2, j);
        let j0 = if j < at {
            j
        } else {
            j + 1
        };
        assert(keys[j0] == q);
        lemma_pairing_at(keys, values, j0);
    }
    assert(after =~= before);
}

proof fn lemma_ascending_insert(keys: Seq<Seq<char>>, at: int, k: Seq<char>)
    requires
        ascending(keys),
        0 <= at <= keys.len(),
        forall|i: int| 0 <= i < at ==> key_lt(#[trigger] keys[i], k),
        forall|i: int| at <= i < keys.len() ==> key_lt(k, #[trigger] keys[i]),
    ensures
        ascending(keys.insert(at, k)),
{
    let keys2 = keys.insert(at, k);
    assert forall|i: int, j: int| 0 <= i < j < keys2.len() implies key_lt(
        #[trigger] keys2[i],
        #[trigger] keys2[j],
    ) by {
        let i0 = if i < at {
            i
        } else {
            i - 1
        };
        let j0 = if j < at {
            j
        } else {
            j - 1
        };
        if i == at {
            assert(keys2[j] == keys[j0]);
        } else if j == at {
            assert(keys2[i] == keys[i0]);
        } else {
            assert(keys2[i] == keys[i0]);
            assert(keys2[j] == keys[j0]);
            assert(key_lt(keys[i0], keys[j0]));
        }
    }
}

proof fn lemma_ascending_remove(keys: Seq<Seq<char>>, at: int)
    requires
        ascending(keys),
        0 <= at < keys.len(),
    ensures
        ascending(keys.remove(at)),
{
    let keys2 = keys.remove(at);
    assert forall|i: int, j: int| 0 <= i < j < keys2.len() implies key_lt(
        #[trigger] keys2[i],
        #[trigger] keys2[j],
    ) by {
        let i0 = if i < at {
            i
        } else {
            i + 1
        };
        let j0 = if j < at {
            j
        } else {
            j + 1
        };
        assert(keys2[i] == keys[i0]);
        assert(keys2[j] == keys[j0]);
        assert(key_lt(keys[i0], keys[j0]));
    }
}

/// Values of which a second one can be made that stands for the same.
pub trait Replicate: DeepView + Sized {
    fn replicate(&self) -> (r: Self)
        ensures
            r.deep_view() == self.deep_view(),
    ;
}

impl Replicate for u64 {
    fn replicate(&self) -> (r: Self) {
        *self
    }
}

impl Replicate for String {
    fn replicate(&self) -> (r: Self) {
        self.clone()
    }
}

/// The map that holds `entries`, put in one after the other: of two entries
/// with one key the later one stays.
pub open spec fn map_of<T>(entries: Seq<(Seq<char>, T)>) -> Map<Seq<char>, T>
    decreases entries.len(),
{
    if entries.len() == 0 {
        Map::empty()
    } else {
        map_of(entries.drop_last()).insert(entries.last().0, entries.last().1)
    }
}

/// A map from keys to values, listed in key order.
#[derive(Debug, PartialEq, PartialOrd)]
pub struct KeyMap<V> {
    entries: Vec<(String, V)>,
}

impl<V> KeyMap<V> {
    closed spec fn stored_keys(&self) -> Seq<Seq<char>> {
        Seq::new(self.entries@.len(), |i: int| self.entries@[i].0@)
    }

    #[verifier::type_invariant]
    closed spec fn ordered(&self) -> bool {
        ascending(self.stored_keys())
    }
}

impl<V: DeepView> KeyMap<V> {
    closed spec fn stored_values(&self) -> Seq<V::V> {
        Seq::new(self.entries@.len(), |i: int| self.entries@[i].1.deep_view())
    }

    proof fn lemma_listing(&self)
        requires
            self.ordered(),
        ensures
            self@.dom().finite(),
            self@.dom() == self.stored_keys().to_set(),
            self@.dom().len() == self.entries@.len(),
            in_order(self@.dom()) == self.stored_keys(),
            forall|i: int|
                0 <= i < self.entries@.len() ==> self@[#[trigger] self.stored_keys()[i]]
                    == self.entries@[i].1.deep_view(),
    {
        let keys = self.stored_keys();
        lemma_ascending_no_duplicates(keys);
        lemma_ascending_is_in_order(keys);
        keys.unique_seq_to_set();
        assert(self@.dom() =~= keys.to_set());
        assert forall|i: int| 0 <= i < self.entries@.len() implies self@[#[trigger] keys[i]]
            == self.entries@[i].1.deep_view() by {
            lemma_pairing_at(keys, self.stored_values(), i);
        }
    }

    /// Where `key` is stored, or where it would have to be put.
    fn position(&self, key: &str) -> (r: (usize, bool))
        ensures
            r.0 <= self.entries@.len(),
            r.1 ==> r.0 < self.entries@.len() && self.stored_keys()[r.0 as int] == key@,
            !r.1 ==> !self.stored_keys().contains(key@),
            !r.1 ==> forall|i: int| 0 <= i < r.0 ==> key_lt(#[trigger] self.stored_keys()[i], key@),
            !r.1 ==> forall|i: int|
                r.0 <= i < self.entries@.len() ==> key_lt(key@, #[trigger] self.stored_keys()[i]),
    {
        proof {
            use_type_invariant(self);
        }
        let ghost keys = self.stored_keys();
        let mut lo: usize = 0;
        let mut hi: usize = self.entries.len();
        while lo < hi
            invariant
                lo <= hi <= self.entries@.len(),
                keys == self.stored_keys(),
                ascending(keys),
                forall|i: int| 0 <= i < lo ==> key_lt(#[trigger] keys[i], key@),
                forall|i: int| hi <= i < keys.len() ==> key_lt(key@, #[trigger] keys[i]),
            decreases hi - lo,
        {
            let mid = lo + (hi - lo) / 2;
            match rank(self.entries[mid].0.as_str(), key) {
                Rank::Same => {
                    return (mid, true);
                },
                Rank::Before => {
                    proof {
                        assert forall|i: int| 0 <= i < mid + 1 implies key_lt(
                            #[trigger] keys[i],
                            key@,
                        ) by {
                            if i < mid {
                                assert(key_lt(keys[i], keys[mid as int]));
                                lemma_key_order(keys[i], keys[mid as int], key@);
                            }
                        }
                    }
                    lo = mid + 1;
                },
                Rank::After => {
                    proof {
                        lemma_key_order(key@, keys[mid as int], key@);
                        assert forall|i: int| mid <= i < keys.len() implies key_lt(
                            key@,
                            #[trigger] keys[i],
                        ) by {
                            if i > mid {
                                assert(key_lt(keys[mid as int], keys[i]));
                                lemma_key_order(key@, keys[mid as int], keys[i]);
                            }
                        }
                    }
                    hi = mid;
                },
            }
        }
        proof {
            assert forall|i: int| 0 <= i < keys.len() implies keys[i] != key@ by {
                lemma_key_order(key@, key@, key@);
            }
        }
        (lo, false)
    }

    /// A map without entries.
    pub fn new() -> (r: Self)
        ensures
            r@ == Map::<Seq<char>, V::V>::empty(),
    {
        let r = KeyMap { entries: Vec::new() };
        assert(r@ =~= Map::<Seq<char>, V::V>::empty());
        r
    }

    /// The number of entries.
    pub fn len(&self) -> (n: usize)
        ensures
            self@.dom().finite(),
            n == self@.len(),
    {
        proof {
            use_type_invariant(self);
            self.lemma_listing();
        }
        self.entries.len()
    }

    /// The key of the entry that is number `i` in key order.
    pub fn key_at(&self, i: usize) -> (k: &str)
        requires
            i < self@.len(),
        ensures
            self@.dom().finite(),
            k@ == in_order(self@.dom())[i as int],
            self@.contains_key(k@),
    {
        proof {
            use_type_invariant(self);
            self.lemma_listing();
            assert(self.stored_keys().to_set().contains(self.stored_keys()[i as int]));
        }
        self.entries[i].0.as_str()
    }

    /// The value of the entry that is number `i` in key order.
    pub fn value_at(&self, i: usize) -> (v: &V)
        requires
            i < self@.len(),
        ensures
            self@.dom().finite(),
            v.deep_view() == self@[in_order(self@.dom())[i as int]],
    {
        proof {
            use_type_invariant(self);
            self.lemma_listing();
        }
        &self.entries[i].1
    }

    /// The value stored under `key`, if there is one.
    pub fn get(&self, key: &str) -> (r: Option<&V>)
        ensures
            r is Some == self@.contains_key(key@),
            r matches Some(v) ==> v.deep_view() == self@[key@],
    {
        proof {
            use_type_invariant(self);
            self.lemma_listing();
        }
        let (at, found) = self.position(key);
        if found {
            proof {
                assert(self.stored_keys().to_set().contains(self.stored_keys()[at as int]));
            }
            Some(&self.entries[at].1)
        } else {
            None
        }
    }

    /// Whether a value is stored under `key`.
    pub fn contains_key(&self, key: &str) -> (r: bool)
        ensures
            r == self@.contains_key(key@),
    {
        self.get(key).is_some()
    }

    /// Stores `value` under `key`, in place of what was stored there.
    pub fn insert(&mut self, key: String, value: V)
        ensures
            final(self)@ == old(self)@.insert(key@, value.deep_view()),
    {
        proof {
            use_type_invariant(&*self);
            self.lemma_listing();
        }
        let ghost keys = self.stored_keys();
        let ghost values = self.stored_values();
        let (at, found) = self.position(key.as_str());
        let mut entries: Vec<(String, V)> = Vec::new();
        core::mem::swap(&mut self.entries, &mut entries);
        let ghost key_view = key@;
        let ghost value_view = value.deep_view();
        proof {
            lemma_ascending_no_duplicates(keys);
        }
        if found {
            entries.set(at, (key, value));
            proof {
                lemma_pairing_update(keys, values, at as int, value_view);
            }
        } else {
            entries.insert(at, (key, value));
            proof {
                lemma_pairing_insert(keys, values, at as int, key_view, value_view);
            }
        }
        proof {
            let new_keys = Seq::new(entries@.len(), |i: int| entries@[i].0@);
            if found {
                assert(new_keys =~= keys);
            } else {
                lemma_ascending_insert(keys, at as int, key_view);
                assert(new_keys =~= keys.insert(at as int, key_view));
            }
        }
        self.entries = entries;
        proof {
            if found {
                assert(self.stored_keys() =~= keys);
                assert(self.stored_values() =~= values.update(at as int, value_view));
            } else {
                assert(self.stored_keys() =~= keys.insert(at as int, key_view));
                assert(self.stored_values() =~= values.insert(at as int, value_view));
            }
        }
    }

    /// Takes out what is stored under `key`, if anything is.
    pub fn remove(&mut self, key: &str) -> (r: Option<V>)
        ensures
            final(self)@ == old(self)@.remove(key@),
            r is Some == old(self)@.contains_key(key@),
            r matches Some(v) ==> v.deep_view() == old(self)@[key@],
    {
        proof {
            use_type_invariant(&*self);
            self.lemma_listing();
        }
        let ghost keys = self.stored_keys();
        let ghost values = self.stored_values();
        let (at, found) = self.position(key);
        if found {
            let mut entries: Vec<(String, V)> = Vec::new();
            core::mem::swap(&mut self.entries, &mut entries);
            let entry = entries.remove(at);
            proof {
                lemma_ascending_no_duplicates(keys);
                lemma_pairing_remove(keys, values, at as int);
                lemma_pairing_at(keys, values, at as int);
            }
            proof {
                let new_keys = Seq::new(entries@.len(), |i: int| entries@[i].0@);
                lemma_ascending_remove(keys, at as int);
                assert(new_keys =~= keys.remove(at as int));
            }
            self.entries = entries;
            proof {
                assert(self.stored_keys() =~= keys.remove(at as int));
                assert(self.stored_values() =~= values.remove(at as int));
            }
            Some(entry.1)
        } else {
            proof {
                assert(self@ =~= self@.remove(key@));
            }
            None
        }
    }
}

impl<V: DeepView> KeyMap<V> {
    /// The map that holds the given entries; of two with one key the later
    /// one stays.
    pub fn from_entries(entries: Vec<(String, V)>) -> (r: Self)
        ensures
            r@ == map_of(entries.deep_view()),
    {
        let ghost all = entries.deep_view();
        let mut r: KeyMap<V> = KeyMap::new();
        for entry in it: entries
            invariant
                all == it.seq().map_values(|e: (String, V)| e.deep_view()),
                r@ == map_of(all.take(it.index() as int)),
        {
            proof {
                let n = it.index() as int;
                assert(all.take(n + 1).drop_last() =~= all.take(n));
                assert(all.take(n + 1).last() == entry.deep_view());
            }
            r.insert(entry.0, entry.1);
        }
        proof {
            assert(all.take(all.len() as int) =~= all);
        }
        r
    }
}

impl<V: Replicate> KeyMap<V> {
    /// Puts every entry of `other` into this map, in place of what was
    /// stored under the same key.
    pub fn extend_from(&mut self, other: &KeyMap<V>)
        ensures
            final(self)@ == old(self)@.union_prefer_right(other@),
    {
        let n = other.len();
        let ghost keys = in_order(other@.dom());
        proof {
            lemma_in_order(other@.dom());
            assert(keys.take(0) =~= Seq::empty());
            assert(self@ =~= old(self)@.union_prefer_right(
                other@.restrict(Set::new(|k: Seq<char>| keys.take(0).contains(k))),
            ));
        }
        let mut i: usize = 0;
        while i < n
            invariant
                i <= n,
                n == other@.len(),
                other@.dom().finite(),
                keys == in_order(other@.dom()),
                keys.len() == n,
                keys.to_set() == other@.dom(),
                self@ == old(self)@.union_prefer_right(
                    other@.restrict(Set::new(|k: Seq<char>| keys.take(i as int).contains(k))),
                ),
            decreases n - i,
        {
            let key = other.key_at(i);
            let value = other.value_at(i);
            self.insert(key.to_owned(), value.replicate());
            proof {
                lemma_take_next(keys, i as int);
                assert(self@ =~= old(self)@.union_prefer_right(
                    other@.restrict(Set::new(|k: Seq<char>| keys.take(i + 1).contains(k))),
                ));
            }
            i += 1;
        }
        proof {
            assert(keys.take(n as int) =~= keys);
            assert forall|q: Seq<char>| other@.dom().contains(q) implies keys.contains(q) by {
                assert(keys.to_set().contains(q));
            }
            assert(other@.restrict(Set::new(|k: Seq<char>| keys.contains(k))) =~= other@);
        }
    }
}

impl<V: Replicate> Clone for KeyMap<V> {
    fn clone(&self) -> (r: Self)
        ensures
            r@ == self@,
    {
        proof {
            use_type_invariant(self);
        }
        let mut entries: Vec<(String, V)> = Vec::new();
        let mut i: usize = 0;
        while i < self.entries.len()
            invariant
                i <= self.entries@.len(),
                entries@.len() == i,
                forall|j: int|
                    0 <= j < i ==> (#[trigger] entries@[j]).0@ == self.entries@[j].0@
                        && entries@[j].1.deep_view() == self.entries@[j].1.deep_view(),
            decreases self.entries@.len() - i,
        {
            entries.push((self.entries[i].0.clone(), self.entries[i].1.replicate()));
            i += 1;
        }
        proof {
            let keys = Seq::new(entries@.len(), |i: int| entries@[i].0@);
            assert(keys =~= self.stored_keys());
        }
        let r = KeyMap { entries };
        proof {
            assert(r.stored_keys() =~= self.stored_keys());
            assert(r.stored_values() =~= self.stored_values());
        }
        r
    }
}

impl<V: DeepView> View for KeyMap<V> {
    type V = Map<Seq<char>, V::V>;

    closed spec fn view(&self) -> Map<Seq<char>, V::V> {
        pairing(self.stored_keys(), self.stored_values())
    }
}

impl<V: DeepView> DeepView for KeyMap<V> {
    type V = Map<Seq<char>, V::V>;

    open spec fn deep_view(&self) -> Map<Seq<char>, V::V> {
        self@
    }
}

impl<V: DeepView> Default for KeyMap<V> {
    fn default() -> (r: Self)
        ensures
            r@ == Map::<Seq<char>, V::V>::empty(),
    {
        KeyMap::new()
    }
}

} // verus!
