//! Sets of keys, kept in key order.
use crate::key_map::KeyMap;
use crate::order::in_order;
use vstd::prelude::*;

verus! {

/// A set of keys, listed in key order.
#[derive(Debug, PartialEq, PartialOrd)]
pub struct KeySet {
    members: KeyMap<()>,
}

impl View for KeySet {
    type V = Set<Seq<char>>;

    closed spec fn view(&self) -> Set<Seq<char>> {
        self.members@.dom()
    }
}

impl DeepView for KeySet {
    type V = Set<Seq<char>>;

    open spec fn deep_view(&self) -> Set<Seq<char>> {
        self@
    }
}

impl KeySet {
    /// A set without elements.
    pub fn new() -> (r: Self)
        ensures
            r@ == Set::<Seq<char>>::empty(),
    {
        let r = KeySet { members: KeyMap::new() };
        assert(r@ =~= Set::<Seq<char>>::empty());
        r
    }

    /// The number of elements.
    pub fn len(&self) -> (n: usize)
        ensures
            self@.finite(),
            n == self@.len(),
    {
        self.members.len()
    }

    /// The element that is number `i` in key order.
    pub fn key_at(&self, i: usize) -> (k: &str)
        requires
            i < self@.len(),
        ensures
            self@.finite(),
            k@ == in_order(self@)[i as int],
            self@.contains(k@),
    {
        self.members.key_at(i)
    }

    /// Whether `key` is an element.
    pub fn contains(&self, key: &str) -> (r: bool)
        ensures
            r == self@.contains(key@),
    {
        self.members.contains_key(key)
    }

    /// Makes `key` an element.
    pub fn insert(&mut self, key: String)
        ensures
            final(self)@ == old(self)@.insert(key@),
    {
        self.members.insert(key, ());
        assert(self@ =~= old(self)@.insert(key@));
    }
}

impl Default for KeySet {
    fn default() -> (r: Self)
        ensures
            r@ == Set::<Seq<char>>::empty(),
    {
        KeySet::new()
    }
}

} // verus!
