//! A set of keys that remembers the order in which they were added.

use crate::keys::Key;
use vstd::prelude::*;

verus! {

/// A small set of keys, listed in the order in which they were added.
pub struct KeySet {
    keys: Vec<Key>,
}

/// `keys` with `key` added at the end, unless it is there already.
pub open spec fn with_key(keys: Seq<Key>, key: Key) -> Seq<Key> {
    if keys.contains(key) {
        keys
    } else {
        keys.push(key)
    }
}

/// The test that every key but `key` passes.
pub open spec fn other_than(key: Key) -> spec_fn(Key) -> bool {
    |other: Key| other != key
}

/// `keys` without `key`, the others in their order.
pub open spec fn without_key(keys: Seq<Key>, key: Key) -> Seq<Key> {
    keys.filter(other_than(key))
}

impl View for KeySet {
    type V = Seq<Key>;

    closed spec fn view(&self) -> Seq<Key> {
        self.keys@
    }
}

impl KeySet {
    /// The empty set.
    pub fn new() -> (set: KeySet)
        ensures
            set@ == Seq::<Key>::empty(),
    {
        KeySet { keys: Vec::new() }
    }

    /// Tells whether `key` is in the set.
    pub fn contains(&self, key: Key) -> (contained: bool)
        ensures
            contained == self@.contains(key),
    {
        for i in 0..self.keys.len()
            invariant
                forall|j: int| 0 <= j < i ==> self.keys@[j] != key,
        {
            if self.keys[i] == key {
                return true;
            }
        }
        false
    }

    /// Adds `key` to the set.
    pub fn insert(&mut self, key: Key)
        ensures
            final(self)@ == with_key(old(self)@, key),
    {
        if !self.contains(key) {
            self.keys.push(key);
        }
    }

    /// Takes `key` out of the set.
    pub fn remove(&mut self, key: Key)
        ensures
            final(self)@ == without_key(old(self)@, key),
    {
        let mut kept: Vec<Key> = Vec::new();
        for i in 0..self.keys.len()
            invariant
                kept@ == self.keys@.take(i as int).filter(other_than(key)),
        {
            proof {
                self.keys@.take(i as int).lemma_filter_push(
                    self.keys@[i as int],
                    other_than(key),
                );
                assert(self.keys@.take(i + 1) == self.keys@.take(i as int).push(
                    self.keys@[i as int],
                ));
            }
            if self.keys[i] != key {
                kept.push(self.keys[i]);
            }
        }
        assert(self.keys@.take(self.keys@.len() as int) == self.keys@);
        self.keys = kept;
    }

    /// Takes every key out of the set.
    pub fn clear(&mut self)
        ensures
            final(self)@ == Seq::<Key>::empty(),
    {
        self.keys.clear();
    }

    /// The keys of the set, in order.
    pub fn keys(&self) -> (keys: &Vec<Key>)
        ensures
            keys@ == self@,
    {
        &self.keys
    }
}

impl Clone for KeySet {
    fn clone(&self) -> (copy: KeySet)
        ensures
            copy@ == self@,
    {
        KeySet { keys: self.keys.clone() }
    }
}

} // verus!
