//! What one execution of a transaction read and wrote.

use ahash::{AHashMap, AHashSet};
use vstd::prelude::*;

use crate::collections::{
    map_contents, map_insert, map_items, map_new, set_contains, set_contents, set_insert,
    set_items, set_new, Reads,
};
use crate::location::{LocationAndType, LocationKey};
use crate::types::ReadVersion;

verus! {

/// The locations that an execution read, each with the version that it saw.
pub struct ReadSet {
    table: AHashMap<LocationKey, ReadVersion>,
}

impl View for ReadSet {
    type V = Reads;

    closed spec fn view(&self) -> Reads {
        map_contents(self.table)
    }
}

impl ReadSet {
    /// A read set without reads.
    pub fn new() -> (r: ReadSet)
        ensures
            r@ == Reads::empty(),
    {
        ReadSet { table: map_new() }
    }

    /// Records that `location` was read in version `version`.
    pub fn insert(&mut self, location: &LocationAndType, version: ReadVersion)
        ensures
            final(self)@ == old(self)@.insert(location.spec_key(), version),
    {
        map_insert(&mut self.table, location.key(), version);
    }

    /// The reads, each location once, in any order.
    pub fn items(&self) -> (r: Vec<(LocationKey, ReadVersion)>)
        ensures
            forall|i: int|
                0 <= i < r@.len() ==> self@.contains_key((#[trigger] r@[i]).0) && self@[r@[i].0]
                    == r@[i].1,
            forall|key: LocationKey| #[trigger]
                self@.contains_key(key) ==> exists|i: int|
                    0 <= i < r@.len() && #[trigger] r@[i] == (key, self@[key]),
            forall|i: int, j: int| 0 <= i < j < r@.len() ==> r@[i].0 != r@[j].0,
            r@.to_set() == self@.kv_pairs(),
    {
        let r = map_items(&self.table);
        proof {
            assert forall|i: int| 0 <= i < r@.len() implies self@.contains_key((#[trigger] r@[i]).0)
                && self@[r@[i].0] == r@[i].1 by {
                assert(r@.to_set().contains(r@[i]));
                assert(self@.kv_pairs().contains(r@[i]));
            }
            assert forall|key: LocationKey| #[trigger] self@.contains_key(key) implies exists|i: int|
                0 <= i < r@.len() && #[trigger] r@[i] == (key, self@[key]) by {
                assert(self@.kv_pairs().contains((key, self@[key])));
                assert(r@.to_set().contains((key, self@[key])));
            }
        }
        r
    }
}

/// The locations that an execution wrote.
pub struct WriteSet {
    table: AHashSet<LocationKey>,
}

impl View for WriteSet {
    type V = Set<LocationKey>;

    closed spec fn view(&self) -> Set<LocationKey> {
        set_contents(self.table)
    }
}

impl WriteSet {
    /// A write set without writes.
    pub fn new() -> (r: WriteSet)
        ensures
            r@ == Set::<LocationKey>::empty(),
    {
        WriteSet { table: set_new() }
    }

    /// Records that `location` was written.
    pub fn insert(&mut self, location: &LocationAndType)
        ensures
            final(self)@ == old(self)@.insert(location.spec_key()),
    {
        set_insert(&mut self.table, location.key());
    }

    /// Whether the location with this key was written.
    pub fn contains(&self, key: &LocationKey) -> (r: bool)
        ensures
            r == self@.contains(*key),
    {
        set_contains(&self.table, key)
    }

    /// The locations, each once, in any order.
    pub fn items(&self) -> (r: Vec<LocationKey>)
        ensures
            r@.to_set() == self@,
            r@.no_duplicates(),
    {
        set_items(&self.table)
    }

    /// Whether every location of this set is in `other`.
    pub fn is_subset_of(&self, other: &WriteSet) -> (r: bool)
        ensures
            r == self@.subset_of(other@),
    {
        let items = self.items();
        for i in 0..items.len()
            invariant
                items@.to_set() == self@,
                forall|j: int| 0 <= j < i ==> other@.contains(#[trigger] items@[j]),
        {
            if !other.contains(&items[i]) {
                proof {
                    assert(items@.to_set().contains(items@[i as int]));
                }
                return false;
            }
        }
        proof {
            assert forall|key: LocationKey| self@.contains(key) implies other@.contains(key) by {
                assert(items@.to_set().contains(key));
                let j = choose|j: int| 0 <= j < items@.len() && items@[j] == key;
                assert(other@.contains(items@[j]));
            }
        }
        true
    }
}

} // verus!
