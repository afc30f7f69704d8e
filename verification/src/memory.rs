//! Multi-version memory: for each location, every write of the block that is still in force.

use dashmap::DashMap;
use vstd::prelude::*;

use crate::access::WriteSet;
use crate::collections::{
    memory_alter, memory_contents, memory_insert, memory_latest, memory_new, Memory,
};
use crate::location::LocationKey;
use crate::types::{MemoryEntry, TxId};
use crate::versions::{edit_versions, edited, latest_before, VersionEdit, Versions};

verus! {

/// The versions of a location, none where it was never written.
pub open spec fn versions_at(memory: Memory, key: LocationKey) -> Map<TxId, MemoryEntry> {
    if memory.contains_key(key) {
        memory[key]
    } else {
        Map::empty()
    }
}

/// The last write to a location by a transaction before `txid`.
pub open spec fn latest_write(memory: Memory, key: LocationKey, txid: TxId) -> Option<
    (TxId, MemoryEntry),
> {
    latest_before(versions_at(memory, key), txid)
}

/// Memory after transaction `txid` wrote `entry` at each of `keys`.
pub open spec fn published(
    memory: Memory,
    keys: Set<LocationKey>,
    txid: TxId,
    entry: MemoryEntry,
) -> Memory {
    Memory::new(
        |key: LocationKey| memory.contains_key(key) || keys.contains(key),
        |key: LocationKey|
            if keys.contains(key) {
                versions_at(memory, key).insert(txid, entry)
            } else {
                memory[key]
            },
    )
}

/// Memory after one edit of the versions at each of `keys` that it knows.
pub open spec fn edited_at(memory: Memory, keys: Set<LocationKey>, edit: VersionEdit) -> Memory {
    memory.map_entries(
        |key: LocationKey, versions: Map<TxId, MemoryEntry>|
            if keys.contains(key) {
                edited(versions, edit)
            } else {
                versions
            },
    )
}

/// Multi-version memory.
pub struct MVMemory {
    table: DashMap<LocationKey, Versions>,
}

impl View for MVMemory {
    type V = Memory;

    closed spec fn view(&self) -> Memory {
        memory_contents(self.table)
    }
}

impl MVMemory {
    /// Memory before any write.
    pub fn new() -> (m: MVMemory)
        ensures
            m@ == Memory::empty(),
    {
        MVMemory { table: memory_new() }
    }

    /// The last write to a location by a transaction before `txid`.
    pub fn latest(&self, key: &LocationKey, txid: TxId) -> (r: Option<(TxId, MemoryEntry)>)
        ensures
            r == latest_write(self@, *key, txid),
    {
        match memory_latest(&self.table, key, txid) {
            Some(found) => found,
            None => {
                proof {
                    crate::versions::lemma_latest_before(Map::empty(), txid);
                }
                None
            },
        }
    }

    /// Records that `txid` wrote `entry` at one location.
    fn write(&mut self, key: LocationKey, txid: TxId, entry: MemoryEntry)
        ensures
            final(self)@ == old(self)@.insert(key, versions_at(old(self)@, key).insert(txid, entry)),
    {
        let edit = VersionEdit::Write(txid, entry);
        if memory_latest(&self.table, &key, txid).is_some() {
            memory_alter(&mut self.table, &key, edit);
        } else {
            memory_insert(&mut self.table, key, edit_versions(Versions::new(), edit));
        }
    }

    /// Records that `txid` wrote `entry` at each location of `write_set`.
    pub fn publish(&mut self, write_set: &WriteSet, txid: TxId, entry: MemoryEntry)
        ensures
            final(self)@ == published(old(self)@, write_set@, txid, entry),
    {
        let keys = write_set.items();
        let ghost before = self@;
        proof {
            assert(published(before, keys@.take(0).to_set(), txid, entry) =~= before);
        }
        for i in 0..keys.len()
            invariant
                self@ == published(before, keys@.take(i as int).to_set(), txid, entry),
                keys@.no_duplicates(),
        {
            let ghost done = keys@.take(i as int).to_set();
            let ghost next = keys@.take(i + 1).to_set();
            self.write(keys[i], txid, entry);
            proof {
                lemma_take_next(keys@, i as int);
                assert(self@ =~= published(before, next, txid, entry));
            }
        }
        proof {
            assert(keys@.take(keys@.len() as int) =~= keys@);
        }
    }

    /// Applies one edit at each location of `keys` that memory knows.
    fn edit_all(&mut self, keys: &Vec<LocationKey>, edit: VersionEdit)
        requires
            keys@.no_duplicates(),
        ensures
            final(self)@ == edited_at(old(self)@, keys@.to_set(), edit),
    {
        let ghost before = self@;
        proof {
            assert(edited_at(before, keys@.take(0).to_set(), edit) =~= before);
        }
        for i in 0..keys.len()
            invariant
                self@ == edited_at(before, keys@.take(i as int).to_set(), edit),
                keys@.no_duplicates(),
        {
            let ghost next = keys@.take(i + 1).to_set();
            proof {
                lemma_take_next(keys@, i as int);
            }
            memory_alter(&mut self.table, &keys[i], edit);
            proof {
                assert(self@ =~= edited_at(before, next, edit));
            }
        }
        proof {
            assert(keys@.take(keys@.len() as int) =~= keys@);
        }
    }

    /// Marks what `txid` wrote at each location of `write_set` as an estimate: the transaction
    /// will run again, and until then nobody should rely on the value.
    pub fn mark_estimate(&mut self, txid: TxId, write_set: &WriteSet)
        ensures
            final(self)@ == edited_at(old(self)@, write_set@, VersionEdit::MarkEstimate(txid)),
    {
        self.edit_all(&write_set.items(), VersionEdit::MarkEstimate(txid));
    }

    /// Takes out what `txid` wrote at the locations of `last` that are not in `current`.
    pub fn retire(&mut self, txid: TxId, last: &WriteSet, current: &WriteSet)
        ensures
            final(self)@ == edited_at(
                old(self)@,
                last@.difference(current@),
                VersionEdit::Retire(txid),
            ),
    {
        let keys = last.items();
        let mut stale: Vec<LocationKey> = Vec::new();
        for i in 0..keys.len()
            invariant
                keys@.no_duplicates(),
                stale@.no_duplicates(),
                stale@.to_set() =~= keys@.take(i as int).to_set().difference(current@),
        {
            proof {
                lemma_take_next(keys@, i as int);
            }
            if !current.contains(&keys[i]) {
                proof {
                    assert(!stale@.to_set().contains(keys@[i as int]));
                    assert(!stale@.contains(keys@[i as int]));
                    assert(stale@.push(keys@[i as int]).to_set() =~= stale@.to_set().insert(
                        keys@[i as int],
                    )) by {
                        lemma_push_to_set(stale@, keys@[i as int]);
                    }
                }
                stale.push(keys[i]);
            }
        }
        proof {
            assert(keys@.take(keys@.len() as int) =~= keys@);
        }
        self.edit_all(&stale, VersionEdit::Retire(txid));
    }
}

/// The set of the first `i + 1` elements adds element `i`, which is new where elements are
/// distinct.
proof fn lemma_take_next<A>(s: Seq<A>, i: int)
    requires
        0 <= i < s.len(),
    ensures
        s.take(i + 1).to_set() == s.take(i).to_set().insert(s[i]),
        s.no_duplicates() ==> !s.take(i).to_set().contains(s[i]),
{
    assert(s.take(i + 1) =~= s.take(i).push(s[i]));
    lemma_push_to_set(s.take(i), s[i]);
}

proof fn lemma_push_to_set<A>(s: Seq<A>, a: A)
    ensures
        s.push(a).to_set() == s.to_set().insert(a),
{
    assert forall|x: A| s.push(a).to_set().contains(x) == s.to_set().insert(a).contains(x) by {
        if s.push(a).contains(x) {
            let j = choose|j: int| 0 <= j < s.push(a).len() && s.push(a)[j] == x;
            assert(j < s.len() ==> s[j] == x);
        }
        if s.contains(x) {
            let j = choose|j: int| 0 <= j < s.len() && s[j] == x;
            assert(s.push(a)[j] == x);
        }
        assert(s.push(a)[s.len() as int] == a);
    }
    assert(s.push(a).to_set() =~= s.to_set().insert(a));
}

} // verus!
