//! The hash tables of `ahash` and `dashmap` that hold read sets, write sets and multi-version
//! memory, with the contracts that the rest of the crate relies on.

use ahash::{AHashMap, AHashSet};
use dashmap::DashMap;
use vstd::prelude::*;

use crate::location::LocationKey;
use crate::types::{MemoryEntry, ReadVersion, TxId};
use crate::versions::{edit_versions, edited, find_latest_before, latest_before, VersionEdit, Versions};

verus! {

/// `ahash::RandomState`, the hash builder of the `ahash` tables.
#[verifier::external_type_specification]
#[verifier::external_body]
pub struct ExAHashRandomState(ahash::RandomState);

/// `ahash::AHashSet`.
#[verifier::external_type_specification]
#[verifier::external_body]
#[verifier::reject_recursive_types(T)]
#[verifier::reject_recursive_types(S)]
pub struct ExAHashSet<T, S>(ahash::AHashSet<T, S>);

/// `ahash::AHashMap`.
#[verifier::external_type_specification]
#[verifier::external_body]
#[verifier::reject_recursive_types(K)]
#[verifier::reject_recursive_types(V)]
#[verifier::reject_recursive_types(S)]
pub struct ExAHashMap<K, V, S>(ahash::AHashMap<K, V, S>);

/// `dashmap::DashMap`.
#[verifier::external_type_specification]
#[verifier::external_body]
#[verifier::reject_recursive_types(K)]
#[verifier::reject_recursive_types(V)]
#[verifier::reject_recursive_types(S)]
pub struct ExDashMap<K, V, S>(dashmap::DashMap<K, V, S>);

/// The version that was read at each location.
pub type Reads = Map<LocationKey, ReadVersion>;

/// The versions of each location.
pub type Memory = Map<LocationKey, Map<TxId, MemoryEntry>>;

/// The locations that an `AHashSet` holds.
pub uninterp spec fn set_contents(s: AHashSet<LocationKey>) -> Set<LocationKey>;

/// The reads that an `AHashMap` holds, by location.
pub uninterp spec fn map_contents(m: AHashMap<LocationKey, ReadVersion>) -> Reads;

/// The versions that a `DashMap` holds, by location.
pub uninterp spec fn memory_contents(m: DashMap<LocationKey, Versions>) -> Memory;

/// `AHashSet::new` makes an empty set.
#[verifier::external_body]
pub(crate) fn set_new() -> (s: AHashSet<LocationKey>)
    ensures
        set_contents(s) == Set::<LocationKey>::empty(),
{
    AHashSet::new()
}

/// `insert`, which `AHashSet` has from `HashSet`, adds the value.
#[verifier::external_body]
pub(crate) fn set_insert(s: &mut AHashSet<LocationKey>, key: LocationKey)
    ensures
        set_contents(*final(s)) == set_contents(*old(s)).insert(key),
{
    s.insert(key);
}

/// `contains`, which `AHashSet` has from `HashSet`, tells whether the set holds an equal value.
#[verifier::external_body]
pub(crate) fn set_contains(s: &AHashSet<LocationKey>, key: &LocationKey) -> (r: bool)
    ensures
        r == set_contents(*s).contains(*key),
{
    s.contains(key)
}

/// `iter`, which `AHashSet` has from `HashSet`, visits every value once, in an order that it
/// leaves open.
#[verifier::external_body]
pub(crate) fn set_items(s: &AHashSet<LocationKey>) -> (r: Vec<LocationKey>)
    ensures
        r@.to_set() == set_contents(*s),
        r@.no_duplicates(),
{
    s.iter().copied().collect()
}

/// `AHashMap::new` makes an empty map.
#[verifier::external_body]
pub(crate) fn map_new() -> (m: AHashMap<LocationKey, ReadVersion>)
    ensures
        map_contents(m) == Reads::empty(),
{
    AHashMap::new()
}

/// `AHashMap::insert` maps the key to the value, in place of what the key had before.
#[verifier::external_body]
pub(crate) fn map_insert(
    m: &mut AHashMap<LocationKey, ReadVersion>,
    key: LocationKey,
    version: ReadVersion,
)
    ensures
        map_contents(*final(m)) == map_contents(*old(m)).insert(key, version),
{
    m.insert(key, version);
}

/// `iter`, which `AHashMap` has from `HashMap`, visits every key once with its value, in an order
/// that it leaves open.
#[verifier::external_body]
pub(crate) fn map_items(m: &AHashMap<LocationKey, ReadVersion>) -> (r: Vec<
    (LocationKey, ReadVersion),
>)
    ensures
        r@.to_set() == map_contents(*m).kv_pairs(),
        r@.no_duplicates(),
{
    m.iter().map(|(key, version)| (*key, *version)).collect()
}

/// `DashMap::new` makes an empty map.
#[verifier::external_body]
pub(crate) fn memory_new() -> (m: DashMap<LocationKey, Versions>)
    ensures
        memory_contents(m) == Memory::empty(),
{
    DashMap::new()
}

/// `DashMap::view` hands the value of the key, if there is one, to the closure and returns what
/// the closure returns. Here the closure looks for the last version before `txid`.
#[verifier::external_body]
pub(crate) fn memory_latest(m: &DashMap<LocationKey, Versions>, key: &LocationKey, txid: TxId) -> (r:
    Option<Option<(TxId, MemoryEntry)>>)
    ensures
        r == (if memory_contents(*m).contains_key(*key) {
            Some(latest_before(memory_contents(*m)[*key], txid))
        } else {
            None
        }),
{
    m.view(key, |_, versions| find_latest_before(versions, txid))
}

/// `DashMap::alter` replaces the value of the key, if there is one, by what the closure makes of
/// it, and leaves every other key alone. Here the closure edits the versions of the location.
#[verifier::external_body]
pub(crate) fn memory_alter(m: &mut DashMap<LocationKey, Versions>, key: &LocationKey, edit: VersionEdit)
    ensures
        memory_contents(*final(m)) == (if memory_contents(*old(m)).contains_key(*key) {
            memory_contents(*old(m)).insert(*key, edited(memory_contents(*old(m))[*key], edit))
        } else {
            memory_contents(*old(m))
        }),
{
    m.alter(key, |_, versions| edit_versions(versions, edit))
}

/// `DashMap::insert` maps the key to the value, in place of what the key had before.
#[verifier::external_body]
pub(crate) fn memory_insert(m: &mut DashMap<LocationKey, Versions>, key: LocationKey, versions: Versions)
    ensures
        memory_contents(*final(m)) == memory_contents(*old(m)).insert(key, versions@),
{
    m.insert(key, versions);
}

} // verus!
