//! The versions of one location: which transactions wrote it, and in which incarnation.

use std::collections::BTreeMap;
use vstd::prelude::*;

use crate::types::{MemoryEntry, TxId};

verus! {

/// The versions of one location, by writing transaction.
pub type Versions = BTreeMap<TxId, MemoryEntry>;

/// `id` is the last transaction before `txid` that wrote the location.
pub open spec fn is_latest_before(versions: Map<TxId, MemoryEntry>, txid: TxId, id: TxId) -> bool {
    &&& versions.contains_key(id)
    &&& id < txid
    &&& forall|other: TxId| #[trigger]
        versions.contains_key(other) && other < txid ==> other <= id
}

/// The last write before `txid`: the writer and its entry. `None` when no earlier transaction
/// wrote the location.
pub open spec fn latest_before(versions: Map<TxId, MemoryEntry>, txid: TxId) -> Option<
    (TxId, MemoryEntry),
> {
    if exists|id: TxId| is_latest_before(versions, txid, id) {
        let id = choose|id: TxId| is_latest_before(versions, txid, id);
        Some((id, versions[id]))
    } else {
        None
    }
}

/// Among the writers before `txid` there is a last one.
pub proof fn lemma_latest_exists(versions: Map<TxId, MemoryEntry>, txid: TxId, some: TxId)
    requires
        versions.contains_key(some),
        some < txid,
    ensures
        latest_before(versions, txid) is Some,
        (latest_before(versions, txid)->0).0 >= some,
    decreases txid - some,
{
    if is_latest_before(versions, txid, some) {
    } else {
        let other = choose|other: TxId| #[trigger]
            versions.contains_key(other) && other < txid && other > some;
        lemma_latest_exists(versions, txid, other);
    }
    let id = choose|id: TxId| is_latest_before(versions, txid, id);
    assert(is_latest_before(versions, txid, id));
}

/// What `latest_before` returns, without `choose`.
pub proof fn lemma_latest_before(versions: Map<TxId, MemoryEntry>, txid: TxId)
    ensures
        match latest_before(versions, txid) {
            Some((id, entry)) => is_latest_before(versions, txid, id) && entry == versions[id],
            None => forall|id: TxId| #[trigger] versions.contains_key(id) ==> id >= txid,
        },
{
    if latest_before(versions, txid) is None {
        assert forall|id: TxId| #[trigger] versions.contains_key(id) implies id >= txid by {
            if id < txid {
                lemma_latest_exists(versions, txid, id);
            }
        }
    }
}

/// A writer that no writer before `txid` follows is the one that `latest_before` returns.
pub proof fn lemma_latest_is(versions: Map<TxId, MemoryEntry>, txid: TxId, id: TxId)
    requires
        is_latest_before(versions, txid, id),
    ensures
        latest_before(versions, txid) == Some((id, versions[id])),
{
    lemma_latest_before(versions, txid);
}

/// The last write before `txid`.
pub fn find_latest_before(versions: &Versions, txid: TxId) -> (r: Option<(TxId, MemoryEntry)>)
    ensures
        r == latest_before(versions@, txid),
{
    broadcast use vstd::std_specs::btree::group_btree_axioms;

    let mut found: Option<TxId> = None;
    for id in it: versions.keys()
        invariant
            vstd::std_specs::btree::key_obeys_cmp_spec::<TxId>(),
            match found {
                Some(f) => versions@.contains_key(f) && f < txid && forall|i: int|
                    0 <= i < it.index() && *#[trigger] it.seq()[i] < txid ==> *it.seq()[i] <= f,
                None => forall|i: int| 0 <= i < it.index() ==> *#[trigger] it.seq()[i] >= txid,
            },
    {
        let id: TxId = *id;
        if id < txid {
            match found {
                Some(f) => {
                    if f < id {
                        found = Some(id);
                    }
                },
                None => {
                    found = Some(id);
                },
            }
        }
    }
    match found {
        Some(f) => {
            proof {
                lemma_latest_is(versions@, txid, f);
            }
            match versions.get(&f) {
                Some(entry) => Some((f, *entry)),
                None => None,
            }
        },
        None => {
            proof {
                lemma_latest_before(versions@, txid);
            }
            None
        },
    }
}

/// A change to the versions of one location.
#[derive(Clone, Copy, Debug, PartialEq, Eq, Structural)]
pub enum VersionEdit {
    /// The transaction wrote the location.
    Write(TxId, MemoryEntry),
    /// The transaction no longer writes the location.
    Retire(TxId),
    /// The value that the transaction wrote may change: it will run again.
    MarkEstimate(TxId),
}

/// The versions after a change.
pub open spec fn edited(versions: Map<TxId, MemoryEntry>, edit: VersionEdit) -> Map<
    TxId,
    MemoryEntry,
> {
    match edit {
        VersionEdit::Write(txid, entry) => versions.insert(txid, entry),
        VersionEdit::Retire(txid) => versions.remove(txid),
        VersionEdit::MarkEstimate(txid) => if versions.contains_key(txid) {
            versions.insert(
                txid,
                MemoryEntry { incarnation: versions[txid].incarnation, estimate: true },
            )
        } else {
            versions
        },
    }
}

/// Applies a change to the versions of one location.
pub fn edit_versions(versions: Versions, edit: VersionEdit) -> (r: Versions)
    ensures
        r@ == edited(versions@, edit),
{
    broadcast use vstd::std_specs::btree::group_btree_axioms;

    let mut versions = versions;
    match edit {
        VersionEdit::Write(txid, entry) => {
            versions.insert(txid, entry);
        },
        VersionEdit::Retire(txid) => {
            versions.remove(&txid);
        },
        VersionEdit::MarkEstimate(txid) => {
            let marked = match versions.get(&txid) {
                Some(entry) => Some(MemoryEntry { incarnation: entry.incarnation, estimate: true }),
                None => None,
            };
            if let Some(entry) = marked {
                versions.insert(txid, entry);
            }
        },
    }
    versions
}

} // verus!
