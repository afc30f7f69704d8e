//! Reads held against multi-version memory.

use vstd::prelude::*;

use crate::access::ReadSet;
use crate::collections::{Memory, Reads};
use crate::consistency::{lemma_feeds, lemma_greatest};
use crate::location::LocationKey;
use crate::memory::{latest_write, MVMemory};
use crate::model::{
    feeds, greatest, is_greatest, last_writer, last_writer_from, read_is_current,
    reads_are_current,
};
use crate::types::{ReadVersion, TxId};

verus! {

/// One of the first `n` reads comes from `id`.
spec fn feeds_up_to(
    memory: Memory,
    items: Seq<(LocationKey, ReadVersion)>,
    n: int,
    txid: TxId,
    id: TxId,
) -> bool {
    exists|i: int|
        0 <= i < n && (latest_write(memory, (#[trigger] items[i]).0, txid) matches Some((writer, _))
            && writer == id)
}

/// `items` are the reads of the set.
spec fn lists(items: Seq<(LocationKey, ReadVersion)>, reads: Reads) -> bool {
    &&& forall|i: int|
        0 <= i < items.len() ==> reads.contains_key((#[trigger] items[i]).0) && reads[items[i].0]
            == items[i].1
    &&& forall|key: LocationKey| #[trigger]
        reads.contains_key(key) ==> exists|i: int|
            0 <= i < items.len() && #[trigger] items[i] == (key, reads[key])
}

/// What feeds the transaction is what one of its reads comes from.
proof fn lemma_feeds_listed(
    memory: Memory,
    reads: Reads,
    items: Seq<(LocationKey, ReadVersion)>,
    txid: TxId,
)
    requires
        lists(items, reads),
    ensures
        forall|id: TxId|
            feeds_up_to(memory, items, items.len() as int, txid, id) == #[trigger] feeds(
                memory,
                reads,
                txid,
                id,
            ),
{
    assert forall|id: TxId|
        feeds_up_to(memory, items, items.len() as int, txid, id) == #[trigger] feeds(
            memory,
            reads,
            txid,
            id,
        ) by {
        if feeds(memory, reads, txid, id) {
            let key = choose|key: LocationKey| #[trigger]
                reads.contains_key(key) && (latest_write(memory, key, txid) matches Some(
                    (writer, _),
                ) && writer == id);
            let i = choose|i: int|
                0 <= i < items.len() && #[trigger] items[i] == (key, reads[key]);
            assert(items[i].0 == key);
        }
        if feeds_up_to(memory, items, items.len() as int, txid, id) {
            let i = choose|i: int|
                0 <= i < items.len() && (latest_write(memory, (#[trigger] items[i]).0, txid) matches Some(
                    (writer, _),
                ) && writer == id);
            assert(reads.contains_key(items[i].0));
        }
    }
}

/// The greatest is the only one.
proof fn lemma_greatest_is(p: spec_fn(TxId) -> bool, id: TxId)
    requires
        is_greatest(p, id),
    ensures
        greatest(p) == Some(id),
{
}

/// Whether some read is no longer current, and the last writer of what was read.
pub fn check_reads(memory: &MVMemory, read_set: &ReadSet, txid: TxId) -> (r: (bool, Option<TxId>))
    ensures
        r.0 == !reads_are_current(memory@, read_set@, txid),
        r.1 == last_writer(memory@, read_set@, txid),
{
    let items = read_set.items();
    let mut conflict = false;
    let mut dependency: Option<TxId> = None;
    let mut n: usize = 0;
    while n < items.len()
        invariant
            n <= items.len(),
            lists(items@, read_set@),
            conflict == exists|i: int|
                0 <= i < n && !read_is_current(
                    memory@,
                    (#[trigger] items@[i]).0,
                    txid,
                    items@[i].1,
                ),
            match dependency {
                Some(d) => feeds_up_to(memory@, items@, n as int, txid, d) && forall|id: TxId|
                    #[trigger] feeds_up_to(memory@, items@, n as int, txid, id) ==> id <= d,
                None => forall|id: TxId| !#[trigger] feeds_up_to(memory@, items@, n as int, txid, id),
            },
        decreases items.len() - n,
    {
        let (key, version) = items[n];
        let found = memory.latest(&key, txid);
        let ghost before = dependency;
        match found {
            Some((previous_id, latest_version)) => {
                dependency = match dependency {
                    Some(d) => if d < previous_id {
                        Some(previous_id)
                    } else {
                        Some(d)
                    },
                    None => Some(previous_id),
                };
                if latest_version.estimate {
                    conflict = true;
                } else {
                    match version {
                        ReadVersion::MvMemory(seen) => {
                            if seen.txid != previous_id || seen.incarnation
                                != latest_version.incarnation {
                                conflict = true;
                            }
                        },
                        ReadVersion::Storage => {
                            conflict = true;
                        },
                    }
                }
            },
            None => {
                match version {
                    ReadVersion::MvMemory(_) => {
                        conflict = true;
                    },
                    ReadVersion::Storage => {},
                }
            },
        }
        proof {
            assert(items@[n as int] == (key, version));
            assert forall|id: TxId| #[trigger]
                feeds_up_to(memory@, items@, n + 1, txid, id) == (feeds_up_to(
                    memory@,
                    items@,
                    n as int,
                    txid,
                    id,
                ) || (found matches Some((writer, _)) && writer == id)) by {
                if feeds_up_to(memory@, items@, n as int, txid, id) {
                    let i = choose|i: int|
                        0 <= i < n && (latest_write(memory@, (#[trigger] items@[i]).0, txid) matches Some(
                            (writer, _),
                        ) && writer == id);
                    assert(items@[i] == items@[i]);
                }
            }
            if let Some(d) = before {
                assert(feeds_up_to(memory@, items@, n as int, txid, d));
            }
        }
        n = n + 1;
    }
    proof {
        let n = items@.len() as int;
        let p = |id: TxId| feeds(memory@, read_set@, txid, id);
        lemma_feeds_listed(memory@, read_set@, items@, txid);
        lemma_feeds(memory@, read_set@, txid);
        lemma_greatest(p, txid);
        if let Some(d) = dependency {
            assert forall|id: TxId| #[trigger] p(id) implies id <= d by {
                assert(feeds_up_to(memory@, items@, n, txid, id));
            }
            assert(p(d));
            lemma_greatest_is(p, d);
        } else if let Some(id) = greatest(p) {
            assert(p(id));
            assert(feeds_up_to(memory@, items@, n, txid, id));
        }
        if !conflict {
            assert forall|key: LocationKey| #[trigger] read_set@.contains_key(key) implies read_is_current(
                memory@,
                key,
                txid,
                read_set@[key],
            ) by {
                let i = choose|i: int|
                    0 <= i < items@.len() && #[trigger] items@[i] == (key, read_set@[key]);
                assert(read_is_current(memory@, items@[i].0, txid, items@[i].1));
            }
        } else {
            let i = choose|i: int|
                0 <= i < n && !read_is_current(
                    memory@,
                    (#[trigger] items@[i]).0,
                    txid,
                    items@[i].1,
                );
            assert(read_set@.contains_key(items@[i].0));
        }
    }
    (conflict, dependency)
}

/// The last writer of what was read, among those not before `from`. To keep dependencies few, a
/// transaction waits for that one only.
pub fn find_writer_from(memory: &MVMemory, read_set: &ReadSet, txid: TxId, from: TxId) -> (r: Option<
    TxId,
>)
    ensures
        r == last_writer_from(memory@, read_set@, txid, from),
{
    let items = read_set.items();
    let mut max_dep_id: Option<TxId> = None;
    let ghost p = |id: TxId| feeds(memory@, read_set@, txid, id) && id >= from;
    proof {
        lemma_feeds_listed(memory@, read_set@, items@, txid);
        lemma_feeds(memory@, read_set@, txid);
        lemma_greatest(p, txid);
    }
    let mut n: usize = 0;
    while n < items.len()
        invariant
            n <= items.len(),
            lists(items@, read_set@),
            p == (|id: TxId| feeds(memory@, read_set@, txid, id) && id >= from),
            forall|id: TxId| #[trigger] feeds(memory@, read_set@, txid, id) ==> id < txid,
            match max_dep_id {
                Some(d) => p(d) && forall|id: TxId| #[trigger]
                    feeds_up_to(memory@, items@, n as int, txid, id) && id >= from ==> id <= d,
                None => forall|id: TxId| #[trigger]
                    feeds_up_to(memory@, items@, n as int, txid, id) ==> id < from,
            },
        decreases items.len() - n,
    {
        let found = memory.latest(&items[n].0, txid);
        let ghost before = max_dep_id;
        if let Some((dep_id, _)) = found {
            proof {
                assert(read_set@.contains_key(items@[n as int].0));
                assert(feeds(memory@, read_set@, txid, dep_id));
            }
            let higher = match max_dep_id {
                Some(d) => dep_id > d,
                None => true,
            };
            if higher && dep_id >= from {
                max_dep_id = Some(dep_id);
                if dep_id == txid - 1 {
                    proof {
                        assert forall|id: TxId| #[trigger] p(id) implies id <= dep_id by {
                            assert(feeds(memory@, read_set@, txid, id));
                        }
                        assert(p(dep_id));
                        lemma_greatest_is(p, dep_id);
                    }
                    return max_dep_id;
                }
            }
        }
        proof {
            assert forall|id: TxId| #[trigger]
                feeds_up_to(memory@, items@, n + 1, txid, id) implies feeds_up_to(
                memory@,
                items@,
                n as int,
                txid,
                id,
            ) || (found matches Some((writer, _)) && writer == id) by {}
        }
        n = n + 1;
    }
    proof {
        let n = items@.len() as int;
        lemma_feeds_listed(memory@, read_set@, items@, txid);
        if let Some(d) = max_dep_id {
            assert forall|id: TxId| #[trigger] p(id) implies id <= d by {
                assert(feeds(memory@, read_set@, txid, id));
                assert(feeds_up_to(memory@, items@, n, txid, id));
            }
            lemma_greatest_is(p, d);
        } else if let Some(id) = greatest(p) {
            assert(is_greatest(p, id));
            assert(p(id));
            assert(feeds(memory@, read_set@, txid, id));
            assert(feeds_up_to(memory@, items@, n, txid, id));
        }
    }
    max_dep_id
}

} // verus!
