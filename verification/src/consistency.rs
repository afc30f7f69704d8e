//! What holds of the scheduler in every state, and why every step keeps it.

use vstd::prelude::*;

use crate::collections::{Memory, Reads};
use crate::detect_set::{adding_extends_the_prefix, continuous_is_the_longest_prefix};
use crate::location::LocationKey;
use crate::memory::{edited_at, latest_write, published, versions_at};
use crate::model::{feeds, greatest, is_greatest, wrote, Followup, Model, ResultModel};
use crate::types::{MemoryEntry, TransactionStatus, TxId, TxVersion};
use crate::versions::{lemma_latest_before, VersionEdit};

verus! {

impl<S, X, O, E> Model<S, X, O, E> {
    /// The result of the transaction has been handed to the committer.
    pub open spec fn handed_over(self, i: int) -> bool {
        i < self.ctx.commit_idx || (self.committing && i == self.ctx.commit_idx)
    }

    /// The transaction has an execution that succeeded.
    pub open spec fn succeeded(self, i: int) -> bool {
        self.tx_results[i] matches Some(result) && result.execute_result is Ok
    }

    /// What holds of transaction `i`: it is final exactly where the finality cursor has passed it;
    /// it is known as executed once it has been; it has a successful execution from then on until
    /// it is handed over or runs again; it depends on an earlier transaction only; and where it
    /// waits for its first validation the validation cursor has not passed it.
    pub open spec fn tx_wf(self, i: int) -> bool {
        let status = self.states[i].status;
        &&& status == TransactionStatus::Finality <==> i < self.ctx.finality_idx
        &&& status != TransactionStatus::Initial && status != TransactionStatus::Executing
            ==> self.ctx.executed[i]
        &&& status == TransactionStatus::Executed || status == TransactionStatus::Validating
            || status == TransactionStatus::Unconfirmed ==> self.succeeded(i)
        &&& status == TransactionStatus::Finality && !self.handed_over(i) ==> self.succeeded(i)
        &&& status == TransactionStatus::Initial ==> self.tx_results[i] is None
        &&& self.states[i].dependency matches Some(id) ==> id < i
        &&& status == TransactionStatus::Executed ==> self.ctx.validation_idx <= i
    }

    /// What holds of the version that `id` has at `key`: it belongs to the last write set of a
    /// transaction that has run; it is an estimate while the transaction waits to run again or
    /// runs, and the version of its latest incarnation otherwise.
    pub open spec fn entry_wf(self, key: LocationKey, id: TxId) -> bool {
        let tx = self.states[id as int];
        let entry = versions_at(self.memory, key)[id];
        &&& id < self.num_txs()
        &&& tx.status != TransactionStatus::Initial
        &&& match self.tx_results[id as int] {
            Some(result) => result.write_set.contains(key),
            None => tx.status == TransactionStatus::Finality,
        }
        &&& if tx.status == TransactionStatus::Executing || tx.status
            == TransactionStatus::Conflict {
            entry.estimate
        } else {
            !entry.estimate && entry.incarnation == tx.incarnation
        }
    }

    /// Memory holds the last write set of every transaction, and nothing else.
    pub open spec fn memory_wf(self) -> bool {
        &&& forall|key: LocationKey, id: TxId| #[trigger]
            wrote(self.memory, key, id) ==> self.entry_wf(key, id)
        &&& forall|id: TxId, key: LocationKey|
            id < self.num_txs() && (#[trigger] self.last_write_set(id)).contains(key)
                ==> #[trigger] wrote(self.memory, key, id)
    }

    /// The scheduler is consistent.
    pub open spec fn wf(self) -> bool {
        &&& self.ctx.wf()
        &&& self.states.len() == self.num_txs()
        &&& self.tx_results.len() == self.num_txs()
        &&& self.committing ==> self.ctx.commit_idx < self.ctx.finality_idx
        &&& forall|i: int| 0 <= i < self.num_txs() ==> #[trigger] self.tx_wf(i)
        &&& self.memory_wf()
    }
}

/// The initial state is consistent.
pub proof fn initial_is_wf<S, X, O, E>(num_txs: usize, state: S)
    ensures
        Model::<S, X, O, E>::initial(num_txs, state).wf(),
{
    let m = Model::<S, X, O, E>::initial(num_txs, state);
    continuous_is_the_longest_prefix(m.ctx.executed);
    assert forall|i: int| 0 <= i < m.num_txs() implies #[trigger] m.tx_wf(i) by {}
}

/// Handing a transaction out for execution keeps the scheduler consistent.
pub proof fn execution_task_keeps_wf<S, X, O, E>(m: Model<S, X, O, E>, txid: TxId)
    requires
        m.wf(),
        txid < m.num_txs(),
        m.runnable(txid) ==> m.states[txid as int].incarnation < usize::MAX,
    ensures
        m.execution_task(txid).wf(),
{
    let n = m.execution_task(txid);
    assert forall|i: int| 0 <= i < n.num_txs() implies #[trigger] n.tx_wf(i) by {
        assert(m.tx_wf(i));
    }
    assert forall|key: LocationKey, id: TxId| #[trigger] wrote(n.memory, key, id) implies n.entry_wf(
        key,
        id,
    ) by {
        assert(wrote(m.memory, key, id));
        assert(m.tx_wf(id as int));
    }
    assert forall|id: TxId, key: LocationKey|
        id < n.num_txs() && (#[trigger] n.last_write_set(id)).contains(key) implies #[trigger] wrote(
        n.memory,
        key,
        id,
    ) by {
        assert(m.last_write_set(id).contains(key));
    }
}

/// Setting out to execute keeps the scheduler consistent.
pub proof fn start_execute_keeps_wf<S, X, O, E>(m: Model<S, X, O, E>, txid: TxId)
    requires
        m.wf(),
    ensures
        m.start_execute(txid).wf(),
{
    lemma_same_parts(m, m.start_execute(txid));
}

/// What publishing changes.
proof fn lemma_published(memory: Memory, keys: Set<LocationKey>, txid: TxId, entry: MemoryEntry)
    ensures
        forall|key: LocationKey, id: TxId| #[trigger]
            wrote(published(memory, keys, txid, entry), key, id) == (wrote(memory, key, id) || (
            keys.contains(key) && id == txid)),
        forall|key: LocationKey, id: TxId|
            #![trigger versions_at(published(memory, keys, txid, entry), key)[id]]
            wrote(published(memory, keys, txid, entry), key, id) ==> versions_at(
                published(memory, keys, txid, entry),
                key,
            )[id] == (if keys.contains(key) && id == txid {
                entry
            } else {
                versions_at(memory, key)[id]
            }),
{
}

/// What retiring changes.
proof fn lemma_retired(memory: Memory, keys: Set<LocationKey>, txid: TxId)
    ensures
        forall|key: LocationKey, id: TxId| #[trigger]
            wrote(edited_at(memory, keys, VersionEdit::Retire(txid)), key, id) == (wrote(
                memory,
                key,
                id,
            ) && !(keys.contains(key) && id == txid)),
        forall|key: LocationKey, id: TxId|
            #![trigger versions_at(edited_at(memory, keys, VersionEdit::Retire(txid)), key)[id]]
            wrote(edited_at(memory, keys, VersionEdit::Retire(txid)), key, id) ==> versions_at(
                edited_at(memory, keys, VersionEdit::Retire(txid)),
                key,
            )[id] == versions_at(memory, key)[id],
{
}

/// What marking as estimate changes.
pub proof fn lemma_marked(memory: Memory, keys: Set<LocationKey>, txid: TxId)
    ensures
        forall|key: LocationKey, id: TxId| #[trigger]
            wrote(edited_at(memory, keys, VersionEdit::MarkEstimate(txid)), key, id) == wrote(
                memory,
                key,
                id,
            ),
        forall|key: LocationKey, id: TxId|
            #![trigger versions_at(edited_at(memory, keys, VersionEdit::MarkEstimate(txid)), key)[id]]
            wrote(memory, key, id) ==> versions_at(
                edited_at(memory, keys, VersionEdit::MarkEstimate(txid)),
                key,
            )[id] == (if keys.contains(key) && id == txid {
                MemoryEntry {
                    incarnation: versions_at(memory, key)[id].incarnation,
                    estimate: true,
                }
            } else {
                versions_at(memory, key)[id]
            }),
{
}

/// What an execution changes in memory: after it, the transaction has exactly its writes, in the
/// version of this execution, and every other transaction has what it had.
pub proof fn lemma_memory_after<S, X, O, E>(
    m: Model<S, X, O, E>,
    version: TxVersion,
    writes: Set<LocationKey>,
    conflict: bool,
)
    requires
        m.wf(),
        version.txid < m.num_txs(),
        m.status(version.txid) == TransactionStatus::Executing,
    ensures
        forall|key: LocationKey, id: TxId| #[trigger]
            wrote(m.memory_after(version, writes, conflict), key, id) == (if id == version.txid {
                writes.contains(key)
            } else {
                wrote(m.memory, key, id)
            }),
        forall|key: LocationKey, id: TxId|
            #![trigger versions_at(m.memory_after(version, writes, conflict), key)[id]]
            wrote(m.memory_after(version, writes, conflict), key, id) ==> versions_at(
                m.memory_after(version, writes, conflict),
                key,
            )[id] == (if id == version.txid {
                MemoryEntry { incarnation: version.incarnation, estimate: conflict }
            } else {
                versions_at(m.memory, key)[id]
            }),
{
    let txid = version.txid;
    let entry = MemoryEntry { incarnation: version.incarnation, estimate: conflict };
    let first = published(m.memory, writes, txid, entry);
    let after = m.memory_after(version, writes, conflict);
    lemma_published(m.memory, writes, txid, entry);
    assert(m.tx_wf(txid as int));
    if let Some(last) = m.tx_results[txid as int] {
        lemma_retired(first, last.write_set.difference(writes), txid);
        assert forall|key: LocationKey, id: TxId| #[trigger] wrote(after, key, id) == (if id
            == txid {
            writes.contains(key)
        } else {
            wrote(m.memory, key, id)
        }) by {
            if id == txid {
                assert(wrote(m.memory, key, id) ==> m.entry_wf(key, id));
            }
            assert(wrote(first, key, id) == (wrote(m.memory, key, id) || (writes.contains(key)
                && id == txid)));
        }
        assert forall|key: LocationKey, id: TxId|
            #![trigger versions_at(after, key)[id]]
            wrote(after, key, id) implies versions_at(after, key)[id] == (if id == txid {
            entry
        } else {
            versions_at(m.memory, key)[id]
        }) by {
            assert(wrote(first, key, id));
            assert(versions_at(after, key)[id] == versions_at(first, key)[id]);
        }
    } else {
        assert forall|key: LocationKey, id: TxId| #[trigger] wrote(after, key, id) == (if id
            == txid {
            writes.contains(key)
        } else {
            wrote(m.memory, key, id)
        }) by {
            if id == txid {
                assert(wrote(m.memory, key, id) ==> m.entry_wf(key, id));
            }
        }
    }
}

/// An execution that the virtual machine completed keeps the scheduler consistent.
pub proof fn execute_ok_keeps_wf<S, X, O, E>(
    m: Model<S, X, O, E>,
    version: TxVersion,
    accurate: bool,
    blocked: bool,
    result: ResultModel<O, E>,
)
    requires
        m.wf(),
        version.txid < m.num_txs(),
        m.status(version.txid) == TransactionStatus::Executing,
        m.states[version.txid as int].incarnation == version.incarnation,
        result.execute_result is Ok,
    ensures
        m.execute_ok(version, accurate, blocked, result).wf(),
{
    let txid = version.txid;
    let conflict = !accurate || blocked;
    let n = m.execute_ok(version, accurate, blocked, result);
    lemma_memory_after(m, version, result.write_set, conflict);
    adding_extends_the_prefix(m.ctx.executed, txid as int);
    assert(m.tx_wf(txid as int));
    assert forall|i: int| 0 <= i < n.num_txs() implies #[trigger] n.tx_wf(i) by {
        assert(m.tx_wf(i));
    }
    assert forall|key: LocationKey, id: TxId| #[trigger] wrote(n.memory, key, id) implies n.entry_wf(
        key,
        id,
    ) by {
        if id != txid {
            assert(wrote(m.memory, key, id));
            assert(m.entry_wf(key, id));
            assert(versions_at(n.memory, key)[id] == versions_at(m.memory, key)[id]);
        } else {
            assert(versions_at(n.memory, key)[id].estimate == conflict);
        }
    }
    assert forall|id: TxId, key: LocationKey|
        id < n.num_txs() && (#[trigger] n.last_write_set(id)).contains(key) implies #[trigger] wrote(
        n.memory,
        key,
        id,
    ) by {
        if id != txid {
            assert(m.last_write_set(id).contains(key));
            assert(wrote(m.memory, key, id));
        }
    }
}

/// Marking all versions of a transaction that leaves them to be run again keeps memory consistent.
proof fn lemma_mark_keeps_memory<S, X, O, E>(
    m: Model<S, X, O, E>,
    n: Model<S, X, O, E>,
    txid: TxId,
)
    requires
        m.wf(),
        txid < m.num_txs(),
        m.status(txid) != TransactionStatus::Finality,
        n.memory == edited_at(m.memory, m.last_write_set(txid), VersionEdit::MarkEstimate(txid)),
        n.ctx.num_txs == m.ctx.num_txs,
        n.states.len() == m.states.len(),
        n.tx_results.len() == m.tx_results.len(),
        n.status(txid) == TransactionStatus::Conflict,
        n.tx_results[txid as int] is Some,
        n.last_write_set(txid) == m.last_write_set(txid),
        forall|i: int|
            0 <= i < m.num_txs() && i != txid ==> #[trigger] n.states[i] == m.states[i]
                && n.tx_results[i] == m.tx_results[i],
    ensures
        n.memory_wf(),
{
    lemma_marked(m.memory, m.last_write_set(txid), txid);
    assert forall|key: LocationKey, id: TxId| #[trigger] wrote(n.memory, key, id) implies n.entry_wf(
        key,
        id,
    ) by {
        assert(wrote(m.memory, key, id));
        assert(m.entry_wf(key, id));
        assert(versions_at(n.memory, key)[id] == versions_at(n.memory, key)[id]);
        if id != txid {
            assert(n.states[id as int] == m.states[id as int]);
        } else {
            assert(m.last_write_set(txid).contains(key));
            assert(n.last_write_set(txid).contains(key));
        }
    }
    assert forall|id: TxId, key: LocationKey|
        id < n.num_txs() && (#[trigger] n.last_write_set(id)).contains(key) implies #[trigger] wrote(
        n.memory,
        key,
        id,
    ) by {
        if id != txid {
            assert(n.states[id as int] == m.states[id as int]);
        }
        assert(m.last_write_set(id).contains(key));
        assert(wrote(m.memory, key, id));
    }
}

/// Giving up parallel execution keeps the scheduler consistent.
pub proof fn abort_keeps_wf<S, X, O, E>(m: Model<S, X, O, E>, reason: crate::types::AbortReason)
    requires
        m.wf(),
    ensures
        m.abort(reason).wf(),
{
    lemma_same_parts(m, m.abort(reason));
}

/// Consistency depends on the scheduling state only, not on counters and results.
pub proof fn lemma_same_parts<S, X, O, E>(m: Model<S, X, O, E>, n: Model<S, X, O, E>)
    requires
        m.wf(),
        n.ctx == m.ctx,
        n.states == m.states,
        n.tx_results == m.tx_results,
        n.memory == m.memory,
        n.committing == m.committing,
    ensures
        n.wf(),
{
    assert forall|i: int| 0 <= i < n.num_txs() implies #[trigger] n.tx_wf(i) by {
        assert(m.tx_wf(i));
    }
    lemma_same_memory(m, n);
}

/// Memory stays consistent where it, the results and the kinds of status do not change.
proof fn lemma_same_memory<S, X, O, E>(m: Model<S, X, O, E>, n: Model<S, X, O, E>)
    requires
        m.wf(),
        n.ctx.num_txs == m.ctx.num_txs,
        n.memory == m.memory,
        n.tx_results == m.tx_results,
        n.states.len() == m.states.len(),
        forall|i: int|
            0 <= i < m.num_txs() ==> (#[trigger] n.states[i]).incarnation == m.states[i].incarnation
                && (n.states[i].status == m.states[i].status || (settled(n.states[i].status)
                && settled(m.states[i].status) && m.tx_results[i] is Some)),
    ensures
        n.memory_wf(),
{
    assert forall|key: LocationKey, id: TxId| #[trigger] wrote(n.memory, key, id) implies n.entry_wf(
        key,
        id,
    ) by {
        assert(wrote(m.memory, key, id));
        assert(m.entry_wf(key, id));
        assert(n.states[id as int].incarnation == m.states[id as int].incarnation);
    }
    assert forall|id: TxId, key: LocationKey|
        id < n.num_txs() && (#[trigger] n.last_write_set(id)).contains(key) implies #[trigger] wrote(
        n.memory,
        key,
        id,
    ) by {
        assert(m.last_write_set(id).contains(key));
    }
}

/// The transaction has run and is not about to run again.
pub open spec fn settled(status: TransactionStatus) -> bool {
    status == TransactionStatus::Executed || status == TransactionStatus::Validating || status
        == TransactionStatus::Unconfirmed || status == TransactionStatus::Finality
}

/// A failed execution keeps the scheduler consistent.
pub proof fn execute_err_keeps_wf<S, X, O, E>(
    m: Model<S, X, O, E>,
    version: TxVersion,
    commit_idx: TxId,
    error: E,
)
    requires
        m.wf(),
        version.txid < m.num_txs(),
        m.status(version.txid) == TransactionStatus::Executing,
    ensures
        m.execute_err(version, commit_idx, error).wf(),
{
    let txid = version.txid;
    let n = m.execute_err(version, commit_idx, error);
    adding_extends_the_prefix(m.ctx.executed, txid as int);
    assert(m.tx_wf(txid as int));
    assert forall|i: int| 0 <= i < n.num_txs() implies #[trigger] n.tx_wf(i) by {
        assert(m.tx_wf(i));
    }
    lemma_mark_keeps_memory(m, n, txid);
}

/// Leaving a transaction to be validated by anyone keeps the scheduler consistent.
pub proof fn lemma_put_back_keeps_wf<S, X, O, E>(m: Model<S, X, O, E>, txid: TxId)
    requires
        m.wf(),
        txid < m.num_txs(),
        m.status(txid) == TransactionStatus::Validating,
    ensures
        m.with_status(txid, TransactionStatus::Executed).with_ctx(
            m.ctx.reset_validation_idx(txid),
        ).wf(),
{
    let n = m.with_status(txid, TransactionStatus::Executed).with_ctx(
        m.ctx.reset_validation_idx(txid),
    );
    assert(m.tx_wf(txid as int));
    assert forall|i: int| 0 <= i < n.num_txs() implies #[trigger] n.tx_wf(i) by {
        assert(m.tx_wf(i));
    }
    lemma_same_memory(m, n);
}

/// Going on after an execution keeps the scheduler consistent.
pub proof fn after_execute_keeps_wf<S, X, O, E>(
    m: Model<S, X, O, E>,
    version: TxVersion,
    followup: Followup,
    next: Option<TxId>,
)
    requires
        m.wf(),
        version.txid < m.num_txs(),
        followup == Followup::Validate ==> m.status(version.txid) == TransactionStatus::Validating,
        next matches Some(id) ==> id < m.num_txs() && (m.runnable(id)
            ==> m.states[id as int].incarnation < usize::MAX),
    ensures
        m.after_execute(version, followup, next).wf(),
{
    if let Some(id) = next {
        if followup == Followup::Revalidate {
            execution_task_keeps_wf(m, id);
        } else if followup == Followup::Validate {
            let txid = version.txid;
            lemma_put_back_keeps_wf(m, txid);
            execution_task_keeps_wf(
                m.with_status(txid, TransactionStatus::Executed).with_ctx(
                    m.ctx.reset_validation_idx(txid),
                ),
                id,
            );
        }
    }
}

/// What `greatest` returns, without `choose`: there is a greatest wherever there is any below a
/// bound.
pub proof fn lemma_greatest(p: spec_fn(TxId) -> bool, bound: TxId)
    requires
        forall|id: TxId| #[trigger] p(id) ==> id < bound,
    ensures
        match greatest(p) {
            Some(id) => is_greatest(p, id),
            None => forall|id: TxId| !#[trigger] p(id),
        },
{
    if exists|id: TxId| #[trigger] p(id) {
        let some = choose|id: TxId| #[trigger] p(id);
        lemma_greatest_exists(p, bound, some);
    }
}

proof fn lemma_greatest_exists(p: spec_fn(TxId) -> bool, bound: TxId, some: TxId)
    requires
        forall|id: TxId| #[trigger] p(id) ==> id < bound,
        p(some),
    ensures
        exists|id: TxId| is_greatest(p, id),
    decreases bound - some,
{
    if !is_greatest(p, some) {
        let other = choose|other: TxId| #[trigger] p(other) && other > some;
        lemma_greatest_exists(p, bound, other);
    }
}

/// A transaction is fed by earlier transactions only.
pub proof fn lemma_feeds(memory: Memory, reads: Reads, txid: TxId)
    ensures
        forall|id: TxId| #[trigger] feeds(memory, reads, txid, id) ==> id < txid,
{
    assert forall|id: TxId| #[trigger] feeds(memory, reads, txid, id) implies id < txid by {
        let key = choose|key: LocationKey| #[trigger]
            reads.contains_key(key) && (latest_write(memory, key, txid) matches Some((writer, _))
                && writer == id);
        lemma_latest_write(memory, key, txid);
    }
}

/// Validation keeps the scheduler consistent.
pub proof fn validate_keeps_wf<S, X, O, E>(m: Model<S, X, O, E>, txid: TxId)
    requires
        m.wf(),
        txid < m.num_txs(),
    ensures
        m.validate(txid).wf(),
{
    let n = m.validate(txid);
    assert(m.tx_wf(txid as int));
    if m.status(txid) == TransactionStatus::Validating {
        let reads = m.tx_results[txid as int]->0.read_set;
        lemma_feeds(m.memory, reads, txid);
        lemma_greatest(|id: TxId| feeds(m.memory, reads, txid, id), txid);
        assert forall|i: int| 0 <= i < n.num_txs() implies #[trigger] n.tx_wf(i) by {
            assert(m.tx_wf(i));
        }
        if m.current(txid) {
            lemma_same_memory(m, n);
        } else {
            lemma_mark_keeps_memory(m, n, txid);
        }
    }
}

/// Looking for something to validate keeps the scheduler consistent.
pub proof fn next_keeps_wf<S, X, O, E>(m: Model<S, X, O, E>, executing_idx: usize)
    requires
        m.wf(),
    ensures
        m.next(executing_idx).wf(),
{
    let n = m.next(executing_idx);
    continuous_is_the_longest_prefix(m.ctx.executed);
    if !m.stopped() && m.ctx.can_validate(executing_idx) {
        let txid = m.ctx.validation_idx;
        assert(m.tx_wf(txid as int));
        assert forall|i: int| 0 <= i < n.num_txs() implies #[trigger] n.tx_wf(i) by {
            assert(m.tx_wf(i));
        }
        lemma_same_memory(m, n);
    }
}

/// One transaction that becomes final keeps the scheduler consistent.
pub proof fn lemma_finalized_keeps_wf<S, X, O, E>(m: Model<S, X, O, E>)
    requires
        m.wf(),
        m.finality_candidate(),
    ensures
        m.finalized().wf(),
{
    let n = m.finalized();
    assert(m.tx_wf(m.ctx.finality_idx as int));
    assert forall|i: int| 0 <= i < n.num_txs() implies #[trigger] n.tx_wf(i) by {
        assert(m.tx_wf(i));
    }
    lemma_same_memory(m, n);
}

/// Finality keeps the scheduler consistent.
pub proof fn async_finality_keeps_wf<S, X, O, E>(m: Model<S, X, O, E>)
    requires
        m.wf(),
    ensures
        m.async_finality().0.wf(),
    decreases m.num_txs() - m.ctx.finality_idx,
{
    if m.finality_candidate() {
        if m.ctx.unconfirmed_ts[m.ctx.finality_idx as int] <= m.finality_bound() {
            lemma_same_parts(m, m.async_finality().0);
        } else {
            lemma_finalized_keeps_wf(m);
            async_finality_keeps_wf(m.finalized());
        }
    }
}

/// Handing a final transaction to the committer keeps the scheduler consistent.
pub proof fn commit_started_keeps_wf<S, X, O, E>(m: Model<S, X, O, E>)
    requires
        m.wf(),
        m.commit_pending(),
    ensures
        m.commit_started().wf(),
{
    let n = m.commit_started();
    let c = m.ctx.commit_idx as int;
    assert(m.tx_wf(c));
    assert forall|i: int| 0 <= i < n.num_txs() implies #[trigger] n.tx_wf(i) by {
        assert(m.tx_wf(i));
    }
    assert forall|key: LocationKey, id: TxId| #[trigger] wrote(n.memory, key, id) implies n.entry_wf(
        key,
        id,
    ) by {
        assert(wrote(m.memory, key, id));
        assert(m.entry_wf(key, id));
    }
    assert forall|id: TxId, key: LocationKey|
        id < n.num_txs() && (#[trigger] n.last_write_set(id)).contains(key) implies #[trigger] wrote(
        n.memory,
        key,
        id,
    ) by {
        assert(m.last_write_set(id).contains(key));
    }
}

/// Timing a commit keeps the scheduler consistent.
pub proof fn commit_timed_keeps_wf<S, X, O, E>(m: Model<S, X, O, E>, nanos: usize)
    requires
        m.wf(),
    ensures
        m.commit_timed(nanos).wf(),
{
    lemma_same_parts(m, m.commit_timed(nanos));
}

/// The end of a commit keeps the scheduler consistent.
pub proof fn commit_finished_keeps_wf<S, X, O, E>(m: Model<S, X, O, E>, ok: bool, nanos: usize)
    requires
        m.wf(),
        m.committing,
    ensures
        m.commit_finished(ok, nanos).wf(),
{
    let n = m.commit_finished(ok, nanos);
    if ok {
        lemma_commit_advanced(m, n);
    } else {
        lemma_same_parts(m, n);
    }
}

/// Moving the commit cursor keeps the scheduler consistent.
proof fn lemma_commit_advanced<S, X, O, E>(m: Model<S, X, O, E>, n: Model<S, X, O, E>)
    requires
        m.wf(),
        m.commit_pending(),
        n.ctx == m.ctx.advance_commit(),
        n.states == m.states,
        n.tx_results == m.tx_results,
        n.memory == m.memory,
        !n.committing,
    ensures
        n.wf(),
{
    assert forall|i: int| 0 <= i < n.num_txs() implies #[trigger] n.tx_wf(i) by {
        assert(m.tx_wf(i));
    }
    lemma_same_memory(m, n);
}

/// Passing a final transaction by without committing it keeps the scheduler consistent.
pub proof fn commit_skipped_keeps_wf<S, X, O, E>(m: Model<S, X, O, E>)
    requires
        m.wf(),
        m.commit_pending(),
        !m.committing,
    ensures
        m.with_ctx(m.ctx.advance_commit()).wf(),
{
    lemma_commit_advanced(m, m.with_ctx(m.ctx.advance_commit()));
}

/// What `latest_write` returns, without `choose`.
pub proof fn lemma_latest_write(memory: Memory, key: LocationKey, txid: TxId)
    ensures
        match latest_write(memory, key, txid) {
            Some((id, entry)) => id < txid && wrote(memory, key, id) && entry == versions_at(
                memory,
                key,
            )[id] && forall|other: TxId| #[trigger]
                wrote(memory, key, other) && other < txid ==> other <= id,
            None => forall|id: TxId| #[trigger] wrote(memory, key, id) ==> id >= txid,
        },
{
    lemma_latest_before(versions_at(memory, key), txid);
}

} // verus!
