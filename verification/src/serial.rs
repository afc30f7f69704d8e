//! Why parallel execution gives the results of sequential execution: a transaction becomes final
//! only when everything that it read is what the final transactions before it wrote.

use vstd::prelude::*;

use crate::collections::{Memory, Reads};
use crate::consistency::{lemma_latest_write, lemma_marked, lemma_memory_after};
use crate::detect_set::continuous_is_the_longest_prefix;
use crate::location::LocationKey;
use crate::memory::{latest_write, versions_at};
use crate::model::{read_is_current, reads_are_current, wrote, Followup, Model, ResultModel};
use crate::types::{AbortReason, TransactionStatus, TxId, TxVersion};

verus! {

impl<S, X, O, E> Model<S, X, O, E> {
    /// The last validation of the transaction is later than every rollback to it or to one before.
    pub open spec fn fresh(self, i: int) -> bool {
        forall|k: int|
            0 <= k <= i ==> #[trigger] self.ctx.lower_ts[k] < self.ctx.unconfirmed_ts[i]
    }

    /// Finality has not looked beyond the first transaction that is not final.
    pub open spec fn finality_ts_wf(self) -> bool {
        self.finality_ts == 0 || exists|k: int|
            0 <= k <= self.ctx.finality_idx && k < self.num_txs() && self.finality_ts
                <= #[trigger] self.ctx.lower_ts[k]
    }

    /// Every timestamp that was given out lies before the next one, and finality knows of every
    /// rollback to a final transaction.
    pub open spec fn timestamps_wf(self) -> bool {
        &&& self.ctx.stamps_wf()
        &&& forall|i: int|
            0 <= i < self.num_txs() ==> #[trigger] self.ctx.unconfirmed_ts[i] < self.ctx.logical_ts
        &&& self.finality_ts < self.ctx.logical_ts
        &&& forall|i: int|
            0 <= i < self.ctx.finality_idx ==> #[trigger] self.ctx.lower_ts[i] <= self.finality_ts
        &&& self.finality_ts_wf()
    }

    /// What holds of transaction `i`: where it is final, or validated with a fresh timestamp, it
    /// read what it would read now; where its validation is stale, the validation cursor has yet
    /// to pass it.
    pub open spec fn tx_serial(self, i: int) -> bool {
        &&& self.states[i].status == TransactionStatus::Finality ==> self.current(i as TxId)
        &&& self.states[i].status == TransactionStatus::Unconfirmed && self.fresh(i)
            ==> self.current(i as TxId)
        &&& self.states[i].status == TransactionStatus::Unconfirmed && !self.fresh(i)
            ==> self.ctx.validation_idx <= i
    }

    /// No transaction is final, or about to become final, that read something else than it would
    /// read now; and no transaction that has to be validated again is forgotten.
    pub open spec fn serializable(self) -> bool {
        &&& self.timestamps_wf()
        &&& forall|i: int| 0 <= i < self.num_txs() ==> #[trigger] self.tx_serial(i)
    }
}

/// The initial state is serializable.
pub proof fn initial_is_serializable<S, X, O, E>(num_txs: usize, state: S)
    ensures
        Model::<S, X, O, E>::initial(num_txs, state).serializable(),
{
}

/// What a transaction reads depends only on what transactions before it wrote.
pub proof fn lemma_latest_frame(before: Memory, after: Memory, key: LocationKey, txid: TxId)
    requires
        forall|id: TxId|
            id < txid ==> (#[trigger] wrote(after, key, id) == wrote(before, key, id)),
        forall|id: TxId|
            id < txid && #[trigger] wrote(before, key, id) ==> versions_at(after, key)[id]
                == versions_at(before, key)[id],
    ensures
        latest_write(after, key, txid) == latest_write(before, key, txid),
{
    lemma_latest_write(before, key, txid);
    lemma_latest_write(after, key, txid);
    if let Some((id, _)) = latest_write(before, key, txid) {
        assert(wrote(after, key, id));
    }
    if let Some((id, _)) = latest_write(after, key, txid) {
        assert(wrote(before, key, id));
    }
}

/// `after` differs from `before` in versions of `txid` only.
spec fn only_changes(before: Memory, after: Memory, txid: TxId) -> bool {
    &&& forall|key: LocationKey, id: TxId|
        id != txid ==> (#[trigger] wrote(after, key, id) == wrote(before, key, id))
    &&& forall|key: LocationKey, id: TxId|
        id != txid && #[trigger] wrote(before, key, id) ==> versions_at(after, key)[id]
            == versions_at(before, key)[id]
}

/// A transaction does not see what it and later ones write.
proof fn lemma_reads_before(before: Memory, after: Memory, reads: Reads, txid: TxId, reader: TxId)
    requires
        only_changes(before, after, txid),
        reader <= txid,
    ensures
        reads_are_current(before, reads, reader) == reads_are_current(after, reads, reader),
{
    assert forall|key: LocationKey|
        latest_write(after, key, reader) == #[trigger] latest_write(before, key, reader) by {
        lemma_latest_frame(before, after, key, reader);
    }
    if reads_are_current(before, reads, reader) {
        assert forall|key: LocationKey| #[trigger] reads.contains_key(key) implies read_is_current(
            after,
            key,
            reader,
            reads[key],
        ) by {
            assert(latest_write(after, key, reader) == latest_write(before, key, reader));
        }
    }
    if reads_are_current(after, reads, reader) {
        assert forall|key: LocationKey| #[trigger] reads.contains_key(key) implies read_is_current(
            before,
            key,
            reader,
            reads[key],
        ) by {
            assert(latest_write(after, key, reader) == latest_write(before, key, reader));
        }
    }
}

/// Reads that are current do not come from a transaction whose versions are all estimates. So they
/// stay current when it writes anew, as long as it writes no location that it had no version of.
proof fn lemma_reads_past_estimates(
    before: Memory,
    after: Memory,
    reads: Reads,
    txid: TxId,
    reader: TxId,
)
    requires
        only_changes(before, after, txid),
        forall|key: LocationKey| #[trigger]
            wrote(before, key, txid) ==> versions_at(before, key)[txid].estimate,
        forall|key: LocationKey| #[trigger] wrote(after, key, txid) ==> wrote(before, key, txid),
        reads_are_current(before, reads, reader),
    ensures
        reads_are_current(after, reads, reader),
{
    assert forall|key: LocationKey| #[trigger] reads.contains_key(key) implies read_is_current(
        after,
        key,
        reader,
        reads[key],
    ) by {
        assert(read_is_current(before, key, reader, reads[key]));
        lemma_latest_write(before, key, reader);
        lemma_latest_write(after, key, reader);
        match latest_write(before, key, reader) {
            Some((writer, entry)) => {
                assert(writer != txid);
                assert(wrote(after, key, writer));
                let (found, _) = latest_write(after, key, reader)->0;
                assert(wrote(before, key, found));
                assert(found == writer);
            },
            None => {
                if let Some((found, _)) = latest_write(after, key, reader) {
                    assert(wrote(before, key, found));
                }
            },
        }
    }
}

/// Freshness depends on the timestamps up to the transaction.
pub proof fn lemma_same_fresh<S, X, O, E>(m: Model<S, X, O, E>, n: Model<S, X, O, E>, i: int)
    requires
        forall|k: int| 0 <= k <= i ==> #[trigger] n.ctx.lower_ts[k] == m.ctx.lower_ts[k],
        n.ctx.unconfirmed_ts[i] == m.ctx.unconfirmed_ts[i],
    ensures
        n.fresh(i) == m.fresh(i),
{
    if m.fresh(i) {
        assert forall|k: int| 0 <= k <= i implies #[trigger] n.ctx.lower_ts[k]
            < n.ctx.unconfirmed_ts[i] by {
            assert(m.ctx.lower_ts[k] < m.ctx.unconfirmed_ts[i]);
        }
    }
    if n.fresh(i) {
        assert forall|k: int| 0 <= k <= i implies #[trigger] m.ctx.lower_ts[k]
            < m.ctx.unconfirmed_ts[i] by {
            assert(n.ctx.lower_ts[k] < n.ctx.unconfirmed_ts[i]);
        }
    }
}

/// Rollbacks only move forward in time, so finality stays within bounds.
proof fn lemma_finality_ts<S, X, O, E>(m: Model<S, X, O, E>, n: Model<S, X, O, E>)
    requires
        m.finality_ts_wf(),
        n.num_txs() == m.num_txs(),
        n.finality_ts == m.finality_ts,
        n.ctx.finality_idx >= m.ctx.finality_idx,
        forall|k: int|
            0 <= k < m.num_txs() ==> #[trigger] n.ctx.lower_ts[k] >= m.ctx.lower_ts[k],
    ensures
        n.finality_ts_wf(),
{
    if m.finality_ts != 0 {
        let k = choose|k: int|
            0 <= k <= m.ctx.finality_idx && k < m.num_txs() && m.finality_ts
                <= #[trigger] m.ctx.lower_ts[k];
        assert(n.ctx.lower_ts[k] >= m.ctx.lower_ts[k]);
    }
}

/// A step that changes one transaction that is not final, and rolls validation back to it or to
/// the next one, keeps the scheduler serializable: every later validation is stale from then on.
proof fn lemma_rollback_keeps_serializable<S, X, O, E>(
    m: Model<S, X, O, E>,
    n: Model<S, X, O, E>,
    txid: TxId,
    index: int,
)
    requires
        m.wf(),
        n.wf(),
        m.serializable(),
        txid < m.num_txs(),
        m.status(txid) != TransactionStatus::Finality,
        n.status(txid) != TransactionStatus::Finality,
        n.status(txid) != TransactionStatus::Unconfirmed,
        index == txid || index == txid + 1,
        only_changes(m.memory, n.memory, txid),
        n.num_txs() == m.num_txs(),
        n.finality_ts == m.finality_ts,
        n.ctx.finality_idx == m.ctx.finality_idx,
        n.ctx.unconfirmed_ts == m.ctx.unconfirmed_ts,
        n.ctx.logical_ts >= m.ctx.logical_ts,
        forall|i: int|
            0 <= i < m.num_txs() && i != index ==> #[trigger] n.ctx.lower_ts[i]
                == m.ctx.lower_ts[i],
        index < m.num_txs() ==> m.ctx.logical_ts <= n.ctx.lower_ts[index] < n.ctx.logical_ts,
        index < m.num_txs() ==> n.ctx.validation_idx <= index,
        n.ctx.validation_idx <= m.ctx.validation_idx,
        forall|i: int|
            0 <= i < m.num_txs() && i != txid ==> (#[trigger] n.states[i]).status
                == m.states[i].status && n.tx_results[i] == m.tx_results[i],
    ensures
        n.serializable(),
{
    assert(m.tx_wf(txid as int));
    assert forall|k: int| 0 <= k < m.num_txs() implies #[trigger] n.ctx.lower_ts[k]
        >= m.ctx.lower_ts[k] by {
        if k == index {
            assert(m.ctx.lower_ts[k] < m.ctx.logical_ts);
        }
    }
    lemma_finality_ts(m, n);
    assert(n.timestamps_wf());
    assert forall|i: int| 0 <= i < n.num_txs() implies #[trigger] n.tx_serial(i) by {
        assert(m.tx_serial(i));
        assert(m.tx_wf(i));
        if i != txid {
            assert(n.states[i].status == m.states[i].status);
            if i >= index {
                assert(!n.fresh(i)) by {
                    assert(n.ctx.lower_ts[index] >= m.ctx.logical_ts);
                }
            } else {
                lemma_same_fresh(m, n, i);
            }
            if i < txid {
                if let Some(result) = m.tx_results[i] {
                    lemma_reads_before(m.memory, n.memory, result.read_set, txid, i as TxId);
                }
            }
        }
    }
}

/// A step that leaves memory, timestamps and cursors alone, and makes no transaction unconfirmed
/// or final, keeps the scheduler serializable.
pub proof fn lemma_quiet_step<S, X, O, E>(m: Model<S, X, O, E>, n: Model<S, X, O, E>)
    requires
        m.wf(),
        m.serializable(),
        n.ctx == m.ctx,
        n.memory == m.memory,
        n.finality_ts == m.finality_ts,
        forall|i: int|
            0 <= i < m.num_txs() ==> (#[trigger] n.states[i]).status == m.states[i].status || (
            n.states[i].status != TransactionStatus::Unconfirmed && n.states[i].status
                != TransactionStatus::Finality),
        forall|i: int|
            0 <= i < m.num_txs() ==> #[trigger] n.tx_results[i] == m.tx_results[i]
                || n.tx_results[i] is None,
    ensures
        n.serializable(),
{
    assert forall|i: int| 0 <= i < n.num_txs() implies #[trigger] n.tx_serial(i) by {
        assert(m.tx_serial(i));
        lemma_same_fresh(m, n, i);
        assert(n.states[i].status == n.states[i].status);
        assert(n.tx_results[i] == n.tx_results[i]);
    }
}

/// Handing a transaction out for execution keeps the scheduler serializable.
pub proof fn execution_task_keeps_serializable<S, X, O, E>(m: Model<S, X, O, E>, txid: TxId)
    requires
        m.wf(),
        m.serializable(),
        txid < m.num_txs(),
    ensures
        m.execution_task(txid).serializable(),
{
    lemma_quiet_step(m, m.execution_task(txid));
}

/// Setting out to execute keeps the scheduler serializable.
pub proof fn start_execute_keeps_serializable<S, X, O, E>(m: Model<S, X, O, E>, txid: TxId)
    requires
        m.wf(),
        m.serializable(),
    ensures
        m.start_execute(txid).serializable(),
{
    lemma_quiet_step(m, m.start_execute(txid));
}

/// Giving parallel execution up keeps the scheduler serializable.
pub proof fn abort_keeps_serializable<S, X, O, E>(m: Model<S, X, O, E>, reason: AbortReason)
    requires
        m.wf(),
        m.serializable(),
    ensures
        m.abort(reason).serializable(),
{
    lemma_quiet_step(m, m.abort(reason));
}

/// An execution changes versions of its own transaction only.
proof fn lemma_execution_changes<S, X, O, E>(
    m: Model<S, X, O, E>,
    version: TxVersion,
    writes: Set<LocationKey>,
    conflict: bool,
)
    requires
        m.wf(),
        version.txid < m.num_txs(),
        m.status(version.txid) == TransactionStatus::Executing,
    ensures
        only_changes(m.memory, m.memory_after(version, writes, conflict), version.txid),
{
    let after = m.memory_after(version, writes, conflict);
    lemma_memory_after(m, version, writes, conflict);
    assert forall|key: LocationKey, id: TxId|
        id != version.txid && #[trigger] wrote(m.memory, key, id) implies versions_at(
        after,
        key,
    )[id] == versions_at(m.memory, key)[id] by {
        assert(wrote(after, key, id));
    }
}

/// An execution that writes no new location keeps the reads of every other transaction current.
pub proof fn lemma_rewrite_keeps_reads<S, X, O, E>(
    m: Model<S, X, O, E>,
    version: TxVersion,
    result: ResultModel<O, E>,
    other: TxId,
)
    requires
        m.wf(),
        version.txid < m.num_txs(),
        m.status(version.txid) == TransactionStatus::Executing,
        !m.writes_new_locations(version.txid, result.write_set),
        other < m.num_txs(),
        other != version.txid,
        m.current(other),
    ensures
        m.execute_ok(version, true, false, result).current(other),
{
    let txid = version.txid;
    let n = m.execute_ok(version, true, false, result);
    lemma_memory_after(m, version, result.write_set, false);
    lemma_execution_changes(m, version, result.write_set, false);
    if let Some(found) = m.tx_results[other as int] {
        if other < txid {
            lemma_reads_before(m.memory, n.memory, found.read_set, txid, other);
        } else {
            assert forall|key: LocationKey| #[trigger]
                wrote(m.memory, key, txid) implies versions_at(m.memory, key)[txid].estimate by {
                assert(m.entry_wf(key, txid));
            }
            assert forall|key: LocationKey| #[trigger] wrote(n.memory, key, txid) implies wrote(
                m.memory,
                key,
                txid,
            ) by {
                assert(m.last_write_set(txid).contains(key));
            }
            lemma_reads_past_estimates(m.memory, n.memory, found.read_set, txid, other);
        }
    }
}

/// An execution that the virtual machine completed keeps the scheduler serializable, as long as
/// timestamps do not wrap around.
pub proof fn execute_ok_keeps_serializable<S, X, O, E>(
    m: Model<S, X, O, E>,
    version: TxVersion,
    accurate: bool,
    blocked: bool,
    result: ResultModel<O, E>,
)
    requires
        m.wf(),
        m.serializable(),
        m.ctx.logical_ts < usize::MAX,
        version.txid < m.num_txs(),
        m.status(version.txid) == TransactionStatus::Executing,
        m.states[version.txid as int].incarnation == version.incarnation,
        result.execute_result is Ok,
    ensures
        m.execute_ok(version, accurate, blocked, result).serializable(),
{
    let txid = version.txid;
    let conflict = !accurate || blocked;
    let n = m.execute_ok(version, accurate, blocked, result);
    crate::consistency::execute_ok_keeps_wf(m, version, accurate, blocked, result);
    lemma_memory_after(m, version, result.write_set, conflict);
    lemma_execution_changes(m, version, result.write_set, conflict);
    assert(m.tx_wf(txid as int));
    if m.followup(txid, result.write_set, conflict) == Followup::Validate {
        assert forall|i: int| 0 <= i < n.num_txs() implies #[trigger] n.tx_serial(i) by {
            assert(m.tx_serial(i));
            lemma_same_fresh(m, n, i);
            if i != txid && m.current(i as TxId) {
                lemma_rewrite_keeps_reads(m, version, result, i as TxId);
            }
        }
    } else {
        let index: int = if conflict {
            txid + 1
        } else {
            txid as int
        };
        lemma_rollback_keeps_serializable(m, n, txid, index);
    }
}

/// A failed execution keeps the scheduler serializable, as long as timestamps do not wrap around.
pub proof fn execute_err_keeps_serializable<S, X, O, E>(
    m: Model<S, X, O, E>,
    version: TxVersion,
    commit_idx: TxId,
    error: E,
)
    requires
        m.wf(),
        m.serializable(),
        m.ctx.logical_ts < usize::MAX,
        version.txid < m.num_txs(),
        m.status(version.txid) == TransactionStatus::Executing,
    ensures
        m.execute_err(version, commit_idx, error).serializable(),
{
    let txid = version.txid;
    let n = m.execute_err(version, commit_idx, error);
    crate::consistency::execute_err_keeps_wf(m, version, commit_idx, error);
    lemma_marked(m.memory, m.last_write_set(txid), txid);
    lemma_rollback_keeps_serializable(m, n, txid, txid + 1);
}

/// Going on after an execution keeps the scheduler serializable, as long as timestamps do not wrap
/// around.
pub proof fn after_execute_keeps_serializable<S, X, O, E>(
    m: Model<S, X, O, E>,
    version: TxVersion,
    followup: Followup,
    next: Option<TxId>,
)
    requires
        m.wf(),
        m.serializable(),
        m.ctx.logical_ts < usize::MAX,
        version.txid < m.num_txs(),
        followup == Followup::Validate ==> m.status(version.txid) == TransactionStatus::Validating,
        next matches Some(id) ==> id < m.num_txs(),
    ensures
        m.after_execute(version, followup, next).serializable(),
{
    if let Some(id) = next {
        if followup == Followup::Revalidate {
            execution_task_keeps_serializable(m, id);
        } else if followup == Followup::Validate {
            let txid = version.txid;
            let n = m.with_status(txid, TransactionStatus::Executed).with_ctx(
                m.ctx.reset_validation_idx(txid),
            );
            crate::consistency::lemma_put_back_keeps_wf(m, txid);
            lemma_rollback_keeps_serializable(m, n, txid, txid as int);
            execution_task_keeps_serializable(n, id);
        }
    }
}

/// Validation keeps the scheduler serializable, as long as timestamps do not wrap around.
pub proof fn validate_keeps_serializable<S, X, O, E>(m: Model<S, X, O, E>, txid: TxId)
    requires
        m.wf(),
        m.serializable(),
        m.ctx.logical_ts < usize::MAX - 1,
        txid < m.num_txs(),
    ensures
        m.validate(txid).serializable(),
{
    let n = m.validate(txid);
    crate::consistency::validate_keeps_wf(m, txid);
    assert(m.tx_wf(txid as int));
    if m.status(txid) == TransactionStatus::Validating {
        if m.current(txid) {
            assert forall|i: int| 0 <= i < n.num_txs() implies #[trigger] n.tx_serial(i) by {
                assert(m.tx_serial(i));
                if i != txid {
                    lemma_same_fresh(m, n, i);
                } else {
                    assert(n.fresh(i));
                }
            }
        } else {
            lemma_marked(m.memory, m.last_write_set(txid), txid);
            lemma_rollback_keeps_serializable(m, n, txid, txid + 1);
        }
    }
}

/// Looking for something to validate keeps the scheduler serializable.
pub proof fn next_keeps_serializable<S, X, O, E>(m: Model<S, X, O, E>, executing_idx: usize)
    requires
        m.wf(),
        m.serializable(),
    ensures
        m.next(executing_idx).serializable(),
{
    let n = m.next(executing_idx);
    lemma_finality_ts(m, n);
    continuous_is_the_longest_prefix(m.ctx.executed);
    assert forall|i: int| 0 <= i < n.num_txs() implies #[trigger] n.tx_serial(i) by {
        assert(m.tx_serial(i));
        lemma_same_fresh(m, n, i);
    }
}

/// A transaction with a fresh validation that becomes final keeps the scheduler serializable.
pub proof fn finalized_keeps_serializable<S, X, O, E>(m: Model<S, X, O, E>)
    requires
        m.wf(),
        m.serializable(),
        m.finality_candidate(),
        m.ctx.unconfirmed_ts[m.ctx.finality_idx as int] > m.finality_bound(),
    ensures
        m.finalized().serializable(),
{
    let f = m.ctx.finality_idx as int;
    let n = m.finalized();
    assert(m.tx_serial(f));
    assert(m.fresh(f));
    if m.finality_ts >= m.ctx.lower_ts[f] {
        if m.finality_ts != 0 {
            let k = choose|k: int|
                0 <= k <= m.ctx.finality_idx && k < m.num_txs() && m.finality_ts
                    <= #[trigger] m.ctx.lower_ts[k];
            assert(n.ctx.lower_ts[k] >= n.finality_ts);
        }
    } else {
        assert(n.ctx.lower_ts[f] >= n.finality_ts);
    }
    assert forall|i: int| 0 <= i < n.num_txs() implies #[trigger] n.tx_serial(i) by {
        assert(m.tx_serial(i));
        lemma_same_fresh(m, n, i);
    }
}

/// Finality keeps the scheduler serializable.
pub proof fn async_finality_keeps_serializable<S, X, O, E>(m: Model<S, X, O, E>)
    requires
        m.wf(),
        m.serializable(),
    ensures
        m.async_finality().0.serializable(),
    decreases m.num_txs() - m.ctx.finality_idx,
{
    if m.finality_candidate() {
        let f = m.ctx.finality_idx as int;
        if m.ctx.unconfirmed_ts[f] <= m.finality_bound() {
            let n = m.async_finality().0;
            assert forall|i: int| 0 <= i < n.num_txs() implies #[trigger] n.tx_serial(i) by {
                assert(m.tx_serial(i));
                lemma_same_fresh(m, n, i);
            }
        } else {
            finalized_keeps_serializable(m);
            crate::consistency::lemma_finalized_keeps_wf(m);
            async_finality_keeps_serializable(m.finalized());
        }
    }
}

/// Handing a final transaction to the committer keeps the scheduler serializable.
pub proof fn commit_started_keeps_serializable<S, X, O, E>(m: Model<S, X, O, E>)
    requires
        m.wf(),
        m.serializable(),
        m.commit_pending(),
    ensures
        m.commit_started().serializable(),
{
    lemma_quiet_step(m, m.commit_started());
}

/// Passing a final transaction by without committing it keeps the scheduler serializable.
pub proof fn commit_skipped_keeps_serializable<S, X, O, E>(m: Model<S, X, O, E>)
    requires
        m.wf(),
        m.serializable(),
        m.commit_pending(),
    ensures
        m.with_ctx(m.ctx.advance_commit()).serializable(),
{
    let n = m.with_ctx(m.ctx.advance_commit());
    lemma_finality_ts(m, n);
    assert forall|i: int| 0 <= i < n.num_txs() implies #[trigger] n.tx_serial(i) by {
        assert(m.tx_serial(i));
        lemma_same_fresh(m, n, i);
    }
}

/// The end of a commit keeps the scheduler serializable.
pub proof fn commit_finished_keeps_serializable<S, X, O, E>(
    m: Model<S, X, O, E>,
    ok: bool,
    nanos: usize,
)
    requires
        m.wf(),
        m.serializable(),
        m.committing,
    ensures
        m.commit_finished(ok, nanos).serializable(),
{
    let n = m.commit_finished(ok, nanos);
    lemma_finality_ts(m, n);
    assert forall|i: int| 0 <= i < n.num_txs() implies #[trigger] n.tx_serial(i) by {
        assert(m.tx_serial(i));
        lemma_same_fresh(m, n, i);
    }
}

} // verus!
