//! What the scheduler promises as a whole.

use vstd::prelude::*;

use crate::collections::{Memory, Reads};
use crate::config::{ExecutionPlan, MIN_PARALLEL_TXS};
use crate::consistency::{
    lemma_feeds, lemma_finalized_keeps_wf, lemma_greatest, lemma_latest_write, lemma_memory_after,
};
use crate::detect_set::{continuous, continuous_is_the_longest_prefix};
use crate::location::LocationKey;
use crate::memory::latest_write;
use crate::metrics::ExecuteMetricsCollector;
use crate::model::{
    feeds, greatest, last_writer, last_writer_from, read_is_current, wrote, Model, ResultModel,
};
use crate::sequential::RunModel;
use crate::types::{AbortReason, ReadVersion, Task, TransactionStatus, TxId, TxVersion};

verus! {

/// Parallel execution is serializable: each read of a final transaction saw the last write before
/// it, that write was made by a final transaction in its last incarnation, and a read that saw the
/// state before the block has no write before it.
pub proof fn final_reads_are_serial<S, X, O, E>(
    m: Model<S, X, O, E>,
    txid: TxId,
    key: LocationKey,
)
    requires
        m.wf(),
        m.serializable(),
        txid < m.num_txs(),
        m.status(txid) == TransactionStatus::Finality,
        m.tx_results[txid as int] is Some,
        m.tx_results[txid as int]->0.read_set.contains_key(key),
    ensures
        match m.tx_results[txid as int]->0.read_set[key] {
            ReadVersion::MvMemory(version) => {
                &&& version.txid < txid
                &&& m.status(version.txid) == TransactionStatus::Finality
                &&& version.incarnation == m.states[version.txid as int].incarnation
                &&& wrote(m.memory, key, version.txid)
                &&& forall|other: TxId|
                    version.txid < other < txid ==> !#[trigger] wrote(m.memory, key, other)
            },
            ReadVersion::Storage => forall|other: TxId|
                other < txid ==> !#[trigger] wrote(m.memory, key, other),
        },
{
    assert(m.tx_serial(txid as int));
    assert(m.tx_wf(txid as int));
    let reads = m.tx_results[txid as int]->0.read_set;
    assert(read_is_current(m.memory, key, txid, reads[key]));
    lemma_latest_write(m.memory, key, txid);
    if let Some((writer, entry)) = latest_write(m.memory, key, txid) {
        assert(m.entry_wf(key, writer));
        assert(m.tx_wf(writer as int));
    }
}

/// A rollback to `index` at some time makes every earlier validation of `index` and of the
/// transactions after it stale, however often the transaction at `index` is validated again. So
/// none of them can become final before it is itself validated anew.
pub proof fn rollback_outdates_validations<S, X, O, E>(m: Model<S, X, O, E>, index: usize, txid: int)
    requires
        m.wf(),
        m.serializable(),
        m.clock_has_room(),
        index <= txid < m.num_txs(),
    ensures
        !m.with_ctx(m.ctx.reset_validation_idx(index)).fresh(txid),
        m.ctx.reset_validation_idx(index).validation_idx <= index,
        m.ctx.reset_validation_idx(index).lower_ts[index as int] == m.ctx.logical_ts,
{
    let n = m.with_ctx(m.ctx.reset_validation_idx(index));
    assert(n.ctx.lower_ts[index as int] >= n.ctx.unconfirmed_ts[txid]);
}

/// Finality passes a transaction only if its validation is fresh, and then what it read is current.
pub proof fn only_fresh_validations_become_final<S, X, O, E>(m: Model<S, X, O, E>, i: int)
    requires
        m.wf(),
        m.serializable(),
        m.ctx.finality_idx <= i < m.async_finality().0.ctx.finality_idx,
        i < m.num_txs(),
    ensures
        m.states[i].status == TransactionStatus::Unconfirmed,
        m.fresh(i),
        m.current(i as TxId),
    decreases m.num_txs() - m.ctx.finality_idx,
{
    let f = m.ctx.finality_idx as int;
    assert(m.tx_serial(f));
    if i == f {
        assert(m.fresh(f));
    } else {
        let n = m.finalized();
        lemma_finalized_keeps_wf(m);
        crate::serial::finalized_keeps_serializable(m);
        only_fresh_validations_become_final(n, i);
        assert(n.states[i] == m.states[i]);
        crate::serial::lemma_same_fresh(m, n, i);
        assert(n.current(i as TxId) == m.current(i as TxId));
    }
}

/// A validation of `i` that is no later than a rollback to `j`, which is `i` or before it, never
/// lets `i` become final: finality stops at `i` or before until `i` is validated anew.
pub proof fn stale_validation_holds_finality_up<S, X, O, E>(m: Model<S, X, O, E>, j: int, i: int)
    requires
        m.wf(),
        m.serializable(),
        0 <= j <= i < m.num_txs(),
        m.ctx.finality_idx <= i,
        m.ctx.unconfirmed_ts[i] <= m.ctx.lower_ts[j],
    ensures
        m.async_finality().0.ctx.finality_idx <= i,
        m.async_finality().0.states[i] == m.states[i],
{
    let n = m.async_finality().0;
    if n.ctx.finality_idx > i {
        only_fresh_validations_become_final(m, i);
        assert(m.ctx.lower_ts[j] < m.ctx.unconfirmed_ts[i]);
    }
    lemma_finality_touches_a_prefix(m, i);
}

/// What finality does not reach it leaves alone.
proof fn lemma_finality_touches_a_prefix<S, X, O, E>(m: Model<S, X, O, E>, i: int)
    requires
        m.wf(),
        0 <= i < m.num_txs(),
        m.async_finality().0.ctx.finality_idx <= i,
    ensures
        m.async_finality().0.states[i] == m.states[i],
    decreases m.num_txs() - m.ctx.finality_idx,
{
    if m.finality_candidate() && m.ctx.unconfirmed_ts[m.ctx.finality_idx as int]
        > m.finality_bound() {
        lemma_finalized_keeps_wf(m);
        finality_only_advances(m.finalized());
        lemma_finality_touches_a_prefix(m.finalized(), i);
    }
}

/// Nothing gets stuck: the first transaction that is not final waits to be executed, or a worker
/// has it, or the validation cursor stands at it or before it and may move as soon as the
/// execution cursor is past it, or the finality thread makes it final.
pub proof fn finality_is_never_stuck<S, X, O, E>(m: Model<S, X, O, E>, executing_idx: usize)
    requires
        m.wf(),
        m.serializable(),
        !m.stopped(),
        executing_idx > m.ctx.finality_idx,
    ensures
        ({
            let txid = m.ctx.finality_idx;
            ||| m.runnable(txid)
            ||| m.status(txid) == TransactionStatus::Executing
            ||| m.status(txid) == TransactionStatus::Validating
            ||| m.ctx.can_validate(executing_idx)
            ||| m.async_finality().0.ctx.finality_idx > txid
        }),
{
    let f = m.ctx.finality_idx as int;
    assert(m.tx_wf(f));
    assert(m.tx_serial(f));
    continuous_is_the_longest_prefix(m.ctx.executed);
    if m.ctx.executed[f] {
        assert(continuous(m.ctx.executed) > f) by {
            if continuous(m.ctx.executed) <= f {
                let gap = continuous(m.ctx.executed);
                assert(m.tx_wf(gap));
            }
        }
    }
    if m.status(m.ctx.finality_idx) == TransactionStatus::Unconfirmed && m.fresh(f)
        && m.ctx.validation_idx > f {
        assert(m.finality_bound() < m.ctx.unconfirmed_ts[f]) by {
            assert(m.ctx.lower_ts[f] < m.ctx.unconfirmed_ts[f]);
            if m.finality_ts != 0 {
                let k = choose|k: int|
                    0 <= k <= m.ctx.finality_idx && k < m.num_txs() && m.finality_ts
                        <= #[trigger] m.ctx.lower_ts[k];
                assert(m.ctx.lower_ts[k] < m.ctx.unconfirmed_ts[f]);
            }
        }
        assert(m.finality_candidate());
        finality_only_advances(m.finalized());
    }
}

/// The finality cursor does not move back.
pub proof fn finality_only_advances<S, X, O, E>(m: Model<S, X, O, E>)
    ensures
        m.async_finality().0.ctx.finality_idx >= m.ctx.finality_idx,
    decreases m.num_txs() - m.ctx.finality_idx,
{
    if m.finality_candidate() && m.ctx.unconfirmed_ts[m.ctx.finality_idx as int]
        > m.finality_bound() {
        finality_only_advances(m.finalized());
    }
}

/// A transaction that is handed to the committer has an execution that succeeded.
pub proof fn only_successes_are_committed<S, X, O, E>(m: Model<S, X, O, E>)
    requires
        m.wf(),
        m.commit_pending(),
        !m.committing,
    ensures
        m.succeeded(m.ctx.commit_idx as int),
        m.status(m.ctx.commit_idx) == TransactionStatus::Finality,
{
    assert(m.tx_wf(m.ctx.commit_idx as int));
}

/// Transactions are committed once each and in block order: a commit moves the cursor to the next
/// transaction, and the output that was handed out is gone.
pub proof fn commits_are_in_block_order<S, X, O, E>(m: Model<S, X, O, E>, nanos: usize)
    requires
        m.wf(),
        m.commit_pending(),
        !m.committing,
    ensures
        ({
            let n = m.commit_started().commit_finished(true, nanos);
            &&& n.ctx.commit_idx == m.ctx.commit_idx + 1
            &&& !n.committing
            &&& n.tx_results == m.tx_results.update(m.ctx.commit_idx as int, None)
        }),
{
}

/// The first reason to give parallel execution up stays.
pub proof fn first_abort_reason_stays<S, X, O, E>(
    m: Model<S, X, O, E>,
    first: AbortReason,
    second: AbortReason,
)
    ensures
        m.abort(first).abort(second) == m.abort(first),
{
}

/// Where a transaction fails that started with everything before it committed, it is the first one
/// that is not final, so that its error is the one that is reported.
pub proof fn failure_of_the_first_is_explained<S, X, O, E>(
    m: Model<S, X, O, E>,
    version: TxVersion,
    commit_idx: TxId,
    error: E,
)
    requires
        m.wf(),
        version.txid < m.num_txs(),
        m.status(version.txid) == TransactionStatus::Executing,
        commit_idx == version.txid,
        commit_idx <= m.ctx.commit_idx,
    ensures
        m.execute_err(version, commit_idx, error).abort_reason is Some,
        m.execute_err(version, commit_idx, error).abort_is_explained(),
        m.execute_err(version, commit_idx, error).ctx.finality_idx == version.txid,
{
    assert(m.tx_wf(version.txid as int));
}

/// A transaction that runs again and writes no new location leaves every validation of another
/// transaction as it was: what was current is current, what was fresh is fresh.
pub proof fn no_new_location_no_revalidation<S, X, O, E>(
    m: Model<S, X, O, E>,
    version: TxVersion,
    result: ResultModel<O, E>,
    other: TxId,
)
    requires
        m.wf(),
        version.txid < m.num_txs(),
        m.status(version.txid) == TransactionStatus::Executing,
        m.states[version.txid as int].incarnation == version.incarnation,
        !m.writes_new_locations(version.txid, result.write_set),
        other < m.num_txs(),
        other != version.txid,
        m.current(other),
    ensures
        m.execute_ok(version, true, false, result).current(other),
        m.execute_ok(version, true, false, result).fresh(other as int) == m.fresh(other as int),
{
    crate::serial::lemma_rewrite_keeps_reads(m, version, result, other);
    crate::serial::lemma_same_fresh(m, m.execute_ok(version, true, false, result), other as int);
}

/// What a transaction wrote is what later transactions read, up to the next writer: after an
/// execution without conflict, a read of a written location by a later transaction sees this
/// incarnation where nobody in between wrote the location.
pub proof fn writes_are_read<S, X, O, E>(
    m: Model<S, X, O, E>,
    version: TxVersion,
    result: ResultModel<O, E>,
    key: LocationKey,
    reader: TxId,
)
    requires
        m.wf(),
        version.txid < m.num_txs(),
        m.status(version.txid) == TransactionStatus::Executing,
        result.write_set.contains(key),
        version.txid < reader,
        forall|id: TxId| version.txid < id < reader ==> !#[trigger] wrote(m.memory, key, id),
    ensures
        read_is_current(
            m.execute_ok(version, true, false, result).memory,
            key,
            reader,
            ReadVersion::MvMemory(version),
        ),
{
    let after = m.execute_ok(version, true, false, result).memory;
    lemma_memory_after(m, version, result.write_set, false);
    lemma_latest_write(after, key, reader);
    assert(wrote(after, key, version.txid));
    let (writer, _) = latest_write(after, key, reader)->0;
    if writer != version.txid {
        assert(wrote(m.memory, key, writer));
    }
}

/// What a transaction wrote before it conflicted is an estimate: a read that would see it is not
/// current, whatever version it saw.
pub proof fn estimates_block_readers<S, X, O, E>(
    m: Model<S, X, O, E>,
    key: LocationKey,
    reader: TxId,
    version: ReadVersion,
)
    requires
        m.wf(),
        latest_write(m.memory, key, reader) is Some,
        m.status((latest_write(m.memory, key, reader)->0).0) == TransactionStatus::Conflict
            || m.status((latest_write(m.memory, key, reader)->0).0)
            == TransactionStatus::Executing,
    ensures
        !read_is_current(m.memory, key, reader, version),
{
    lemma_latest_write(m.memory, key, reader);
    let (writer, _) = latest_write(m.memory, key, reader)->0;
    assert(m.entry_wf(key, writer));
}

/// The dependency after an execution and the one after a validation agree: the last writer among
/// those not before `from` is the last writer, if it is not before `from`.
pub proof fn dependencies_agree(memory: Memory, reads: Reads, txid: TxId, from: TxId)
    ensures
        last_writer_from(memory, reads, txid, from) == match last_writer(memory, reads, txid) {
            Some(id) => if id >= from {
                Some(id)
            } else {
                None
            },
            None => None,
        },
{
    let all = |id: TxId| feeds(memory, reads, txid, id);
    let late = |id: TxId| feeds(memory, reads, txid, id) && id >= from;
    lemma_feeds(memory, reads, txid);
    lemma_greatest(all, txid);
    lemma_greatest(late, txid);
    if let Some(id) = greatest(all) {
        assert(all(id));
        if let Some(other) = greatest(late) {
            assert(late(other));
            assert(all(other));
            if id >= from {
                assert(late(id));
            }
        } else if id >= from {
            assert(late(id));
        }
    }
    if let Some(other) = greatest(late) {
        assert(late(other));
        assert(all(other));
    }
}

/// A transaction only ever waits for an earlier one that is not final.
pub proof fn dependencies_point_back(memory: Memory, reads: Reads, txid: TxId, from: TxId)
    ensures
        last_writer(memory, reads, txid) matches Some(id) ==> id < txid,
        last_writer_from(memory, reads, txid, from) matches Some(id) ==> from <= id < txid,
{
    let all = |id: TxId| feeds(memory, reads, txid, id);
    let late = |id: TxId| feeds(memory, reads, txid, id) && id >= from;
    lemma_feeds(memory, reads, txid);
    lemma_greatest(all, txid);
    lemma_greatest(late, txid);
    if let Some(id) = greatest(all) {
        assert(all(id));
    }
    if let Some(id) = greatest(late) {
        assert(late(id));
    }
}

/// Only a transaction with a successful execution is handed out for validation, in the incarnation
/// of that execution, and everything before it has been executed.
pub proof fn only_executed_are_validated<S, X, O, E>(
    m: Model<S, X, O, E>,
    executing_idx: usize,
    version: TxVersion,
)
    requires
        m.wf(),
        m.next_validation(executing_idx) == Some(Task::Validation(version)),
    ensures
        version.txid < m.num_txs(),
        version.txid < executing_idx,
        m.succeeded(version.txid as int),
        m.states[version.txid as int].incarnation == version.incarnation,
        forall|i: int| 0 <= i <= version.txid ==> #[trigger] m.ctx.executed[i],
{
    continuous_is_the_longest_prefix(m.ctx.executed);
    assert(m.tx_wf(version.txid as int));
}

/// Finality goes as far as it can: right after it, it goes no further.
pub proof fn finality_goes_as_far_as_it_can<S, X, O, E>(m: Model<S, X, O, E>)
    ensures
        m.async_finality().0.async_finality() == (m.async_finality().0, Seq::<usize>::empty()),
    decreases m.num_txs() - m.ctx.finality_idx,
{
    if m.finality_candidate() && m.ctx.unconfirmed_ts[m.ctx.finality_idx as int]
        > m.finality_bound() {
        finality_goes_as_far_as_it_can(m.finalized());
    }
}

/// A sequential run keeps its start, and where it reaches the end it has one result for each
/// transaction from the start on: together with the results before it, those of the whole block.
pub proof fn sequential_run_completes<X>(run: RunModel<X>, result: X, before: Seq<X>)
    requires
        run.wf(),
        run.start() == before.len(),
    ensures
        run.next < run.end ==> run.executed(result).wf() && run.executed(result).start()
            == before.len() && run.executed(result).end == run.end,
        run.next == run.end ==> (before + run.results).len() == run.end,
{
}

/// A small block, or any block where that is asked for, is executed as sequential execution alone
/// would execute it, whatever number of workers is asked for: the same run gives the same results
/// on the same state, and only the number of transactions is counted in addition.
pub proof fn small_blocks_run_sequentially<S, X, O, E>(
    m: Model<S, X, O, E>,
    requested: Option<usize>,
    configured: Option<Seq<char>>,
    default_level: usize,
    force_sequential: bool,
)
    requires
        force_sequential || m.num_txs() < MIN_PARALLEL_TXS,
    ensures
        m.plan(requested, configured, default_level, force_sequential)
            == ExecutionPlan::Sequential,
        m.counted().sequential_run() == m.sequential_run(),
        m.counted() == (Model { metrics: m.counted().metrics, ..m }),
        m.counted().metrics == (ExecuteMetricsCollector {
            total_tx_cnt: m.num_txs(),
            ..m.metrics
        }),
{
}

/// Results are in block order: after `k` transactions of a sequential run, the next one is the
/// `k`-th that had no result, and once all have run there is one result for each transaction of the
/// block, first those that there were, then those of the run, each at its transaction's place.
pub proof fn results_are_in_block_order<S, X, O, E>(
    m: Model<S, X, O, E>,
    results: Seq<X>,
    k: int,
)
    requires
        m.sequential_run() is Some,
        results.len() == m.num_txs() - m.results.len(),
        0 <= k <= results.len(),
    ensures
        ({
            let run = m.sequential_run()->0;
            let all = m.results + run.executed_all(results).results;
            &&& run.executed_all(results.take(k)).wf()
            &&& run.executed_all(results.take(k)).next == m.results.len() + k
            &&& run.executed_all(results.take(k)).end == m.num_txs()
            &&& run.executed_all(results).next == m.num_txs()
            &&& all.len() == m.num_txs()
            &&& all == m.results + results
        }),
{
    let run = m.sequential_run()->0;
    lemma_executed_all(run, results.take(k));
    lemma_executed_all(run, results);
    assert(Seq::<X>::empty() + results =~= results);
}

proof fn lemma_executed_all<X>(run: RunModel<X>, results: Seq<X>)
    requires
        run.wf(),
        run.next + results.len() <= run.end,
    ensures
        run.executed_all(results).wf(),
        run.executed_all(results).next == run.next + results.len(),
        run.executed_all(results).end == run.end,
        run.executed_all(results).results == run.results + results,
    decreases results.len(),
{
    if results.len() == 0 {
        assert(run.results + results =~= run.results);
    } else {
        lemma_executed_all(run, results.drop_last());
        assert((run.results + results.drop_last()).push(results.last()) =~= run.results + results);
    }
}

} // verus!
