//! What each step of the scheduler is for: how its answer and the state after it relate to what it
//! was given and to the state before it.

use vstd::prelude::*;

use crate::basics::{
    closest_writer_is_read, current_reads_see_the_same, dependency_is_the_greatest_supplier,
    edits_change_what_is_named, has_version, is_greatest_supplier, rollbacks_stamp_and_move_back,
    sees_again, supplies, validation_needs_an_executed_prefix,
};
use crate::consistency::{lemma_finalized_keeps_wf, lemma_memory_after};
use crate::context::ContextModel;
use crate::counter::{succ, wrapping_sum};
use crate::history::{end_of, is_run, Program, Step};
use crate::location::LocationKey;
use crate::memory::versions_at;
use crate::metrics::ExecuteMetricsCollector;
use crate::model::{wrote, Dispatch, Followup, Model, ResultModel};
use crate::scheduler::{result_model, slot_model, Execution};
use crate::types::{
    AbortReason, DependencyAction, MemoryEntry, ReadVersion, Task, TransactionResult,
    TransactionStatus, TxId, TxState, TxVersion,
};

verus! {

/// The transaction waits to be executed.
pub open spec fn waits_to_run(tx: TxState) -> bool {
    tx.status == TransactionStatus::Initial || tx.status == TransactionStatus::Conflict
}

/// The block, its finality and commit cursors, its results and its state are the same.
pub open spec fn same_block<S, X, O, E>(m: Model<S, X, O, E>, n: Model<S, X, O, E>) -> bool {
    &&& n.ctx.num_txs == m.ctx.num_txs
    &&& n.ctx.finality_idx == m.ctx.finality_idx
    &&& n.ctx.commit_idx == m.ctx.commit_idx
    &&& n.finality_ts == m.finality_ts
    &&& n.committing == m.committing
    &&& n.results == m.results
    &&& n.state == m.state
    &&& n.states.len() == m.states.len()
    &&& n.tx_results.len() == m.tx_results.len()
}

/// Of all transactions, only `txid` may have changed.
pub open spec fn only_changed<S, X, O, E>(
    m: Model<S, X, O, E>,
    n: Model<S, X, O, E>,
    txid: TxId,
) -> bool {
    &&& forall|i: int|
        0 <= i < m.states.len() && i != txid ==> #[trigger] n.states[i] == m.states[i]
    &&& forall|i: int|
        0 <= i < m.tx_results.len() && i != txid ==> #[trigger] n.tx_results[i] == m.tx_results[i]
}

/// The same versions are in memory at every location, but for those of `txid`.
pub open spec fn only_versions_changed<S, X, O, E>(
    m: Model<S, X, O, E>,
    n: Model<S, X, O, E>,
    txid: TxId,
) -> bool {
    forall|key: LocationKey, id: TxId|
        id != txid ==> {
            &&& #[trigger] has_version(n.memory, key, id) == has_version(m.memory, key, id)
            &&& has_version(m.memory, key, id) ==> n.memory[key][id] == m.memory[key][id]
        }
}

/// Validation was rolled back to `index` between the two: what comes after `index` has to be
/// validated later than this, and the cursor stands no further than `index`.
pub open spec fn rolled_back(c: ContextModel, d: ContextModel, index: int) -> bool {
    &&& d.unconfirmed_ts == c.unconfirmed_ts
    &&& forall|j: int|
        0 <= j < c.num_txs && j != index ==> #[trigger] d.lower_ts[j] == c.lower_ts[j]
    &&& index < c.num_txs ==> {
        &&& d.logical_ts == succ(c.logical_ts)
        &&& d.lower_ts[index] >= c.logical_ts
        &&& d.lower_ts[index] >= c.lower_ts[index]
        &&& d.lower_ts[index] == c.logical_ts || d.lower_ts[index] == c.lower_ts[index]
        &&& c.validation_idx > index ==> d.validation_idx == index && d.resets == succ(c.resets)
        &&& c.validation_idx <= index ==> d.validation_idx == c.validation_idx && d.resets
            == c.resets
    }
    &&& index >= c.num_txs ==> d.logical_ts == c.logical_ts && d.validation_idx == c.validation_idx
        && d.resets == c.resets
}

proof fn lemma_rolled_back(c: ContextModel, index: usize)
    requires
        c.lower_ts.len() == c.num_txs,
    ensures
        rolled_back(c, c.reset_validation_idx(index), index as int),
{
    assert forall|j: int| 0 <= j < c.num_txs && j != index implies #[trigger] c.reset_validation_idx(
        index,
    ).lower_ts[j] == c.lower_ts[j] by {
        rollbacks_stamp_and_move_back(c, index, j);
    }
    rollbacks_stamp_and_move_back(c, index, 0);
}

/// The transaction joined the executed ones between the two.
pub open spec fn joined_executed(c: ContextModel, d: ContextModel, txid: TxId) -> bool {
    &&& d.executed.len() == c.executed.len()
    &&& forall|j: int|
        0 <= j < c.executed.len() ==> (#[trigger] d.executed[j] <==> c.executed[j] || j == txid)
}

// What is kept of an execution

/// Everything that an execution read, wrote and yielded is kept.
pub proof fn executions_are_kept_whole<O, E>(
    execution: Execution<O>,
    result: TransactionResult<O, E>,
)
    ensures
        execution.result::<E>().read_set == execution.read_set@,
        execution.result::<E>().write_set == execution.write_set@,
        execution.result::<E>().execute_result == Ok::<O, E>(execution.output),
        result_model(result).read_set == result.read_set@,
        result_model(result).write_set == result.write_set@,
        result_model(result).execute_result == result.execute_result,
        slot_model(Some(result)) == Some(result_model(result)),
        slot_model::<O, E>(None) is None,
{
}

// Handing out

/// A transaction that waits to be executed is handed out, in the incarnation after its last one,
/// and nobody else gets it: it no longer waits. Of any other the graph is told that nobody needs
/// to wait for it. Either way nothing else happens.
pub proof fn waiting_transactions_are_handed_out<S, X, O, E>(m: Model<S, X, O, E>, txid: TxId)
    requires
        m.wf(),
        txid < m.ctx.num_txs,
        waits_to_run(m.states[txid as int]) ==> m.states[txid as int].incarnation < usize::MAX,
    ensures
        ({
            let n = m.execution_task(txid);
            let before = m.states[txid as int];
            let after = n.states[txid as int];
            &&& waits_to_run(before) ==> {
                &&& m.execution_dispatch(txid) matches Dispatch::Run(Task::Execution(version))
                &&& version.txid == txid
                &&& version.incarnation == before.incarnation + 1
                &&& after.incarnation == version.incarnation
                &&& after.status == TransactionStatus::Executing
                &&& after.dependency == before.dependency
                &&& n.metrics == m.metrics
            }
            &&& !waits_to_run(before) ==> {
                &&& m.execution_dispatch(txid) == Dispatch::Dependency(
                    DependencyAction::Remove(txid, false),
                )
                &&& after == before
                &&& n.metrics.useless_dependent_update == succ(m.metrics.useless_dependent_update)
                &&& (ExecuteMetricsCollector {
                    useless_dependent_update: m.metrics.useless_dependent_update,
                    ..n.metrics
                }) == m.metrics
            }
            &&& same_block(m, n)
            &&& only_changed(m, n, txid)
            &&& n.tx_results == m.tx_results
            &&& n.memory == m.memory
            &&& n.ctx == m.ctx
            &&& n.abort_reason == m.abort_reason
        }),
{
}

/// A transaction that was handed out is not handed out again before its execution is taken in: a
/// second request is answered with the word that nobody needs to wait.
pub proof fn nobody_is_handed_out_twice<S, X, O, E>(m: Model<S, X, O, E>, txid: TxId)
    requires
        m.wf(),
        txid < m.ctx.num_txs,
        waits_to_run(m.states[txid as int]) ==> m.states[txid as int].incarnation < usize::MAX,
    ensures
        m.execution_task(txid).execution_dispatch(txid) == Dispatch::Dependency(
            DependencyAction::Remove(txid, false),
        ),
{
}

/// Setting out to execute counts, and does nothing else.
pub proof fn setting_out_only_counts<S, X, O, E>(m: Model<S, X, O, E>, txid: TxId)
    ensures
        ({
            let n = m.start_execute(txid);
            &&& (Model { metrics: m.metrics, ..n }) == m
            &&& (ExecuteMetricsCollector {
                execution_cnt: m.metrics.execution_cnt,
                ..n.metrics
            }) == m.metrics
            &&& m.states[txid as int].status == TransactionStatus::Executing
                ==> n.metrics.execution_cnt == succ(m.metrics.execution_cnt)
            &&& m.states[txid as int].status != TransactionStatus::Executing ==> n.metrics
                == m.metrics
        }),
{
}

// Executions that the virtual machine completed

/// The execution wrote a location that the transaction's last execution did not write.
pub open spec fn writes_elsewhere<O, E>(
    last: Option<ResultModel<O, E>>,
    writes: Set<LocationKey>,
) -> bool {
    last is None || exists|key: LocationKey| #[trigger]
        writes.contains(key) && !last->0.write_set.contains(key)
}

/// An execution that did not read accurately or read an estimate leaves its transaction in
/// conflict. Any other leaves it to be validated: by anyone where it wrote a location that the last
/// execution did not write, by its own worker otherwise. The incarnation stays, the execution
/// itself is kept, and no other transaction is touched.
pub proof fn executions_conflict_or_await_validation<S, X, O, E>(
    m: Model<S, X, O, E>,
    version: TxVersion,
    accurate: bool,
    blocked: bool,
    result: ResultModel<O, E>,
)
    requires
        m.wf(),
        version.txid < m.ctx.num_txs,
    ensures
        ({
            let n = m.execute_ok(version, accurate, blocked, result);
            let before = m.states[version.txid as int];
            let after = n.states[version.txid as int];
            let followup = m.followup(version.txid, result.write_set, !accurate || blocked);
            let elsewhere = writes_elsewhere(m.tx_results[version.txid as int], result.write_set);
            &&& after.status == TransactionStatus::Conflict <==> !accurate || blocked
            &&& after.status == TransactionStatus::Executed <==> accurate && !blocked && elsewhere
            &&& after.status == TransactionStatus::Validating <==> accurate && !blocked
                && !elsewhere
            &&& followup == Followup::Rerun <==> after.status == TransactionStatus::Conflict
            &&& followup == Followup::Revalidate <==> after.status == TransactionStatus::Executed
            &&& followup == Followup::Validate <==> after.status == TransactionStatus::Validating
            &&& after.incarnation == before.incarnation
            &&& after.dependency == before.dependency
            &&& n.tx_results[version.txid as int] == Some(result)
            &&& same_block(m, n)
            &&& only_changed(m, n, version.txid)
            &&& n.abort_reason == m.abort_reason
        }),
{
    if let Some(last) = m.tx_results[version.txid as int] {
        if writes_elsewhere(Some(last), result.write_set) {
            let key = choose|key: LocationKey| #[trigger]
                result.write_set.contains(key) && !last.write_set.contains(key);
            assert(!result.write_set.subset_of(last.write_set));
        } else {
            assert(result.write_set.subset_of(last.write_set));
        }
    }
}

/// The graph hears what became of the execution. A transaction in conflict is made to wait: for
/// all before it where it did not read accurately, whatever else it read, and otherwise for its
/// greatest supplier that is not final, if there is one. Only a transaction without conflict is
/// reported as done, and each of them is.
pub proof fn conflicting_executions_wait<S, X, O, E>(
    m: Model<S, X, O, E>,
    version: TxVersion,
    accurate: bool,
    blocked: bool,
    result: ResultModel<O, E>,
)
    requires
        m.wf(),
        version.txid < m.ctx.num_txs,
    ensures
        ({
            let n = m.execute_ok(version, accurate, blocked, result);
            let action = m.execute_ok_dependency(version, accurate, blocked, result);
            let conflict = n.states[version.txid as int].status == TransactionStatus::Conflict;
            &&& conflict ==> action is KeyTx || action is Add
            &&& action == DependencyAction::KeyTx(version.txid) <==> !accurate
            &&& action == DependencyAction::Remove(version.txid, true) <==> !conflict
            &&& action is KeyTx <==> !accurate
            &&& action is Remove <==> !conflict
            &&& action is Add <==> accurate && blocked
            &&& action matches DependencyAction::Add(waiting, found) ==> waiting == version.txid
                && is_greatest_supplier(
                n.memory,
                result.read_set,
                version.txid,
                m.ctx.finality_idx,
                found,
            )
        }),
{
    let n = m.execute_ok(version, accurate, blocked, result);
    executions_conflict_or_await_validation(m, version, accurate, blocked, result);
    dependency_is_the_greatest_supplier(
        n.memory,
        result.read_set,
        version.txid,
        m.ctx.finality_idx,
    );
}

/// After an execution its transaction has a version exactly at the locations that the execution
/// wrote, each of this incarnation and an estimate exactly where it conflicts; no other version is
/// touched.
pub proof fn executions_publish_their_writes<S, X, O, E>(
    m: Model<S, X, O, E>,
    version: TxVersion,
    accurate: bool,
    blocked: bool,
    result: ResultModel<O, E>,
    key: LocationKey,
)
    requires
        m.wf(),
        version.txid < m.ctx.num_txs,
        m.states[version.txid as int].status == TransactionStatus::Executing,
    ensures
        ({
            let n = m.execute_ok(version, accurate, blocked, result);
            &&& has_version(n.memory, key, version.txid) <==> result.write_set.contains(key)
            &&& result.write_set.contains(key) ==> {
                &&& n.memory[key][version.txid].incarnation == version.incarnation
                &&& n.memory[key][version.txid].estimate <==> !accurate || blocked
            }
            &&& only_versions_changed(m, n, version.txid)
        }),
{
    let n = m.execute_ok(version, accurate, blocked, result);
    lemma_memory_after(m, version, result.write_set, !accurate || blocked);
    assert forall|k: LocationKey, id: TxId| #[trigger] has_version(n.memory, k, id) == wrote(
        n.memory,
        k,
        id,
    ) by {}
    assert(has_version(n.memory, key, version.txid) == wrote(n.memory, key, version.txid));
    assert(wrote(n.memory, key, version.txid) ==> versions_at(n.memory, key)[version.txid] == (
    MemoryEntry { incarnation: version.incarnation, estimate: !accurate || blocked }));
    assert forall|k: LocationKey, id: TxId| id != version.txid implies {
        &&& #[trigger] has_version(n.memory, k, id) == has_version(m.memory, k, id)
        &&& has_version(m.memory, k, id) ==> n.memory[k][id] == m.memory[k][id]
    } by {
        assert(has_version(n.memory, k, id) == wrote(n.memory, k, id));
        assert(wrote(n.memory, k, id) == wrote(m.memory, k, id));
        if wrote(m.memory, k, id) {
            assert(versions_at(n.memory, k)[id] == versions_at(m.memory, k)[id]);
        }
    }
}

/// An execution joins the executed ones. A conflict rolls validation back to the transaction after
/// it, a write elsewhere to the transaction itself, and without either validation goes on as it
/// was.
pub proof fn executions_roll_validation_back<S, X, O, E>(
    m: Model<S, X, O, E>,
    version: TxVersion,
    accurate: bool,
    blocked: bool,
    result: ResultModel<O, E>,
)
    requires
        m.wf(),
        version.txid < m.ctx.num_txs,
    ensures
        ({
            let n = m.execute_ok(version, accurate, blocked, result);
            let elsewhere = writes_elsewhere(m.tx_results[version.txid as int], result.write_set);
            &&& joined_executed(m.ctx, n.ctx, version.txid)
            &&& !accurate || blocked ==> rolled_back(m.ctx, n.ctx, version.txid + 1)
            &&& accurate && !blocked && elsewhere ==> rolled_back(
                m.ctx,
                n.ctx,
                version.txid as int,
            )
            &&& accurate && !blocked && !elsewhere ==> (ContextModel {
                executed: m.ctx.executed,
                ..n.ctx
            }) == m.ctx
        }),
{
    executions_conflict_or_await_validation(m, version, accurate, blocked, result);
    lemma_rolled_back(m.ctx.mark_executed(version.txid), version.txid);
    lemma_rolled_back(m.ctx.mark_executed(version.txid), (version.txid + 1) as usize);
}

// Executions that failed

/// A failed execution leaves its transaction in conflict, to run again: the error is kept, with no
/// reads and with the writes that the last execution left. Those stay in force as estimates, and
/// validation is rolled back to the transaction after it. No other transaction and no other
/// version is touched.
pub proof fn failed_executions_run_again<S, X, O, E>(
    m: Model<S, X, O, E>,
    version: TxVersion,
    commit_idx: TxId,
    error: E,
    key: LocationKey,
)
    requires
        m.wf(),
        version.txid < m.ctx.num_txs,
        m.states[version.txid as int].status == TransactionStatus::Executing,
    ensures
        ({
            let n = m.execute_err(version, commit_idx, error);
            let before = m.states[version.txid as int];
            let after = n.states[version.txid as int];
            &&& after.status == TransactionStatus::Conflict
            &&& after.incarnation == before.incarnation
            &&& after.dependency == before.dependency
            &&& n.tx_results[version.txid as int] matches Some(kept)
            &&& kept.execute_result == Err::<O, E>(error)
            &&& !kept.read_set.contains_key(key)
            &&& kept.write_set.contains(key) <==> m.tx_results[version.txid as int] is Some
                && m.tx_results[version.txid as int]->0.write_set.contains(key)
            &&& has_version(n.memory, key, version.txid) <==> kept.write_set.contains(key)
            &&& has_version(n.memory, key, version.txid) ==> {
                &&& n.memory[key][version.txid].estimate
                &&& n.memory[key][version.txid].incarnation
                    == m.memory[key][version.txid].incarnation
            }
            &&& only_versions_changed(m, n, version.txid)
            &&& joined_executed(m.ctx, n.ctx, version.txid)
            &&& rolled_back(m.ctx, n.ctx, version.txid + 1)
            &&& same_block(m, n)
            &&& only_changed(m, n, version.txid)
        }),
{
    let txid = version.txid;
    let n = m.execute_err(version, commit_idx, error);
    let writes = m.last_write_set(txid);
    lemma_rolled_back(m.ctx.mark_executed(txid), (txid + 1) as usize);
    assert(m.tx_wf(txid as int));
    assert(has_version(m.memory, key, txid) == wrote(m.memory, key, txid));
    if wrote(m.memory, key, txid) {
        assert(m.entry_wf(key, txid));
    }
    if writes.contains(key) {
        assert(m.last_write_set(txid).contains(key));
        assert(wrote(m.memory, key, txid));
    }
    edits_change_what_is_named(m.memory, writes, txid, key, txid);
    assert forall|k: LocationKey, id: TxId| id != txid implies {
        &&& #[trigger] has_version(n.memory, k, id) == has_version(m.memory, k, id)
        &&& has_version(m.memory, k, id) ==> n.memory[k][id] == m.memory[k][id]
    } by {
        edits_change_what_is_named(m.memory, writes, txid, k, id);
    }
}

/// A failure gives the block up exactly where the transaction started with everything before it
/// committed and nothing else gave the block up before; a failure of any other transaction, which
/// may have read too early, leaves the block as it was.
pub proof fn only_the_first_uncommitted_fails_the_block<S, X, O, E>(
    m: Model<S, X, O, E>,
    version: TxVersion,
    commit_idx: TxId,
    error: E,
)
    ensures
        ({
            let n = m.execute_err(version, commit_idx, error);
            &&& commit_idx != version.txid ==> n.abort_reason == m.abort_reason
            &&& commit_idx == version.txid && m.abort_reason is None ==> n.abort_reason == Some(
                AbortReason::EvmError,
            )
            &&& m.abort_reason is Some ==> n.abort_reason == m.abort_reason
        }),
{
}

/// The first reason to give the block up is kept, and nothing else changes.
pub proof fn giving_up_keeps_the_first_reason<S, X, O, E>(m: Model<S, X, O, E>, reason: AbortReason)
    ensures
        m.abort_reason is None ==> m.abort(reason).abort_reason == Some(reason),
        m.abort_reason is Some ==> m.abort(reason).abort_reason == m.abort_reason,
        (Model { abort_reason: m.abort_reason, ..m.abort(reason) }) == m,
{
}

/// The step may give the block up for this reason.
pub open spec fn gives_up<X, O, E>(step: Step<X, O, E>, reason: AbortReason) -> bool {
    match step {
        Step::Abort(given) => given == reason,
        Step::ExecuteErr(version, commit_idx, _) => reason == AbortReason::EvmError && commit_idx
            == version.txid,
        Step::CommitFinished(ok, _) => reason == AbortReason::EvmError && !ok,
        _ => false,
    }
}

/// One step gives the block up only for a reason of its own, and a step with a reason does.
pub proof fn steps_give_up_for_a_reason<S, X, O, E>(m: Model<S, X, O, E>, step: Step<X, O, E>)
    requires
        m.wf(),
    ensures
        m.abort_reason is Some ==> m.take(step).abort_reason == m.abort_reason,
        m.abort_reason is None ==> forall|reason: AbortReason|
            #![trigger gives_up(step, reason)]
            m.take(step).abort_reason == Some(reason) <==> gives_up(step, reason),
{
    if step is AsyncFinality {
        lemma_finality_frame(m);
    }
}

/// A block is given up only for a reason: where a run from the beginning of the block ends with
/// one, some step of the run had it: a call to give up, a commit that failed, or the failure of a
/// transaction that started with everything before it committed.
pub proof fn blocks_are_given_up_for_a_reason<S, X, O, E, V>(
    num_txs: usize,
    state: S,
    steps: Seq<Step<X, O, E>>,
    p: Program<V, O, E>,
    reason: AbortReason,
)
    requires
        is_run(Model::<S, X, O, E>::initial(num_txs, state), steps, p),
        end_of(Model::<S, X, O, E>::initial(num_txs, state), steps).abort_reason == Some(reason),
    ensures
        exists|k: int| 0 <= k < steps.len() && gives_up(#[trigger] steps[k], reason),
    decreases steps.len(),
{
    let first = Model::<S, X, O, E>::initial(num_txs, state);
    if steps.len() > 0 {
        let before = steps.drop_last();
        crate::history::every_run_keeps_history(num_txs, state, before, p);
        steps_give_up_for_a_reason(end_of(first, before), steps.last());
        if end_of(first, before).abort_reason is None {
            assert(gives_up(steps.last(), reason));
            assert(gives_up(steps[steps.len() - 1], reason));
        } else {
            blocks_are_given_up_for_a_reason(num_txs, state, before, p, reason);
            let k = choose|k: int| 0 <= k < before.len() && gives_up(#[trigger] before[k], reason);
            assert(gives_up(steps[k], reason));
        }
    }
}

/// An error is there to report exactly where the first transaction that is not final has failed;
/// without an error of the virtual machine nothing has to be explained.
pub proof fn explained_means_there_is_an_error<S, X, O, E>(m: Model<S, X, O, E>)
    ensures
        m.abort_reason == Some(AbortReason::EvmError) ==> (m.abort_is_explained() <==> {
            &&& m.ctx.finality_idx < m.ctx.num_txs
            &&& m.tx_results[m.ctx.finality_idx as int] is Some
            &&& m.tx_results[m.ctx.finality_idx as int]->0.execute_result is Err
        }),
        m.abort_reason != Some(AbortReason::EvmError) ==> m.abort_is_explained(),
{
}

// After an execution

/// A worker whose transaction has to run again looks for other work, and so does one whose
/// transaction anyone may validate, unless the graph handed back a transaction. One whose
/// transaction it alone is to validate validates it, unless the graph handed back a transaction;
/// then it leaves the validation to all, rolled back to its transaction.
pub proof fn workers_go_on_after_an_execution<S, X, O, E>(
    m: Model<S, X, O, E>,
    version: TxVersion,
    followup: Followup,
    next: TxId,
)
    requires
        m.wf(),
        version.txid < m.ctx.num_txs,
        followup == Followup::Validate ==> m.states[version.txid as int].status
            == TransactionStatus::Validating,
        next < m.ctx.num_txs,
        waits_to_run(m.states[next as int]) ==> m.states[next as int].incarnation < usize::MAX,
    ensures
        ({
            let n = m.after_execute(version, followup, Some(next));
            let dispatch = m.after_execute_dispatch(version, followup, Some(next));
            &&& m.after_execute(version, followup, None) == m
            &&& m.after_execute_dispatch(version, followup, None) == (if followup
                == Followup::Validate {
                Dispatch::Run(Task::Validation(version))
            } else {
                Dispatch::Idle
            })
            &&& followup == Followup::Rerun ==> n == m && dispatch == Dispatch::Idle
            &&& followup != Followup::Rerun ==> {
                &&& waits_to_run(m.states[next as int]) ==> {
                    &&& dispatch matches Dispatch::Run(Task::Execution(handed))
                    &&& handed.txid == next
                    &&& handed.incarnation == m.states[next as int].incarnation + 1
                    &&& n.states[next as int].status == TransactionStatus::Executing
                    &&& n.states[next as int].incarnation == handed.incarnation
                    &&& n.metrics == m.metrics
                }
                &&& !waits_to_run(m.states[next as int]) ==> {
                    &&& dispatch == Dispatch::Dependency(DependencyAction::Remove(next, false))
                    &&& n.metrics.useless_dependent_update == succ(
                        m.metrics.useless_dependent_update,
                    )
                    &&& n.states[next as int].incarnation == m.states[next as int].incarnation
                }
                &&& (ExecuteMetricsCollector {
                    useless_dependent_update: m.metrics.useless_dependent_update,
                    ..n.metrics
                }) == m.metrics
                &&& n.states[next as int].dependency == m.states[next as int].dependency
                &&& n.states[version.txid as int].dependency
                    == m.states[version.txid as int].dependency
            }
            &&& followup == Followup::Revalidate ==> n.ctx == m.ctx
            &&& followup == Followup::Validate ==> {
                &&& n.states[version.txid as int].status == TransactionStatus::Executed
                &&& n.states[version.txid as int].incarnation
                    == m.states[version.txid as int].incarnation
                &&& rolled_back(m.ctx, n.ctx, version.txid as int)
                &&& n.ctx.executed == m.ctx.executed
            }
            &&& forall|i: int|
                0 <= i < m.ctx.num_txs && i != next && (i != version.txid || followup
                    != Followup::Validate) ==> #[trigger] n.states[i] == m.states[i]
            &&& n.tx_results == m.tx_results
            &&& n.memory == m.memory
            &&& n.abort_reason == m.abort_reason
            &&& same_block(m, n)
        }),
{
    lemma_rolled_back(m.ctx, version.txid);
}

// Validation

/// Every read of the transaction's last execution sees the same again.
pub open spec fn all_seen_again<S, X, O, E>(m: Model<S, X, O, E>, txid: TxId) -> bool {
    m.tx_results[txid as int] is Some ==> forall|key: LocationKey| #[trigger]
        m.tx_results[txid as int]->0.read_set.contains_key(key) ==> sees_again(
            m.memory,
            key,
            txid,
            m.tx_results[txid as int]->0.read_set[key],
        )
}

/// A transaction that is to be validated passes exactly where every read sees the same again. Then
/// the validation has its time; otherwise the transaction is in conflict, its versions are
/// estimates, and validation is rolled back to the transaction after it. Either way its dependency
/// is its greatest supplier, and nothing else changes. A transaction that is not to be validated is
/// left alone.
pub proof fn validation_passes_what_is_seen_again<S, X, O, E>(
    m: Model<S, X, O, E>,
    txid: TxId,
    key: LocationKey,
)
    requires
        m.wf(),
        txid < m.ctx.num_txs,
    ensures
        ({
            let n = m.validate(txid);
            let before = m.states[txid as int];
            let after = n.states[txid as int];
            let reads = m.tx_results[txid as int]->0.read_set;
            &&& before.status != TransactionStatus::Validating ==> n == m
            &&& before.status == TransactionStatus::Validating ==> {
                &&& after.status == TransactionStatus::Unconfirmed <==> all_seen_again(m, txid)
                &&& after.status == TransactionStatus::Conflict <==> !all_seen_again(m, txid)
                &&& after.incarnation == before.incarnation
                &&& is_greatest_supplier(m.memory, reads, txid, 0, after.dependency)
                &&& n.metrics.validation_cnt == succ(m.metrics.validation_cnt)
                &&& n.tx_results == m.tx_results
                &&& same_block(m, n)
                &&& only_changed(m, n, txid)
                &&& only_versions_changed(m, n, txid)
                &&& n.abort_reason == m.abort_reason
                &&& n.ctx.executed == m.ctx.executed
                &&& has_version(n.memory, key, txid) == has_version(m.memory, key, txid)
                &&& has_version(m.memory, key, txid) ==> n.memory[key][txid].incarnation
                    == m.memory[key][txid].incarnation
            }
            &&& before.status == TransactionStatus::Validating && all_seen_again(m, txid) ==> {
                &&& n.memory == m.memory
                &&& n.ctx.unconfirmed_ts[txid as int] >= m.ctx.logical_ts
                &&& n.ctx.unconfirmed_ts[txid as int] >= m.ctx.unconfirmed_ts[txid as int]
                &&& n.ctx.unconfirmed_ts[txid as int] == m.ctx.logical_ts
                    || n.ctx.unconfirmed_ts[txid as int] == m.ctx.unconfirmed_ts[txid as int]
                &&& forall|j: int|
                    0 <= j < m.ctx.num_txs && j != txid ==> #[trigger] n.ctx.unconfirmed_ts[j]
                        == m.ctx.unconfirmed_ts[j]
                &&& n.ctx.logical_ts == succ(m.ctx.logical_ts)
                &&& n.ctx.lower_ts == m.ctx.lower_ts
                &&& n.ctx.validation_idx == m.ctx.validation_idx
                &&& n.ctx.resets == m.ctx.resets
            }
            &&& before.status == TransactionStatus::Validating && !all_seen_again(m, txid) ==> {
                &&& has_version(n.memory, key, txid) ==> n.memory[key][txid].estimate
                &&& rolled_back(m.ctx.tick(), n.ctx, txid + 1)
            }
        }),
{
    let n = m.validate(txid);
    assert(m.tx_wf(txid as int));
    if m.states[txid as int].status == TransactionStatus::Validating {
        let result = m.tx_results[txid as int]->0;
        let writes = m.last_write_set(txid);
        current_reads_see_the_same(m.memory, result.read_set, txid);
        dependency_is_the_greatest_supplier(m.memory, result.read_set, txid, 0);
        lemma_rolled_back(m.ctx.tick(), (txid + 1) as usize);
        assert(m.current(txid) == all_seen_again(m, txid));
        assert(has_version(m.memory, key, txid) == wrote(m.memory, key, txid));
        if wrote(m.memory, key, txid) {
            assert(m.entry_wf(key, txid));
        }
        edits_change_what_is_named(m.memory, writes, txid, key, txid);
        assert forall|k: LocationKey, id: TxId| id != txid implies {
            &&& #[trigger] has_version(n.memory, k, id) == has_version(m.memory, k, id)
            &&& has_version(m.memory, k, id) ==> n.memory[k][id] == m.memory[k][id]
        } by {
            edits_change_what_is_named(m.memory, writes, txid, k, id);
        }
    }
}

/// The graph hears of a validation exactly where it ends in conflict: the transaction waits for its
/// greatest supplier if that is not final, and for nobody where no supplier that is not final is
/// left.
pub proof fn conflicting_validations_wait_for_their_supplier<S, X, O, E>(
    m: Model<S, X, O, E>,
    txid: TxId,
)
    requires
        m.wf(),
        txid < m.ctx.num_txs,
    ensures
        ({
            let n = m.validate(txid);
            let answer = m.validate_dependency(txid);
            let reads = m.tx_results[txid as int]->0.read_set;
            let conflict = m.states[txid as int].status == TransactionStatus::Validating
                && n.states[txid as int].status == TransactionStatus::Conflict;
            &&& answer is Some <==> conflict
            &&& answer matches Some(action) ==> {
                &&& action matches DependencyAction::Add(waiting, found)
                &&& waiting == txid
                &&& is_greatest_supplier(m.memory, reads, txid, m.ctx.finality_idx, found)
                &&& found matches Some(id) ==> {
                    &&& supplies(m.memory, reads, txid, id)
                    &&& m.states[id as int].status != TransactionStatus::Finality
                }
                &&& found is None <==> forall|id: TxId| #[trigger]
                    supplies(m.memory, reads, txid, id) ==> m.states[id as int].status
                        == TransactionStatus::Finality
            }
        }),
{
    let reads = m.tx_results[txid as int]->0.read_set;
    assert(m.tx_wf(txid as int));
    validation_passes_what_is_seen_again(m, txid, (0, 0, 0, 0, 0));
    dependency_is_the_greatest_supplier(m.memory, reads, txid, m.ctx.finality_idx);
    assert forall|id: TxId| #[trigger] supplies(m.memory, reads, txid, id) implies id < txid && (
    m.states[id as int].status == TransactionStatus::Finality <==> id < m.ctx.finality_idx) by {
        assert(m.tx_wf(id as int));
    }
    if let Some(DependencyAction::Add(_, Some(id))) = m.validate_dependency(txid) {
        assert(supplies(m.memory, reads, txid, id));
    }
}

// Looking for work

/// A worker stops exactly where every transaction is final or the block was given up.
pub proof fn workers_stop_at_the_end<S, X, O, E>(m: Model<S, X, O, E>)
    ensures
        m.stopped() <==> m.ctx.finality_idx >= m.ctx.num_txs || m.abort_reason is Some,
{
}

/// The transaction at the validation cursor may be looked at.
pub open spec fn validation_due<S, X, O, E>(m: Model<S, X, O, E>, executing_idx: usize) -> bool {
    &&& m.ctx.finality_idx < m.ctx.num_txs
    &&& m.abort_reason is None
    &&& m.ctx.validation_idx < executing_idx
    &&& m.ctx.validation_idx < m.ctx.num_txs
    &&& forall|j: int| 0 <= j <= m.ctx.validation_idx ==> #[trigger] m.ctx.executed[j]
}

/// A worker that looks for work passes the validation cursor on where it may, and validates the
/// transaction there exactly where that has been executed and not been found in conflict, or has
/// been validated before; nobody else gets it then. Nothing else changes.
pub proof fn workers_validate_at_the_cursor<S, X, O, E>(m: Model<S, X, O, E>, executing_idx: usize)
    requires
        m.wf(),
    ensures
        ({
            let n = m.next(executing_idx);
            let at = m.ctx.validation_idx;
            let found = m.next_validation(executing_idx);
            let due = validation_due(m, executing_idx);
            let wanted = due && (m.states[at as int].status == TransactionStatus::Executed
                || m.states[at as int].status == TransactionStatus::Unconfirmed);
            &&& found is Some <==> wanted
            &&& found matches Some(task) ==> {
                &&& task matches Task::Validation(version)
                &&& version.txid == at
                &&& version.incarnation == m.states[at as int].incarnation
            }
            &&& due ==> n.ctx.validation_idx == at + 1
            &&& !due ==> n == m
            &&& wanted ==> n.states[at as int].status == TransactionStatus::Validating
                && n.states[at as int].incarnation == m.states[at as int].incarnation
                && n.states[at as int].dependency == m.states[at as int].dependency
            &&& !wanted ==> n.states == m.states
            &&& only_changed(m, n, at)
            &&& n.tx_results == m.tx_results
            &&& (ContextModel { validation_idx: at, ..n.ctx }) == m.ctx
            &&& n.memory == m.memory
            &&& n.metrics == m.metrics
            &&& n.abort_reason == m.abort_reason
            &&& same_block(m, n)
        }),
{
    validation_needs_an_executed_prefix(m.ctx, executing_idx);
    crate::detect_set::continuous_is_the_longest_prefix(m.ctx.executed);
}

// Finality

/// The transactions from `from` up to `to` that have a dependency, in block order.
pub open spec fn dependents(states: Seq<TxState>, from: int, to: int) -> Seq<int>
    decreases to - from,
{
    if from >= to {
        Seq::empty()
    } else if states[from].dependency is Some {
        seq![from] + dependents(states, from + 1, to)
    } else {
        dependents(states, from + 1, to)
    }
}

/// They are those, each once, in order.
pub proof fn dependents_are_listed_in_order(states: Seq<TxState>, from: int, to: int)
    ensures
        forall|j: int|
            0 <= j < dependents(states, from, to).len() ==> from <= #[trigger] dependents(
                states,
                from,
                to,
            )[j] < to && states[dependents(states, from, to)[j]].dependency is Some,
        forall|j: int, k: int|
            0 <= j < k < dependents(states, from, to).len() ==> #[trigger] dependents(
                states,
                from,
                to,
            )[j] < #[trigger] dependents(states, from, to)[k],
        forall|i: int|
            from <= i < to && (#[trigger] states[i]).dependency is Some ==> dependents(
                states,
                from,
                to,
            ).contains(i),
    decreases to - from,
{
    if from < to {
        dependents_are_listed_in_order(states, from + 1, to);
        let rest = dependents(states, from + 1, to);
        let all = dependents(states, from, to);
        assert forall|i: int| from <= i < to && (#[trigger] states[i]).dependency is Some implies all.contains(
            i,
        ) by {
            if i == from {
                assert(all[0] == i);
            } else {
                assert(rest.contains(i));
                let j = choose|j: int| 0 <= j < rest.len() && rest[j] == i;
                if states[from].dependency is Some {
                    assert(all[j + 1] == i);
                }
            }
        }
        if states[from].dependency is Some {
            assert forall|j: int| 0 <= j < all.len() implies from <= #[trigger] all[j] < to
                && states[all[j]].dependency is Some by {
                if j > 0 {
                    assert(all[j] == rest[j - 1]);
                }
            }
            assert forall|j: int, k: int| 0 <= j < k < all.len() implies #[trigger] all[j]
                < #[trigger] all[k] by {
                assert(all[k] == rest[k - 1]);
                if j > 0 {
                    assert(all[j] == rest[j - 1]);
                }
            }
        }
    }
}

/// What a final transaction can count as.
pub enum Attempts {
    /// It took more than one attempt.
    Repeated,
    /// It has no dependency.
    Independent,
    /// It has a dependency and took one attempt.
    DependentOnce,
    /// It has a dependency and took more than two attempts.
    DependentOften,
}

/// The transaction counts as that.
pub open spec fn counts_as(tx: TxState, attempts: Attempts) -> bool {
    match attempts {
        Attempts::Repeated => tx.incarnation > 1,
        Attempts::Independent => tx.dependency is None,
        Attempts::DependentOnce => tx.dependency is Some && tx.incarnation == 1,
        Attempts::DependentOften => tx.dependency is Some && tx.incarnation > 2,
    }
}

/// How many transactions from `from` up to `to` count as that.
pub open spec fn tally(states: Seq<TxState>, from: int, to: int, attempts: Attempts) -> nat
    decreases to - from,
{
    if from >= to {
        0
    } else {
        tally(states, from + 1, to, attempts) + (if counts_as(states[from], attempts) {
            1nat
        } else {
            0nat
        })
    }
}

/// The counter grew by `count`, unless it had to wrap around.
pub open spec fn grew(before: usize, after: usize, count: nat) -> bool {
    before + count <= usize::MAX ==> after == before + count
}

/// What finality does not touch.
proof fn lemma_finality_frame<S, X, O, E>(m: Model<S, X, O, E>)
    requires
        m.wf(),
    ensures
        ({
            let n = m.async_finality().0;
            &&& m.ctx.finality_idx <= n.ctx.finality_idx <= m.ctx.num_txs
            &&& n.states.len() == m.states.len()
            &&& forall|i: int|
                0 <= i < m.ctx.num_txs ==> #[trigger] n.states[i] == (TxState {
                    status: if m.ctx.finality_idx <= i < n.ctx.finality_idx {
                        TransactionStatus::Finality
                    } else {
                        m.states[i].status
                    },
                    ..m.states[i]
                })
            &&& (ContextModel { finality_idx: m.ctx.finality_idx, ..n.ctx }) == m.ctx
            &&& n.tx_results == m.tx_results
            &&& n.memory == m.memory
            &&& n.committing == m.committing
            &&& n.abort_reason == m.abort_reason
            &&& n.results == m.results
            &&& n.state == m.state
            &&& n.finality_ts >= m.finality_ts
        }),
    decreases m.num_txs() - m.ctx.finality_idx,
{
    if m.finality_candidate() && m.ctx.unconfirmed_ts[m.ctx.finality_idx as int]
        > m.finality_bound() {
        let k = m.finalized();
        let n = m.async_finality().0;
        lemma_finalized_keeps_wf(m);
        lemma_finality_frame(k);
        assert forall|i: int| 0 <= i < m.ctx.num_txs implies #[trigger] n.states[i] == (TxState {
            status: if m.ctx.finality_idx <= i < n.ctx.finality_idx {
                TransactionStatus::Finality
            } else {
                m.states[i].status
            },
            ..m.states[i]
        }) by {
            assert(k.states[i] == k.states[i]);
        }
    }
}

/// The transactions that become final are the next ones in block order: each has been validated,
/// stands before the validation cursor, and its validation is later than everything that finality
/// knew of and than every rollback to it or to one that becomes final before it. The first one that
/// does not become final lacks one of these. Nothing but the status of those that become final
/// changes, and what is counted.
pub proof fn finality_takes_the_fresh_in_order<S, X, O, E>(m: Model<S, X, O, E>, i: int, k: int)
    requires
        m.wf(),
    ensures
        ({
            let n = m.async_finality().0;
            let (from, to) = (m.ctx.finality_idx, n.ctx.finality_idx);
            &&& from <= to <= m.ctx.num_txs
            &&& from <= k <= i < to ==> {
                &&& m.states[i].status == TransactionStatus::Unconfirmed
                &&& i < m.ctx.validation_idx
                &&& m.finality_ts < m.ctx.unconfirmed_ts[i]
                &&& m.ctx.lower_ts[k] < m.ctx.unconfirmed_ts[i]
            }
            &&& to < m.ctx.num_txs ==> {
                ||| m.states[to as int].status != TransactionStatus::Unconfirmed
                ||| m.ctx.validation_idx <= to
                ||| m.ctx.unconfirmed_ts[to as int] <= m.finality_ts
                ||| exists|j: int|
                    from <= j <= to && m.ctx.unconfirmed_ts[to as int]
                        <= #[trigger] m.ctx.lower_ts[j]
            }
            &&& 0 <= i < m.ctx.num_txs ==> {
                &&& from <= i < to ==> n.states[i].status == TransactionStatus::Finality
                &&& !(from <= i < to) ==> n.states[i].status == m.states[i].status
                &&& n.states[i].incarnation == m.states[i].incarnation
                &&& n.states[i].dependency == m.states[i].dependency
            }
            &&& (ContextModel { finality_idx: from, ..n.ctx }) == m.ctx
            &&& n.tx_results == m.tx_results
            &&& n.memory == m.memory
            &&& n.committing == m.committing
            &&& n.abort_reason == m.abort_reason
            &&& n.results == m.results
            &&& n.state == m.state
        }),
    decreases m.num_txs() - m.ctx.finality_idx,
{
    lemma_finality_frame(m);
    let n = m.async_finality().0;
    let from = m.ctx.finality_idx;
    if 0 <= i < m.ctx.num_txs {
        assert(n.states[i] == n.states[i]);
    }
    if m.finality_candidate() && m.ctx.unconfirmed_ts[from as int] > m.finality_bound() {
        let next = m.finalized();
        lemma_finalized_keeps_wf(m);
        finality_takes_the_fresh_in_order(next, i, k);
        finality_takes_the_fresh_in_order(next, i, i);
        let to = n.ctx.finality_idx;
        if to < m.ctx.num_txs && exists|j: int|
            from + 1 <= j <= to && next.ctx.unconfirmed_ts[to as int]
                <= #[trigger] next.ctx.lower_ts[j] {
            let j = choose|j: int|
                from + 1 <= j <= to && next.ctx.unconfirmed_ts[to as int]
                    <= #[trigger] next.ctx.lower_ts[j];
            assert(m.ctx.unconfirmed_ts[to as int] <= m.ctx.lower_ts[j]);
        }
        if to < m.ctx.num_txs && next.ctx.unconfirmed_ts[to as int] <= next.finality_ts
            && m.ctx.unconfirmed_ts[to as int] > m.finality_ts {
            assert(m.ctx.unconfirmed_ts[to as int] <= m.ctx.lower_ts[from as int]);
        }
    } else if from < m.ctx.num_txs && m.finality_candidate() {
        if m.ctx.unconfirmed_ts[from as int] > m.finality_ts {
            assert(m.ctx.unconfirmed_ts[from as int] <= m.ctx.lower_ts[from as int]);
        }
    }
}

/// Finality remembers the latest rollback that it has met: to a transaction that it made final, or
/// to the one that a rollback keeps from becoming final.
pub proof fn finality_remembers_rollbacks<S, X, O, E>(m: Model<S, X, O, E>, i: int)
    requires
        m.wf(),
    ensures
        ({
            let n = m.async_finality().0;
            &&& n.finality_ts >= m.finality_ts
            &&& m.ctx.finality_idx <= i < n.ctx.finality_idx ==> m.ctx.lower_ts[i] <= n.finality_ts
            &&& n.finality_ts == m.finality_ts || exists|j: int|
                m.ctx.finality_idx <= j <= n.ctx.finality_idx && j < m.ctx.num_txs && n.finality_ts
                    == #[trigger] m.ctx.lower_ts[j]
        }),
    decreases m.num_txs() - m.ctx.finality_idx,
{
    lemma_finality_frame(m);
    let from = m.ctx.finality_idx;
    let n = m.async_finality().0;
    if m.finality_candidate() && m.ctx.unconfirmed_ts[from as int] > m.finality_bound() {
        let next = m.finalized();
        lemma_finalized_keeps_wf(m);
        lemma_finality_frame(next);
        finality_remembers_rollbacks(next, i);
        if n.finality_ts != next.finality_ts {
            let j = choose|j: int|
                from + 1 <= j <= n.ctx.finality_idx && j < m.ctx.num_txs && n.finality_ts
                    == #[trigger] next.ctx.lower_ts[j];
            assert(n.finality_ts == m.ctx.lower_ts[j]);
        } else if n.finality_ts != m.finality_ts {
            assert(n.finality_ts == m.ctx.lower_ts[from as int]);
        }
    } else if n.finality_ts != m.finality_ts {
        assert(n.finality_ts == m.ctx.lower_ts[from as int]);
    }
}

/// There is one distance for each of the transactions, and going back from the transaction by the
/// distance leads to its dependency.
pub open spec fn leads_back(states: Seq<TxState>, which: Seq<int>, distances: Seq<usize>) -> bool {
    &&& distances.len() == which.len()
    &&& forall|j: int|
        0 <= j < distances.len() ==> {
            &&& states[which[j]].dependency is Some
            &&& which[j] - #[trigger] distances[j] == states[which[j]].dependency->0
            &&& 0 < distances[j] <= which[j]
        }
}

/// The distances that finality returns are, in block order, those from each transaction that
/// becomes final and has a dependency back to that dependency: going back by the distance leads to
/// it. Those without a dependency have none.
pub proof fn distances_lead_back_to_dependencies<S, X, O, E>(m: Model<S, X, O, E>)
    requires
        m.wf(),
    ensures
        ({
            let (n, distances) = m.async_finality();
            let which = dependents(m.states, m.ctx.finality_idx as int, n.ctx.finality_idx as int);
            leads_back(m.states, which, distances)
        }),
    decreases m.num_txs() - m.ctx.finality_idx,
{
    let from = m.ctx.finality_idx as int;
    let (n, distances) = m.async_finality();
    lemma_finality_frame(m);
    if m.finality_candidate() && m.ctx.unconfirmed_ts[from] > m.finality_bound() {
        let next = m.finalized();
        let (_, rest) = next.async_finality();
        let to = n.ctx.finality_idx as int;
        lemma_finalized_keeps_wf(m);
        lemma_finality_frame(next);
        distances_lead_back_to_dependencies(next);
        lemma_same_dependents(m.states, next.states, from + 1, to);
        dependents_are_listed_in_order(m.states, from + 1, to);
        assert(m.tx_wf(from));
        let which = dependents(m.states, from, to);
        let later = dependents(m.states, from + 1, to);
        assert forall|j: int| 0 <= j < distances.len() implies {
            &&& m.states[which[j]].dependency is Some
            &&& which[j] - #[trigger] distances[j] == m.states[which[j]].dependency->0
            &&& 0 < distances[j] <= which[j]
        } by {
            if m.states[from].dependency is Some {
                if j == 0 {
                    assert(distances[0] == m.finality_distance()[0]);
                } else {
                    assert(distances[j] == rest[j - 1]);
                    assert(which[j] == later[j - 1]);
                    assert(next.states[later[j - 1]].dependency
                        == m.states[later[j - 1]].dependency);
                }
            } else {
                assert(distances[j] == rest[j]);
                assert(which[j] == later[j]);
                assert(next.states[later[j]].dependency == m.states[later[j]].dependency);
            }
        }
    }
}

proof fn lemma_same_dependents(a: Seq<TxState>, b: Seq<TxState>, from: int, to: int)
    requires
        forall|i: int| from <= i < to ==> (#[trigger] b[i]).dependency == a[i].dependency,
    ensures
        dependents(b, from, to) == dependents(a, from, to),
    decreases to - from,
{
    if from < to {
        assert(b[from].dependency == a[from].dependency);
        lemma_same_dependents(a, b, from + 1, to);
    }
}

/// Each transaction that becomes final is counted: in conflict where it took more than one
/// attempt; and without a dependency, or with one after one attempt, or with one after more than
/// two.
pub proof fn finality_counts_by_attempts<S, X, O, E>(m: Model<S, X, O, E>)
    requires
        m.wf(),
    ensures
        ({
            let n = m.async_finality().0;
            let (from, to) = (m.ctx.finality_idx as int, n.ctx.finality_idx as int);
            &&& grew(
                m.metrics.conflict_txs,
                n.metrics.conflict_txs,
                tally(m.states, from, to, Attempts::Repeated),
            )
            &&& grew(
                m.metrics.no_dependency_txs,
                n.metrics.no_dependency_txs,
                tally(m.states, from, to, Attempts::Independent),
            )
            &&& grew(
                m.metrics.one_attempt_with_dependency,
                n.metrics.one_attempt_with_dependency,
                tally(m.states, from, to, Attempts::DependentOnce),
            )
            &&& grew(
                m.metrics.more_attempts_with_dependency,
                n.metrics.more_attempts_with_dependency,
                tally(m.states, from, to, Attempts::DependentOften),
            )
            &&& (ExecuteMetricsCollector {
                conflict_txs: m.metrics.conflict_txs,
                no_dependency_txs: m.metrics.no_dependency_txs,
                one_attempt_with_dependency: m.metrics.one_attempt_with_dependency,
                more_attempts_with_dependency: m.metrics.more_attempts_with_dependency,
                ..n.metrics
            }) == m.metrics
        }),
    decreases m.num_txs() - m.ctx.finality_idx,
{
    lemma_finality_frame(m);
    if m.finality_candidate() && m.ctx.unconfirmed_ts[m.ctx.finality_idx as int]
        > m.finality_bound() {
        let next = m.finalized();
        let from = m.ctx.finality_idx as int;
        let to = m.async_finality().0.ctx.finality_idx as int;
        lemma_finalized_keeps_wf(m);
        lemma_finality_frame(next);
        finality_counts_by_attempts(next);
        lemma_same_tally(m.states, next.states, from + 1, to, Attempts::Repeated);
        lemma_same_tally(m.states, next.states, from + 1, to, Attempts::Independent);
        lemma_same_tally(m.states, next.states, from + 1, to, Attempts::DependentOnce);
        lemma_same_tally(m.states, next.states, from + 1, to, Attempts::DependentOften);
    }
}

proof fn lemma_same_tally(
    a: Seq<TxState>,
    b: Seq<TxState>,
    from: int,
    to: int,
    attempts: Attempts,
)
    requires
        forall|i: int| from <= i < to ==> #[trigger] b[i] == a[i],
    ensures
        tally(b, from, to, attempts) == tally(a, from, to, attempts),
    decreases to - from,
{
    if from < to {
        assert(b[from] == a[from]);
        lemma_same_tally(a, b, from + 1, to, attempts);
    }
}

// Dependencies of validated transactions

/// The read came from `id`.
pub open spec fn read_from<O, E>(result: ResultModel<O, E>, key: LocationKey, id: TxId) -> bool {
    result.read_set.contains_key(key) && (result.read_set[key] matches ReadVersion::MvMemory(seen)
        && seen.txid == id)
}

/// `found` is the last transaction that the execution read from, `None` where it read from none.
pub open spec fn is_last_read_from<O, E>(
    result: ResultModel<O, E>,
    found: Option<TxId>,
) -> bool {
    match found {
        Some(id) => {
            &&& exists|key: LocationKey| #[trigger] read_from(result, key, id)
            &&& forall|key: LocationKey, other: TxId| #[trigger]
                read_from(result, key, other) ==> other <= id
        },
        None => forall|key: LocationKey, other: TxId| !#[trigger] read_from(result, key, other),
    }
}

/// Every validated or final transaction whose execution is on hand depends on the last transaction
/// that the execution read from.
pub open spec fn dependencies_shown<S, X, O, E>(m: Model<S, X, O, E>) -> bool {
    forall|i: int|
        0 <= i < m.ctx.num_txs && (m.states[i].status == TransactionStatus::Unconfirmed
            || m.states[i].status == TransactionStatus::Finality) && m.tx_results[i] is Some
            ==> is_last_read_from(m.tx_results[i]->0, (#[trigger] m.states[i]).dependency)
}

/// Reads that see the same again name their writers, so that the last writer of what was read is
/// the last one that was read from.
proof fn lemma_last_read_from<S, X, O, E>(m: Model<S, X, O, E>, txid: TxId, found: Option<TxId>)
    requires
        m.tx_results[txid as int] is Some,
        all_seen_again(m, txid),
        is_greatest_supplier(m.memory, m.tx_results[txid as int]->0.read_set, txid, 0, found),
    ensures
        is_last_read_from(m.tx_results[txid as int]->0, found),
{
    let result = m.tx_results[txid as int]->0;
    let reads = result.read_set;
    assert forall|key: LocationKey, other: TxId| #[trigger] read_from(result, key, other) implies supplies(
        m.memory,
        reads,
        txid,
        other,
    ) by {
        assert(reads.contains_key(key));
        assert(sees_again(m.memory, key, txid, reads[key]));
    }
    if let Some(id) = found {
        assert(supplies(m.memory, reads, txid, id));
        let key = choose|key: LocationKey| #[trigger]
            reads.contains_key(key) && crate::basics::wrote_last(m.memory, key, txid, id);
        assert(sees_again(m.memory, key, txid, reads[key]));
        match reads[key] {
            ReadVersion::MvMemory(seen) => {
                closest_writer_is_read(m.memory, key, txid, id);
                closest_writer_is_read(m.memory, key, txid, seen.txid);
                assert(read_from(result, key, id));
            },
            ReadVersion::Storage => {
                assert(has_version(m.memory, key, id));
            },
        }
    }
}

/// Every step keeps dependencies right.
pub proof fn every_step_shows_dependencies<S, X, O, E>(m: Model<S, X, O, E>, step: Step<X, O, E>)
    requires
        m.wf(),
        m.allows(step),
        dependencies_shown(m),
    ensures
        dependencies_shown(m.take(step)),
{
    let n = m.take(step);
    assert forall|i: int|
        0 <= i < n.ctx.num_txs && (n.states[i].status == TransactionStatus::Unconfirmed
            || n.states[i].status == TransactionStatus::Finality)
            && n.tx_results[i] is Some implies is_last_read_from(
        n.tx_results[i]->0,
        (#[trigger] n.states[i]).dependency,
    ) by {
        let txid = i as TxId;
        match step {
            Step::Validate(validated) => {
                validation_passes_what_is_seen_again(m, validated, (0, 0, 0, 0, 0));
                assert(m.tx_wf(i));
                if validated == i && m.states[i].status == TransactionStatus::Validating {
                    lemma_last_read_from(m, txid, n.states[i].dependency);
                } else {
                    assert(n.states[i] == m.states[i]);
                }
            },
            Step::AsyncFinality => {
                finality_takes_the_fresh_in_order(m, i, i);
                assert(m.states[i].dependency == n.states[i].dependency);
            },
            Step::Next(executing_idx) => {
                workers_validate_at_the_cursor(m, executing_idx);
                if i != m.ctx.validation_idx {
                    assert(n.states[i] == m.states[i]);
                }
            },
            Step::ExecuteOk(version, accurate, blocked, result) => {
                executions_conflict_or_await_validation(m, version, accurate, blocked, result);
                if i != version.txid {
                    assert(n.states[i] == m.states[i]);
                    assert(n.tx_results[i] == m.tx_results[i]);
                }
            },
            _ => {
                assert(m.states[i].dependency == m.states[i].dependency);
            },
        }
    }
}

/// So in every state of a run going back from a final transaction by its distance leads to the last
/// transaction that it read from.
pub proof fn every_run_shows_dependencies<S, X, O, E, V>(
    num_txs: usize,
    state: S,
    steps: Seq<Step<X, O, E>>,
    p: Program<V, O, E>,
)
    requires
        is_run(Model::<S, X, O, E>::initial(num_txs, state), steps, p),
    ensures
        dependencies_shown(end_of(Model::<S, X, O, E>::initial(num_txs, state), steps)),
    decreases steps.len(),
{
    if steps.len() > 0 {
        let before = steps.drop_last();
        crate::history::every_run_keeps_history(num_txs, state, before, p);
        every_run_shows_dependencies(num_txs, state, before, p);
        every_step_shows_dependencies(
            end_of(Model::<S, X, O, E>::initial(num_txs, state), before),
            steps.last(),
        );
    }
}

// Commit

/// There is something to commit exactly where a final transaction is not committed. The first one
/// is handed over: its execution leaves, and nothing else changes until the committer is done.
pub proof fn commits_take_the_first_final<S, X, O, E>(m: Model<S, X, O, E>, i: int)
    requires
        m.wf(),
        m.commit_pending(),
    ensures
        m.ctx.commit_idx < m.ctx.finality_idx,
        m.states[m.ctx.commit_idx as int].status == TransactionStatus::Finality,
        ({
            let n = m.commit_started();
            &&& n.committing
            &&& n.tx_results.len() == m.tx_results.len()
            &&& n.tx_results[m.ctx.commit_idx as int] is None
            &&& 0 <= i < m.tx_results.len() && i != m.ctx.commit_idx ==> n.tx_results[i]
                == m.tx_results[i]
            &&& (Model { tx_results: m.tx_results, committing: m.committing, ..n }) == m
        }),
{
    assert(m.tx_wf(m.ctx.commit_idx as int));
}

/// Nothing is to be committed exactly where everything final is committed.
pub proof fn commits_catch_up<S, X, O, E>(m: Model<S, X, O, E>)
    requires
        m.wf(),
    ensures
        !m.commit_pending() <==> m.ctx.commit_idx == m.ctx.finality_idx,
{
}

/// A commit that went well moves the commit cursor by one; one that failed moves nothing and gives
/// the block up. Its time is added up either way, and nothing else changes.
pub proof fn commits_move_on_or_give_up<S, X, O, E>(m: Model<S, X, O, E>, ok: bool, nanos: usize)
    requires
        m.wf(),
        m.committing,
    ensures
        ({
            let n = m.commit_finished(ok, nanos);
            &&& n.metrics.commit_time == wrapping_sum(m.metrics.commit_time, nanos)
            &&& (ExecuteMetricsCollector { commit_time: m.metrics.commit_time, ..n.metrics })
                == m.metrics
            &&& ok ==> {
                &&& n.ctx.commit_idx == m.ctx.commit_idx + 1
                &&& !n.committing
                &&& n.abort_reason == m.abort_reason
            }
            &&& !ok ==> {
                &&& n.ctx.commit_idx == m.ctx.commit_idx
                &&& n.abort_reason is Some
                &&& m.abort_reason is None ==> n.abort_reason == Some(AbortReason::EvmError)
                &&& m.abort_reason is Some ==> n.abort_reason == m.abort_reason
            }
            &&& (ContextModel { commit_idx: m.ctx.commit_idx, ..n.ctx }) == m.ctx
            &&& n.states == m.states
            &&& n.tx_results == m.tx_results
            &&& n.memory == m.memory
            &&& n.finality_ts == m.finality_ts
            &&& n.results == m.results
            &&& n.state == m.state
        }),
{
}

/// Counting the transactions of the block changes that count alone.
pub proof fn counting_the_block_only_counts<S, X, O, E>(m: Model<S, X, O, E>)
    ensures
        m.counted().metrics.total_tx_cnt == m.ctx.num_txs,
        (ExecuteMetricsCollector {
            total_tx_cnt: m.metrics.total_tx_cnt,
            ..m.counted().metrics
        }) == m.metrics,
        (Model { metrics: m.metrics, ..m.counted() }) == m,
{
}

} // verus!
