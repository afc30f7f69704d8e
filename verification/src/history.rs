//! Whole runs: any number of steps, in any order that the operations of the scheduler allow.

use vstd::prelude::*;

use crate::collections::Reads;
use crate::equivalence::{
    agrees, final_executions_are_borne_out, final_executions_stay_borne_out, is_run_of,
    parallel_equals_sequential, parallel_outputs_equal_sequential, sequential_state, value_before,
};
use crate::laws::failure_of_the_first_is_explained;
use crate::location::LocationKey;
use crate::metrics::ExecuteMetricsCollector;
use crate::model::{reads_are_current, Followup, Model, ResultModel};
use crate::types::{AbortReason, TransactionStatus, TxId, TxVersion};

verus! {

/// A block as mathematics: the world state before it, what each incarnation wrote, and each
/// transaction as a function of the values that it sees: what it writes, what it yields, and the
/// error where it fails.
#[verifier::reject_recursive_types(V)]
pub struct Program<V, O, E> {
    pub base: spec_fn(LocationKey) -> V,
    pub values: spec_fn(TxVersion, LocationKey) -> V,
    pub run: spec_fn(TxId, spec_fn(LocationKey) -> V) -> Map<LocationKey, V>,
    pub outcome: spec_fn(TxId, spec_fn(LocationKey) -> V) -> O,
    pub failure: spec_fn(TxId, spec_fn(LocationKey) -> V) -> E,
}

impl<V, O, E> Program<V, O, E> {
    /// The world state after the first `n` transactions ran one after the other.
    pub open spec fn state_after(self, n: nat) -> spec_fn(LocationKey) -> V {
        sequential_state(self.base, self.run, n)
    }

    /// The incarnation ran its transaction: wherever the transaction sees the values that the
    /// execution saw, it writes what the execution wrote and yields what the execution yielded.
    pub open spec fn is_execution(self, version: TxVersion, result: ResultModel<O, E>) -> bool {
        &&& is_run_of(self.run, self.base, self.values, version, result)
        &&& forall|lookup: spec_fn(LocationKey) -> V| #[trigger]
            agrees(self.base, self.values, result, lookup) ==> result.execute_result == Ok::<O, E>(
                (self.outcome)(version.txid, lookup),
            )
    }

    /// The transaction fails with this error wherever it sees the values that were read.
    pub open spec fn is_failure(self, txid: TxId, reads: Reads, error: E) -> bool {
        forall|lookup: spec_fn(LocationKey) -> V| #[trigger]
            agrees(self.base, self.values, failed::<O, E>(reads, error), lookup) ==> error == (
            self.failure)(txid, lookup)
    }
}

/// An execution that failed with `error` after these reads.
pub open spec fn failed<O, E>(reads: Reads, error: E) -> ResultModel<O, E> {
    ResultModel { read_set: reads, write_set: Set::empty(), execute_result: Err(error) }
}

/// One step of the scheduler, as its operations take them.
pub enum Step<X, O, E> {
    /// `execution_task`
    ExecutionTask(TxId),
    /// `start_execute`
    StartExecute(TxId),
    /// `execute`, after the virtual machine completed: whether it read accurately, whether it read
    /// an estimate, and what it left behind.
    ExecuteOk(TxVersion, bool, bool, ResultModel<O, E>),
    /// `execute`, after it failed.
    ExecuteErr(TxVersion, TxId, E),
    /// `after_execute`
    AfterExecute(TxVersion, Followup, Option<TxId>),
    /// `validate`
    Validate(TxId),
    /// `next`
    Next(usize),
    /// `async_finality`
    AsyncFinality,
    /// `async_commit`, where outputs are committed one by one.
    CommitStarted,
    /// `async_commit`, where they are not.
    CommitPassed,
    /// `commit_finished`
    CommitFinished(bool, usize),
    /// `abort`
    Abort(AbortReason),
    /// `parallel_execute`, `sequential_executed`, `set_execution_time` and `report`, which count.
    Count(ExecuteMetricsCollector),
    /// `join` and `sequential_finished`, which add results at the end.
    Results(Seq<X>),
}

impl<S, X, O, E> Model<S, X, O, E> {
    /// The operation may be called: its `requires` hold, and the clock has room.
    pub open spec fn allows(self, step: Step<X, O, E>) -> bool {
        match step {
            Step::ExecutionTask(txid) => txid < self.num_txs() && (self.runnable(txid)
                ==> self.states[txid as int].incarnation < usize::MAX),
            Step::StartExecute(txid) => txid < self.num_txs(),
            Step::ExecuteOk(version, _, _, result) => {
                &&& version.txid < self.num_txs()
                &&& self.status(version.txid) == TransactionStatus::Executing
                &&& self.states[version.txid as int].incarnation == version.incarnation
                &&& result.execute_result is Ok
                &&& self.clock_has_room()
            },
            Step::ExecuteErr(version, _, _) => {
                &&& version.txid < self.num_txs()
                &&& self.status(version.txid) == TransactionStatus::Executing
                &&& self.clock_has_room()
            },
            Step::AfterExecute(version, followup, next) => {
                &&& version.txid < self.num_txs()
                &&& followup == Followup::Validate ==> self.status(version.txid)
                    == TransactionStatus::Validating
                &&& next matches Some(id) ==> id < self.num_txs() && (self.runnable(id)
                    ==> self.states[id as int].incarnation < usize::MAX)
                &&& self.clock_has_room()
            },
            Step::Validate(txid) => txid < self.num_txs() && self.clock_has_room(),
            Step::CommitStarted | Step::CommitPassed => self.commit_pending() && !self.committing,
            Step::CommitFinished(_, _) => self.committing,
            Step::Next(_) | Step::AsyncFinality | Step::Abort(_) | Step::Count(_) | Step::Results(
                _,
            ) => true,
        }
    }

    /// After the step.
    pub open spec fn take(self, step: Step<X, O, E>) -> Self {
        match step {
            Step::ExecutionTask(txid) => self.execution_task(txid),
            Step::StartExecute(txid) => self.start_execute(txid),
            Step::ExecuteOk(version, accurate, blocked, result) => self.execute_ok(
                version,
                accurate,
                blocked,
                result,
            ),
            Step::ExecuteErr(version, commit_idx, error) => self.execute_err(
                version,
                commit_idx,
                error,
            ),
            Step::AfterExecute(version, followup, next) => self.after_execute(
                version,
                followup,
                next,
            ),
            Step::Validate(txid) => self.validate(txid),
            Step::Next(executing_idx) => self.next(executing_idx),
            Step::AsyncFinality => self.async_finality().0,
            Step::CommitStarted => self.commit_started(),
            Step::CommitPassed => self.with_ctx(self.ctx.advance_commit()),
            Step::CommitFinished(ok, nanos) => self.commit_finished(ok, nanos),
            Step::Abort(reason) => self.abort(reason),
            Step::Count(metrics) => self.with_metrics(metrics),
            Step::Results(results) => Model { results: self.results + results, ..self },
        }
    }

    /// The executions of the transactions that have been committed or handed to the committer,
    /// after the step.
    pub open spec fn handed_after(
        self,
        handed: Seq<ResultModel<O, E>>,
        step: Step<X, O, E>,
    ) -> Seq<ResultModel<O, E>> {
        match step {
            Step::CommitStarted | Step::CommitPassed => handed.push(
                self.tx_results[self.ctx.commit_idx as int]->0,
            ),
            _ => handed,
        }
    }

    /// The scheduler is consistent and serializable, and memory bears out the executions of the
    /// transactions that have been committed or handed to the committer.
    pub open spec fn history(self, handed: Seq<ResultModel<O, E>>) -> bool {
        &&& self.wf()
        &&& self.serializable()
        &&& handed.len() == self.ctx.commit_idx + (if self.committing {
            1int
        } else {
            0int
        })
        &&& forall|i: int| 0 <= i < handed.len() ==> self.bears_out(i, #[trigger] handed[i])
    }

    /// The transaction has an execution that counts unless a validation finds it stale.
    pub open spec fn holds_result(self, i: int) -> bool {
        &&& self.states[i].status == TransactionStatus::Executed || self.states[i].status
            == TransactionStatus::Validating || self.states[i].status
            == TransactionStatus::Unconfirmed || self.states[i].status
            == TransactionStatus::Finality
        &&& self.tx_results[i] is Some
    }

    /// Every result of an executed, validating, unconfirmed or final transaction is an execution
    /// of its last incarnation.
    pub open spec fn runs<V>(self, p: Program<V, O, E>) -> bool {
        forall|i: int|
            0 <= i < self.num_txs() && #[trigger] self.holds_result(i) ==> p.is_execution(
                self.last_version(i),
                self.tx_results[i]->0,
            )
    }

    /// So is everything that has been handed over.
    pub open spec fn handed_runs<V>(
        self,
        p: Program<V, O, E>,
        handed: Seq<ResultModel<O, E>>,
    ) -> bool {
        forall|i: int|
            0 <= i < handed.len() ==> p.is_execution(self.last_version(i), #[trigger] handed[i])
    }
}

/// An execution without conflict that is taken in ran its transaction. Of other executions, and of
/// all else that comes from outside, nothing is asked.
pub open spec fn is_faithful<V, X, O, E>(p: Program<V, O, E>, step: Step<X, O, E>) -> bool {
    match step {
        Step::ExecuteOk(version, accurate, blocked, result) => accurate && !blocked
            ==> p.is_execution(version, result),
        _ => true,
    }
}

// Every step keeps the invariants

/// Every step that is allowed keeps the scheduler consistent and serializable, and moves on.
pub proof fn every_step_keeps_order<S, X, O, E>(m: Model<S, X, O, E>, step: Step<X, O, E>)
    requires
        m.wf(),
        m.serializable(),
        m.allows(step),
    ensures
        m.take(step).wf(),
        m.take(step).serializable(),
        m.moves_on(m.take(step)),
{
    match step {
        Step::ExecutionTask(txid) => {
            crate::consistency::execution_task_keeps_wf(m, txid);
            crate::serial::execution_task_keeps_serializable(m, txid);
            crate::progress::execution_task_moves_on(m, txid);
        },
        Step::StartExecute(txid) => {
            crate::consistency::start_execute_keeps_wf(m, txid);
            crate::serial::start_execute_keeps_serializable(m, txid);
            crate::progress::start_execute_moves_on(m, txid);
        },
        Step::ExecuteOk(version, accurate, blocked, result) => {
            crate::consistency::execute_ok_keeps_wf(m, version, accurate, blocked, result);
            crate::serial::execute_ok_keeps_serializable(m, version, accurate, blocked, result);
            crate::progress::execute_ok_moves_on(m, version, accurate, blocked, result);
        },
        Step::ExecuteErr(version, commit_idx, error) => {
            crate::consistency::execute_err_keeps_wf(m, version, commit_idx, error);
            crate::serial::execute_err_keeps_serializable(m, version, commit_idx, error);
            crate::progress::execute_err_moves_on(m, version, commit_idx, error);
        },
        Step::AfterExecute(version, followup, next) => {
            crate::consistency::after_execute_keeps_wf(m, version, followup, next);
            crate::serial::after_execute_keeps_serializable(m, version, followup, next);
            crate::progress::after_execute_moves_on(m, version, followup, next);
        },
        Step::Validate(txid) => {
            crate::consistency::validate_keeps_wf(m, txid);
            crate::serial::validate_keeps_serializable(m, txid);
            crate::progress::validate_moves_on(m, txid);
        },
        Step::Next(executing_idx) => {
            crate::consistency::next_keeps_wf(m, executing_idx);
            crate::serial::next_keeps_serializable(m, executing_idx);
            crate::progress::next_moves_on(m, executing_idx);
        },
        Step::AsyncFinality => {
            crate::consistency::async_finality_keeps_wf(m);
            crate::serial::async_finality_keeps_serializable(m);
            crate::progress::async_finality_moves_on(m);
        },
        Step::CommitStarted => {
            crate::consistency::commit_started_keeps_wf(m);
            crate::serial::commit_started_keeps_serializable(m);
            crate::progress::commit_started_moves_on(m);
        },
        Step::CommitPassed => {
            crate::consistency::commit_skipped_keeps_wf(m);
            crate::serial::commit_skipped_keeps_serializable(m);
            crate::progress::commit_passed_moves_on(m);
        },
        Step::CommitFinished(ok, nanos) => {
            crate::consistency::commit_finished_keeps_wf(m, ok, nanos);
            crate::serial::commit_finished_keeps_serializable(m, ok, nanos);
            crate::progress::commit_finished_moves_on(m, ok, nanos);
        },
        Step::Abort(reason) => {
            crate::consistency::abort_keeps_wf(m, reason);
            crate::serial::abort_keeps_serializable(m, reason);
            crate::progress::abort_moves_on(m, reason);
        },
        Step::Count(metrics) => {
            crate::consistency::lemma_same_parts(m, m.take(step));
            crate::serial::lemma_quiet_step(m, m.take(step));
            crate::progress::metrics_move_on(m, metrics);
        },
        Step::Results(results) => {
            crate::consistency::lemma_same_parts(m, m.take(step));
            crate::serial::lemma_quiet_step(m, m.take(step));
            crate::progress::results_move_on(m, results);
        },
    }
}

/// Finality keeps incarnations and results.
proof fn lemma_finality_keeps_results<S, X, O, E>(m: Model<S, X, O, E>)
    requires
        m.wf(),
    ensures
        m.async_finality().0.tx_results == m.tx_results,
        m.async_finality().0.ctx.commit_idx == m.ctx.commit_idx,
        m.async_finality().0.committing == m.committing,
        forall|i: int|
            0 <= i < m.num_txs() ==> (#[trigger] m.async_finality().0.states[i]).incarnation
                == m.states[i].incarnation,
    decreases m.num_txs() - m.ctx.finality_idx,
{
    if m.finality_candidate() && m.ctx.unconfirmed_ts[m.ctx.finality_idx as int]
        > m.finality_bound() {
        let n = m.finalized();
        crate::consistency::lemma_finalized_keeps_wf(m);
        lemma_finality_keeps_results(n);
        assert forall|i: int| 0 <= i < m.num_txs() implies (#[trigger] m.async_finality().0.states[i]).incarnation
            == m.states[i].incarnation by {
            assert(n.states[i].incarnation == m.states[i].incarnation);
        }
    }
}

/// Every step keeps the history: what memory bears out of the executions that were handed over it
/// goes on to bear out, and it bears out what is handed over.
pub proof fn every_step_keeps_history<S, X, O, E>(
    m: Model<S, X, O, E>,
    handed: Seq<ResultModel<O, E>>,
    step: Step<X, O, E>,
)
    requires
        m.history(handed),
        m.allows(step),
    ensures
        m.take(step).history(m.handed_after(handed, step)),
{
    let n = m.take(step);
    let more = m.handed_after(handed, step);
    every_step_keeps_order(m, step);
    if step is AsyncFinality {
        lemma_finality_keeps_results(m);
    }
    assert forall|i: int| 0 <= i < more.len() implies n.bears_out(i, #[trigger] more[i]) by {
        if i < handed.len() {
            assert(more[i] == handed[i]);
        } else {
            assert(m.tx_wf(i));
            final_executions_are_borne_out(m, i);
        }
        final_executions_stay_borne_out(m, n, i, more[i]);
    }
}

/// A result that counts after a step that did not bring it counted before, in the same incarnation.
proof fn lemma_results_stay<S, X, O, E>(m: Model<S, X, O, E>, step: Step<X, O, E>, i: int)
    requires
        m.wf(),
        m.allows(step),
        0 <= i < m.num_txs(),
        m.take(step).holds_result(i),
        !(step matches Step::ExecuteOk(version, _, _, _) && version.txid == i),
    ensures
        m.holds_result(i),
        m.take(step).tx_results[i] == m.tx_results[i],
        m.take(step).states[i].incarnation == m.states[i].incarnation,
{
    let n = m.take(step);
    assert(m.tx_wf(i));
    match step {
        Step::AsyncFinality => {
            lemma_finality_keeps_results(m);
            crate::progress::async_finality_moves_on(m);
            assert(n.states[i].incarnation == m.states[i].incarnation);
        },
        Step::Next(_) => {
            crate::detect_set::continuous_is_the_longest_prefix(m.ctx.executed);
            assert(m.tx_wf(m.ctx.validation_idx as int) || !m.ctx.can_validate(step->Next_0));
        },
        Step::AfterExecute(version, _, Some(next)) => {
            assert(m.tx_wf(next as int));
            assert(m.tx_wf(version.txid as int));
        },
        _ => {},
    }
}

/// Every step keeps that results are executions of the last incarnation, where the executions that
/// are taken in without conflict ran their transactions.
pub proof fn every_step_keeps_runs<S, X, O, E, V>(
    m: Model<S, X, O, E>,
    handed: Seq<ResultModel<O, E>>,
    step: Step<X, O, E>,
    p: Program<V, O, E>,
)
    requires
        m.history(handed),
        m.runs(p),
        m.handed_runs(p, handed),
        m.allows(step),
        is_faithful(p, step),
    ensures
        m.take(step).runs(p),
        m.take(step).handed_runs(p, m.handed_after(handed, step)),
{
    let n = m.take(step);
    let more = m.handed_after(handed, step);
    every_step_keeps_order(m, step);
    assert forall|i: int| 0 <= i < n.num_txs() && #[trigger] n.holds_result(i) implies p.is_execution(
        n.last_version(i),
        n.tx_results[i]->0,
    ) by {
        if step matches Step::ExecuteOk(version, _, _, _) && version.txid == i {
        } else {
            lemma_results_stay(m, step, i);
        }
    }
    assert forall|i: int| 0 <= i < more.len() implies p.is_execution(
        n.last_version(i),
        #[trigger] more[i],
    ) by {
        assert(m.tx_wf(i));
        assert(n.states[i] == m.states[i]);
        if i < handed.len() {
            assert(more[i] == handed[i]);
        } else {
            assert(m.holds_result(i));
        }
    }
}

// What follows

/// The executions of the final transactions: those that were handed over, then those on hand.
pub open spec fn final_executions<S, X, O, E>(
    m: Model<S, X, O, E>,
    handed: Seq<ResultModel<O, E>>,
) -> Seq<ResultModel<O, E>> {
    Seq::new(
        m.ctx.finality_idx as nat,
        |i: int|
            if i < handed.len() {
                handed[i]
            } else {
                m.tx_results[i]->0
            },
    )
}

/// Memory bears out the executions of all final transactions, and they are executions of the last
/// incarnations.
proof fn lemma_final_executions<S, X, O, E, V>(
    m: Model<S, X, O, E>,
    handed: Seq<ResultModel<O, E>>,
    p: Program<V, O, E>,
)
    requires
        m.history(handed),
        m.runs(p),
        m.handed_runs(p, handed),
    ensures
        final_executions(m, handed).len() == m.ctx.finality_idx,
        handed.len() <= m.ctx.finality_idx,
        forall|i: int|
            0 <= i < m.ctx.finality_idx ==> m.bears_out(
                i,
                #[trigger] final_executions(m, handed)[i],
            ) && p.is_execution(m.last_version(i), final_executions(m, handed)[i]),
{
    assert forall|i: int| 0 <= i < m.ctx.finality_idx implies m.bears_out(
        i,
        #[trigger] final_executions(m, handed)[i],
    ) && p.is_execution(m.last_version(i), final_executions(m, handed)[i]) by {
        assert(m.tx_wf(i));
        if i < handed.len() {
            assert(m.bears_out(i, handed[i]));
            assert(p.is_execution(m.last_version(i), handed[i]));
        } else {
            assert(m.holds_result(i));
            final_executions_are_borne_out(m, i);
        }
    }
}

/// The values that memory gives after the final transactions are those of sequential execution.
pub proof fn final_values_equal_sequential<S, X, O, E, V>(
    m: Model<S, X, O, E>,
    handed: Seq<ResultModel<O, E>>,
    p: Program<V, O, E>,
    n: TxId,
)
    requires
        m.history(handed),
        m.runs(p),
        m.handed_runs(p, handed),
        n <= m.ctx.finality_idx,
    ensures
        forall|key: LocationKey| #[trigger]
            p.state_after(n as nat)(key) == value_before(m.memory, p.base, p.values, n, key),
{
    let results = final_executions(m, handed).take(n as int);
    lemma_final_executions(m, handed, p);
    assert forall|i: int| 0 <= i < n implies m.bears_out(i, #[trigger] results[i]) && is_run_of(
        p.run,
        p.base,
        p.values,
        m.last_version(i),
        results[i],
    ) by {
        assert(results[i] == final_executions(m, handed)[i]);
    }
    parallel_equals_sequential(m, n, results, p.base, p.values, p.run);
}

/// The executions of the final transactions yield what sequential execution yields.
pub proof fn final_outputs_equal_sequential<S, X, O, E, V>(
    m: Model<S, X, O, E>,
    handed: Seq<ResultModel<O, E>>,
    p: Program<V, O, E>,
)
    requires
        m.history(handed),
        m.runs(p),
        m.handed_runs(p, handed),
    ensures
        forall|i: int|
            0 <= i < m.ctx.finality_idx ==> (#[trigger] final_executions(
                m,
                handed,
            )[i]).execute_result == Ok::<O, E>((p.outcome)(i as TxId, p.state_after(i as nat))),
{
    let results = final_executions(m, handed);
    lemma_final_executions(m, handed, p);
    assert forall|i: int, lookup: spec_fn(LocationKey) -> V|
        0 <= i < m.ctx.finality_idx && #[trigger] agrees(
            p.base,
            p.values,
            results[i],
            lookup,
        ) implies results[i].execute_result == Ok::<O, E>((p.outcome)(i as TxId, lookup)) by {
        assert(p.is_execution(m.last_version(i), results[i]));
    }
    parallel_outputs_equal_sequential(
        m,
        m.ctx.finality_idx,
        results,
        p.base,
        p.values,
        p.run,
        p.outcome,
    );
}

/// The output that is handed to the committer next is the one of sequential execution.
pub proof fn next_commit_equals_sequential<S, X, O, E, V>(
    m: Model<S, X, O, E>,
    handed: Seq<ResultModel<O, E>>,
    p: Program<V, O, E>,
)
    requires
        m.history(handed),
        m.runs(p),
        m.handed_runs(p, handed),
        m.commit_pending(),
        !m.committing,
    ensures
        m.tx_results[m.ctx.commit_idx as int] matches Some(result) && result.execute_result
            == Ok::<O, E>(
            (p.outcome)(m.ctx.commit_idx, p.state_after(m.ctx.commit_idx as nat)),
        ),
{
    let i = m.ctx.commit_idx as int;
    assert(m.tx_wf(i));
    final_outputs_equal_sequential(m, handed, p);
    assert(final_executions(m, handed)[i] == m.tx_results[i]->0);
}

/// The failure that is reported is the one of sequential execution: where a transaction fails that
/// started with everything before it committed, it is the first one that is not final, and its
/// error is the one after all transactions before it ran one after the other. What it read is
/// current, because everything before it has been final since it started.
pub proof fn reported_failure_equals_sequential<S, X, O, E, V>(
    m: Model<S, X, O, E>,
    handed: Seq<ResultModel<O, E>>,
    p: Program<V, O, E>,
    version: TxVersion,
    commit_idx: TxId,
    reads: Reads,
    error: E,
)
    requires
        m.history(handed),
        m.runs(p),
        m.handed_runs(p, handed),
        version.txid < m.num_txs(),
        m.status(version.txid) == TransactionStatus::Executing,
        commit_idx == version.txid,
        commit_idx <= m.ctx.commit_idx,
        reads_are_current(m.memory, reads, version.txid),
        p.is_failure(version.txid, reads, error),
    ensures
        ({
            let n = m.execute_err(version, commit_idx, error);
            &&& n.abort_reason is Some
            &&& n.abort_is_explained()
            &&& n.ctx.finality_idx == version.txid
            &&& n.tx_results[n.ctx.finality_idx as int] matches Some(result)
            &&& result.execute_result == Err::<O, E>(
                (p.failure)(version.txid, p.state_after(version.txid as nat)),
            )
        }),
{
    let txid = version.txid;
    failure_of_the_first_is_explained(m, version, commit_idx, error);
    final_values_equal_sequential(m, handed, p, txid);
    crate::equivalence::lemma_current_reads_agree(
        m.memory,
        txid,
        failed::<O, E>(reads, error),
        p.base,
        p.values,
        p.state_after(txid as nat),
    );
}

// From the first step to the last

/// The state after these steps.
pub open spec fn end_of<S, X, O, E>(m: Model<S, X, O, E>, steps: Seq<Step<X, O, E>>) -> Model<
    S,
    X,
    O,
    E,
>
    decreases steps.len(),
{
    if steps.len() == 0 {
        m
    } else {
        end_of(m, steps.drop_last()).take(steps.last())
    }
}

/// The executions that were handed over in these steps.
pub open spec fn handed_in<S, X, O, E>(m: Model<S, X, O, E>, steps: Seq<Step<X, O, E>>) -> Seq<
    ResultModel<O, E>,
>
    decreases steps.len(),
{
    if steps.len() == 0 {
        Seq::empty()
    } else {
        end_of(m, steps.drop_last()).handed_after(
            handed_in(m, steps.drop_last()),
            steps.last(),
        )
    }
}

/// Each step is allowed where it is taken, and faithful.
pub open spec fn is_run<S, X, O, E, V>(
    m: Model<S, X, O, E>,
    steps: Seq<Step<X, O, E>>,
    p: Program<V, O, E>,
) -> bool
    decreases steps.len(),
{
    steps.len() > 0 ==> {
        &&& is_run(m, steps.drop_last(), p)
        &&& end_of(m, steps.drop_last()).allows(steps.last())
        &&& is_faithful(p, steps.last())
    }
}

/// Every run from the beginning of a block keeps the invariants.
pub proof fn every_run_keeps_history<S, X, O, E, V>(
    num_txs: usize,
    state: S,
    steps: Seq<Step<X, O, E>>,
    p: Program<V, O, E>,
)
    requires
        is_run(Model::<S, X, O, E>::initial(num_txs, state), steps, p),
    ensures
        ({
            let first = Model::<S, X, O, E>::initial(num_txs, state);
            let m = end_of(first, steps);
            let handed = handed_in(first, steps);
            &&& m.num_txs() == num_txs
            &&& m.state == state
            &&& m.history(handed)
            &&& m.runs(p)
            &&& m.handed_runs(p, handed)
        }),
    decreases steps.len(),
{
    let first = Model::<S, X, O, E>::initial(num_txs, state);
    if steps.len() == 0 {
        crate::consistency::initial_is_wf::<S, X, O, E>(num_txs, state);
        crate::serial::initial_is_serializable::<S, X, O, E>(num_txs, state);
    } else {
        let before = steps.drop_last();
        every_run_keeps_history(num_txs, state, before, p);
        every_step_keeps_order(end_of(first, before), steps.last());
        every_step_keeps_history(end_of(first, before), handed_in(first, before), steps.last());
        every_step_keeps_runs(end_of(first, before), handed_in(first, before), steps.last(), p);
    }
}

/// Parallel execution of a block gives what sequential execution gives. Whatever steps were taken,
/// in whatever order, by however many workers and on whatever answers of the dependency graph: the
/// executions that were handed to the committer are those of the first transactions, one each and
/// in block order; each yields what its transaction yields after all before it ran one after the
/// other; and the values in memory after them are those after they ran one after the other.
pub proof fn every_run_equals_sequential<S, X, O, E, V>(
    num_txs: usize,
    state: S,
    steps: Seq<Step<X, O, E>>,
    p: Program<V, O, E>,
)
    requires
        is_run(Model::<S, X, O, E>::initial(num_txs, state), steps, p),
    ensures
        ({
            let first = Model::<S, X, O, E>::initial(num_txs, state);
            let m = end_of(first, steps);
            let handed = handed_in(first, steps);
            &&& handed.len() == m.ctx.commit_idx + (if m.committing {
                1int
            } else {
                0int
            })
            &&& handed.len() <= num_txs
            &&& forall|i: int|
                0 <= i < handed.len() ==> (#[trigger] handed[i]).execute_result == Ok::<O, E>(
                    (p.outcome)(i as TxId, p.state_after(i as nat)),
                )
            &&& forall|key: LocationKey| #[trigger]
                p.state_after(handed.len())(key) == value_before(
                    m.memory,
                    p.base,
                    p.values,
                    handed.len() as TxId,
                    key,
                )
        }),
{
    let first = Model::<S, X, O, E>::initial(num_txs, state);
    let m = end_of(first, steps);
    let handed = handed_in(first, steps);
    every_run_keeps_history(num_txs, state, steps, p);
    lemma_final_executions(m, handed, p);
    final_outputs_equal_sequential(m, handed, p);
    final_values_equal_sequential(m, handed, p, handed.len() as TxId);
    assert forall|i: int| 0 <= i < handed.len() implies (#[trigger] handed[i]).execute_result == Ok::<
        O,
        E,
    >((p.outcome)(i as TxId, p.state_after(i as nat))) by {
        assert(final_executions(m, handed)[i] == handed[i]);
    }
}

/// The results of a block are those of sequential execution, in block order. The committer makes
/// one result `finish` of each output that it is handed, and `rest` are the results of the
/// transactions that it did not get to, executed one after the other from there on. Then there is
/// one result for each transaction, at its transaction's place, made of what sequential execution
/// yields.
pub proof fn results_equal_sequential<S, X, O, E, V>(
    num_txs: usize,
    state: S,
    steps: Seq<Step<X, O, E>>,
    p: Program<V, O, E>,
    finish: spec_fn(O) -> X,
    results: Seq<X>,
    rest: Seq<X>,
)
    requires
        is_run(Model::<S, X, O, E>::initial(num_txs, state), steps, p),
        ({
            let first = Model::<S, X, O, E>::initial(num_txs, state);
            let m = end_of(first, steps);
            let handed = handed_in(first, steps);
            &&& !m.committing
            &&& m.results.len() == 0
            &&& results.len() == handed.len()
            &&& forall|i: int|
                0 <= i < results.len() ==> #[trigger] results[i] == finish(
                    handed[i].execute_result->Ok_0,
                )
        }),
        rest.len() == num_txs - results.len(),
        forall|i: int|
            0 <= i < rest.len() ==> #[trigger] rest[i] == finish(
                (p.outcome)(
                    (results.len() + i) as TxId,
                    p.state_after((results.len() + i) as nat),
                ),
            ),
    ensures
        ({
            let m = end_of(Model::<S, X, O, E>::initial(num_txs, state), steps);
            let joined = m.take(Step::Results(results));
            let n = joined.take(Step::Results(rest));
            &&& joined.results.len() == m.ctx.commit_idx
            &&& joined.sequential_run() is None <==> m.ctx.commit_idx == num_txs
            &&& joined.sequential_run() matches Some(run) ==> run.next == m.ctx.commit_idx
            &&& n.results.len() == num_txs
            &&& n.state == state
            &&& forall|i: int|
                0 <= i < num_txs ==> #[trigger] n.results[i] == finish(
                    (p.outcome)(i as TxId, p.state_after(i as nat)),
                )
        }),
{
    let first = Model::<S, X, O, E>::initial(num_txs, state);
    let m = end_of(first, steps);
    let handed = handed_in(first, steps);
    every_run_keeps_history(num_txs, state, steps, p);
    every_run_equals_sequential(num_txs, state, steps, p);
    let n = m.take(Step::Results(results)).take(Step::Results(rest));
    assert forall|i: int| 0 <= i < num_txs implies #[trigger] n.results[i] == finish(
        (p.outcome)(i as TxId, p.state_after(i as nat)),
    ) by {
        if i < results.len() {
            assert(n.results[i] == results[i]);
            assert(handed[i].execute_result == Ok::<O, E>(
                (p.outcome)(i as TxId, p.state_after(i as nat)),
            ));
        } else {
            assert(n.results[i] == rest[i - results.len()]);
        }
    }
}

} // verus!
