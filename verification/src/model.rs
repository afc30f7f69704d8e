//! What the scheduler does, as functions from one state to the next.

use vstd::prelude::*;

use crate::collections::{Memory, Reads};
use crate::config::{workers, ExecutionPlan, MIN_PARALLEL_TXS};
use crate::context::ContextModel;
use crate::counter::{max, succ, wrapping_sum};
use crate::location::LocationKey;
use crate::memory::{edited_at, latest_write, published, versions_at};
use crate::metrics::ExecuteMetricsCollector;
use crate::sequential::RunModel;
use crate::types::{
    AbortReason, DependencyAction, MemoryEntry, ReadVersion, Task, TransactionStatus, TxId, TxState,
    TxVersion,
};
use crate::versions::VersionEdit;

verus! {

/// `id` satisfies `p` and nothing larger does.
pub open spec fn is_greatest(p: spec_fn(TxId) -> bool, id: TxId) -> bool {
    p(id) && forall|other: TxId| #[trigger] p(other) ==> other <= id
}

/// The greatest transaction that satisfies `p`.
pub open spec fn greatest(p: spec_fn(TxId) -> bool) -> Option<TxId> {
    if exists|id: TxId| is_greatest(p, id) {
        Some(choose|id: TxId| is_greatest(p, id))
    } else {
        None
    }
}

/// A read by `txid` that saw `version` would see the same version now, and its writer is not
/// about to run again.
pub open spec fn read_is_current(
    memory: Memory,
    key: LocationKey,
    txid: TxId,
    version: ReadVersion,
) -> bool {
    match latest_write(memory, key, txid) {
        Some((writer, entry)) => !entry.estimate && version == ReadVersion::MvMemory(
            TxVersion { txid: writer, incarnation: entry.incarnation },
        ),
        None => version == ReadVersion::Storage,
    }
}

/// Every read by `txid` would see the same version now.
pub open spec fn reads_are_current(memory: Memory, reads: Reads, txid: TxId) -> bool {
    forall|key: LocationKey| #[trigger]
        reads.contains_key(key) ==> read_is_current(memory, key, txid, reads[key])
}

/// `id` is the last writer before `txid` of a location that `txid` read.
pub open spec fn feeds(memory: Memory, reads: Reads, txid: TxId, id: TxId) -> bool {
    exists|key: LocationKey| #[trigger]
        reads.contains_key(key) && (latest_write(memory, key, txid) matches Some((writer, _))
            && writer == id)
}

/// The greatest of the last writers before `txid` of the locations that `txid` read.
pub open spec fn last_writer(memory: Memory, reads: Reads, txid: TxId) -> Option<TxId> {
    greatest(|id: TxId| feeds(memory, reads, txid, id))
}

/// The greatest of those writers that is not before `from`.
pub open spec fn last_writer_from(memory: Memory, reads: Reads, txid: TxId, from: TxId) -> Option<
    TxId,
> {
    greatest(|id: TxId| feeds(memory, reads, txid, id) && id >= from)
}

/// `id` wrote the location.
pub open spec fn wrote(memory: Memory, key: LocationKey, id: TxId) -> bool {
    versions_at(memory, key).contains_key(id)
}

/// What the last execution of a transaction left behind.
pub struct ResultModel<O, E> {
    pub read_set: Reads,
    pub write_set: Set<LocationKey>,
    pub execute_result: Result<O, E>,
}

/// What remains to be done after an execution, once the dependency graph has been told.
#[derive(Clone, Copy, Debug, PartialEq, Eq, Structural)]
pub enum Followup {
    /// The execution conflicted: the transaction waits to be run again.
    Rerun,
    /// It wrote new locations: validation has been rolled back to it.
    Revalidate,
    /// It wrote no new location: it alone is to be validated.
    Validate,
}

/// What a worker does next.
#[derive(Clone, Copy, Debug, PartialEq, Eq, Structural)]
pub enum Dispatch {
    /// Look for work.
    Idle,
    /// There is a task to run.
    Run(Task),
    /// Tell the dependency graph, then look for work.
    Dependency(DependencyAction),
}

/// The state of the scheduler. `S` is the world state that is carried along, `X` a transaction's
/// final result, `O` what a successful execution yields, `E` the error of a failed one.
pub struct Model<S, X, O, E> {
    pub ctx: ContextModel,
    /// The scheduling state of each transaction.
    pub states: Seq<TxState>,
    /// What the last execution of each transaction left behind, until it is committed.
    pub tx_results: Seq<Option<ResultModel<O, E>>>,
    pub memory: Memory,
    /// The latest rollback to a final transaction, as far as finality has looked.
    pub finality_ts: usize,
    /// The first uncommitted transaction has been handed to the committer.
    pub committing: bool,
    pub abort_reason: Option<AbortReason>,
    pub metrics: ExecuteMetricsCollector,
    /// The final results, in block order.
    pub results: Seq<X>,
    pub state: S,
}

impl<S, X, O, E> Model<S, X, O, E> {
    /// The scheduler of a block of `num_txs` transactions before anything has run.
    pub open spec fn initial(num_txs: usize, state: S) -> Self {
        Model {
            ctx: ContextModel::initial(num_txs),
            states: Seq::new(num_txs as nat, |i: int| TxState::initial()),
            tx_results: Seq::new(num_txs as nat, |i: int| None),
            memory: Memory::empty(),
            finality_ts: 0,
            committing: false,
            abort_reason: None,
            metrics: ExecuteMetricsCollector::zero(),
            results: Seq::empty(),
            state,
        }
    }

    pub open spec fn num_txs(self) -> usize {
        self.ctx.num_txs
    }

    pub open spec fn status(self, txid: TxId) -> TransactionStatus {
        self.states[txid as int].status
    }

    pub open spec fn with_state(self, txid: TxId, state: TxState) -> Self {
        Model { states: self.states.update(txid as int, state), ..self }
    }

    pub open spec fn with_status(self, txid: TxId, status: TransactionStatus) -> Self {
        self.with_state(txid, TxState { status, ..self.states[txid as int] })
    }

    pub open spec fn with_result(self, txid: TxId, result: ResultModel<O, E>) -> Self {
        Model { tx_results: self.tx_results.update(txid as int, Some(result)), ..self }
    }

    pub open spec fn with_ctx(self, ctx: ContextModel) -> Self {
        Model { ctx, ..self }
    }

    pub open spec fn with_memory(self, memory: Memory) -> Self {
        Model { memory, ..self }
    }

    pub open spec fn with_metrics(self, metrics: ExecuteMetricsCollector) -> Self {
        Model { metrics, ..self }
    }

    /// After parallel execution was given up. The first reason stays.
    pub open spec fn abort(self, reason: AbortReason) -> Self {
        if self.abort_reason is None {
            Model { abort_reason: Some(reason), ..self }
        } else {
            self
        }
    }

    /// The clock can be drawn twice without wrapping around.
    pub open spec fn clock_has_room(self) -> bool {
        self.ctx.logical_ts < usize::MAX - 1
    }

    // Execution

    /// The transaction waits to be executed.
    pub open spec fn runnable(self, txid: TxId) -> bool {
        self.status(txid) == TransactionStatus::Initial || self.status(txid)
            == TransactionStatus::Conflict
    }

    /// After the transaction was asked for execution.
    pub open spec fn execution_task(self, txid: TxId) -> Self {
        if self.runnable(txid) {
            self.with_state(
                txid,
                TxState {
                    status: TransactionStatus::Executing,
                    incarnation: (self.states[txid as int].incarnation + 1) as usize,
                    ..self.states[txid as int]
                },
            )
        } else {
            self.with_metrics(
                ExecuteMetricsCollector {
                    useless_dependent_update: succ(self.metrics.useless_dependent_update),
                    ..self.metrics
                },
            )
        }
    }

    /// The answer to that: its next incarnation, or the word that nobody needs to wait for it.
    pub open spec fn execution_dispatch(self, txid: TxId) -> Dispatch {
        if self.runnable(txid) {
            Dispatch::Run(
                Task::Execution(
                    TxVersion {
                        txid,
                        incarnation: (self.states[txid as int].incarnation + 1) as usize,
                    },
                ),
            )
        } else {
            Dispatch::Dependency(DependencyAction::Remove(txid, false))
        }
    }

    /// After a worker set out to execute the transaction.
    pub open spec fn start_execute(self, txid: TxId) -> Self {
        if self.status(txid) == TransactionStatus::Executing {
            self.with_metrics(
                ExecuteMetricsCollector {
                    execution_cnt: succ(self.metrics.execution_cnt),
                    ..self.metrics
                },
            )
        } else {
            self
        }
    }

    /// The execution wrote a location that the last one did not write.
    pub open spec fn writes_new_locations(self, txid: TxId, writes: Set<LocationKey>) -> bool {
        match self.tx_results[txid as int] {
            Some(last) => !writes.subset_of(last.write_set),
            None => true,
        }
    }

    /// Memory after an execution wrote `writes`: they are in, and what only the last execution
    /// wrote is out.
    pub open spec fn memory_after(
        self,
        version: TxVersion,
        writes: Set<LocationKey>,
        conflict: bool,
    ) -> Memory {
        let entry = MemoryEntry { incarnation: version.incarnation, estimate: conflict };
        let memory = published(self.memory, writes, version.txid, entry);
        match self.tx_results[version.txid as int] {
            Some(last) => edited_at(
                memory,
                last.write_set.difference(writes),
                VersionEdit::Retire(version.txid),
            ),
            None => memory,
        }
    }

    /// What remains to be done after a successful execution.
    pub open spec fn followup(self, txid: TxId, writes: Set<LocationKey>, conflict: bool) -> Followup {
        if conflict {
            Followup::Rerun
        } else if self.writes_new_locations(txid, writes) {
            Followup::Revalidate
        } else {
            Followup::Validate
        }
    }

    /// The counters after a successful execution.
    pub open spec fn metrics_after(self, accurate: bool, blocked: bool) -> ExecuteMetricsCollector {
        if !accurate {
            ExecuteMetricsCollector {
                conflict_cnt: succ(self.metrics.conflict_cnt),
                conflict_by_miner: succ(self.metrics.conflict_by_miner),
                ..self.metrics
            }
        } else if blocked {
            ExecuteMetricsCollector {
                conflict_cnt: succ(self.metrics.conflict_cnt),
                conflict_by_estimate: succ(self.metrics.conflict_by_estimate),
                ..self.metrics
            }
        } else {
            self.metrics
        }
    }

    /// After an execution that the virtual machine completed. It conflicts where it read the miner
    /// or a destructed account before everything before it was committed (`!accurate`), or where
    /// it read an estimate (`blocked`). A conflict rolls validation back to the next transaction,
    /// a write to a new location rolls it back to this one.
    pub open spec fn execute_ok(
        self,
        version: TxVersion,
        accurate: bool,
        blocked: bool,
        result: ResultModel<O, E>,
    ) -> Self {
        let txid = version.txid;
        let conflict = !accurate || blocked;
        let executed = self.ctx.mark_executed(txid);
        let done = self.with_memory(
            self.memory_after(version, result.write_set, conflict),
        ).with_result(txid, result).with_metrics(self.metrics_after(accurate, blocked));
        match self.followup(txid, result.write_set, conflict) {
            Followup::Rerun => done.with_status(txid, TransactionStatus::Conflict).with_ctx(
                executed.reset_validation_idx((txid + 1) as usize),
            ),
            Followup::Revalidate => done.with_status(txid, TransactionStatus::Executed).with_ctx(
                executed.reset_validation_idx(txid),
            ),
            Followup::Validate => done.with_status(txid, TransactionStatus::Validating).with_ctx(
                executed,
            ),
        }
    }

    /// What the dependency graph is told after that: the transaction waits for all before it, it
    /// waits for the last unfinal writer that feeds it, or nobody waits for it any more.
    pub open spec fn execute_ok_dependency(
        self,
        version: TxVersion,
        accurate: bool,
        blocked: bool,
        result: ResultModel<O, E>,
    ) -> DependencyAction {
        if !accurate {
            DependencyAction::KeyTx(version.txid)
        } else if blocked {
            DependencyAction::Add(
                version.txid,
                last_writer_from(
                    self.memory_after(version, result.write_set, true),
                    result.read_set,
                    version.txid,
                    self.ctx.finality_idx,
                ),
            )
        } else {
            DependencyAction::Remove(version.txid, true)
        }
    }

    /// The locations that the transaction has versions of.
    pub open spec fn last_write_set(self, txid: TxId) -> Set<LocationKey> {
        match self.tx_results[txid as int] {
            Some(last) => last.write_set,
            None => Set::empty(),
        }
    }

    /// After an execution that failed. What the last one wrote stays, as estimates. The failure is
    /// the block's failure where everything before the transaction was committed when it started.
    pub open spec fn execute_err(self, version: TxVersion, commit_idx: TxId, error: E) -> Self {
        let txid = version.txid;
        let failed = self.with_memory(
            edited_at(self.memory, self.last_write_set(txid), VersionEdit::MarkEstimate(txid)),
        ).with_result(
            txid,
            ResultModel {
                read_set: Reads::empty(),
                write_set: self.last_write_set(txid),
                execute_result: Err(error),
            },
        ).with_metrics(
            ExecuteMetricsCollector {
                conflict_cnt: succ(self.metrics.conflict_cnt),
                conflict_by_error: succ(self.metrics.conflict_by_error),
                ..self.metrics
            },
        ).with_status(txid, TransactionStatus::Conflict).with_ctx(
            self.ctx.mark_executed(txid).reset_validation_idx((txid + 1) as usize),
        );
        if commit_idx == txid {
            failed.abort(AbortReason::EvmError)
        } else {
            failed
        }
    }

    /// After the dependency graph answered that `next` can run on the same worker, or that nothing
    /// can.
    pub open spec fn after_execute(
        self,
        version: TxVersion,
        followup: Followup,
        next: Option<TxId>,
    ) -> Self {
        match (followup, next) {
            (Followup::Rerun, _) => self,
            (_, None) => self,
            (Followup::Revalidate, Some(next)) => self.execution_task(next),
            (Followup::Validate, Some(next)) => self.with_status(
                version.txid,
                TransactionStatus::Executed,
            ).with_ctx(self.ctx.reset_validation_idx(version.txid)).execution_task(next),
        }
    }

    /// What the worker does then.
    pub open spec fn after_execute_dispatch(
        self,
        version: TxVersion,
        followup: Followup,
        next: Option<TxId>,
    ) -> Dispatch {
        match (followup, next) {
            (Followup::Rerun, _) => Dispatch::Idle,
            (Followup::Revalidate, None) => Dispatch::Idle,
            (Followup::Validate, None) => Dispatch::Run(Task::Validation(version)),
            (Followup::Revalidate, Some(next)) => self.execution_dispatch(next),
            (Followup::Validate, Some(next)) => self.with_status(
                version.txid,
                TransactionStatus::Executed,
            ).execution_dispatch(next),
        }
    }

    // Validation

    /// Every read of the last execution would see the same version now.
    pub open spec fn current(self, txid: TxId) -> bool {
        self.tx_results[txid as int] matches Some(result) ==> reads_are_current(
            self.memory,
            result.read_set,
            txid,
        )
    }

    /// The last writer of what the last execution read.
    pub open spec fn dependency(self, txid: TxId) -> Option<TxId> {
        match self.tx_results[txid as int] {
            Some(result) => last_writer(self.memory, result.read_set, txid),
            None => None,
        }
    }

    /// After the transaction was validated: unconfirmed where its reads are current, in conflict
    /// where they are not, with validation rolled back to the next transaction.
    pub open spec fn validate(self, txid: TxId) -> Self {
        if self.status(txid) != TransactionStatus::Validating {
            self
        } else if self.current(txid) {
            self.with_metrics(
                ExecuteMetricsCollector {
                    validation_cnt: succ(self.metrics.validation_cnt),
                    ..self.metrics
                },
            ).with_state(
                txid,
                TxState {
                    status: TransactionStatus::Unconfirmed,
                    dependency: self.dependency(txid),
                    ..self.states[txid as int]
                },
            ).with_ctx(self.ctx.tick().mark_unconfirmed(txid, self.ctx.logical_ts))
        } else {
            self.with_metrics(
                ExecuteMetricsCollector {
                    validation_cnt: succ(self.metrics.validation_cnt),
                    conflict_cnt: succ(self.metrics.conflict_cnt),
                    conflict_by_version: succ(self.metrics.conflict_by_version),
                    ..self.metrics
                },
            ).with_state(
                txid,
                TxState {
                    status: TransactionStatus::Conflict,
                    dependency: self.dependency(txid),
                    ..self.states[txid as int]
                },
            ).with_memory(
                edited_at(self.memory, self.last_write_set(txid), VersionEdit::MarkEstimate(txid)),
            ).with_ctx(self.ctx.tick().reset_validation_idx((txid + 1) as usize))
        }
    }

    /// What the dependency graph is told after a validation: a conflicting transaction waits for
    /// its dependency, unless that is final.
    pub open spec fn validate_dependency(self, txid: TxId) -> Option<DependencyAction> {
        if self.status(txid) != TransactionStatus::Validating || self.current(txid) {
            None
        } else {
            Some(
                DependencyAction::Add(
                    txid,
                    match self.dependency(txid) {
                        Some(id) => if id >= self.ctx.finality_idx {
                            Some(id)
                        } else {
                            None
                        },
                        None => None,
                    },
                ),
            )
        }
    }

    // Looking for work

    /// There is nothing left to schedule.
    pub open spec fn stopped(self) -> bool {
        self.ctx.finality_idx >= self.num_txs() || self.abort_reason is Some
    }

    /// The transaction at the validation cursor waits to be validated, for the first time or anew.
    pub open spec fn awaits_validation(self, txid: TxId) -> bool {
        self.status(txid) == TransactionStatus::Executed || self.status(txid)
            == TransactionStatus::Unconfirmed
    }

    /// After a worker looked for something to validate.
    pub open spec fn next(self, executing_idx: usize) -> Self {
        if !self.stopped() && self.ctx.can_validate(executing_idx) {
            let txid = self.ctx.validation_idx;
            let moved = self.with_ctx(self.ctx.advance_validation());
            if self.awaits_validation(txid) {
                moved.with_status(txid, TransactionStatus::Validating)
            } else {
                moved
            }
        } else {
            self
        }
    }

    /// The validation that it found.
    pub open spec fn next_validation(self, executing_idx: usize) -> Option<Task> {
        let txid = self.ctx.validation_idx;
        if !self.stopped() && self.ctx.can_validate(executing_idx) && self.awaits_validation(txid) {
            Some(
                Task::Validation(
                    TxVersion { txid, incarnation: self.states[txid as int].incarnation },
                ),
            )
        } else {
            None
        }
    }

    // Finality

    /// The first transaction that is not final has been validated.
    pub open spec fn finality_candidate(self) -> bool {
        &&& self.ctx.finality_idx < self.num_txs()
        &&& self.ctx.finality_idx < self.ctx.validation_idx
        &&& self.status(self.ctx.finality_idx) == TransactionStatus::Unconfirmed
    }

    /// The latest rollback to that transaction or to one before it.
    pub open spec fn finality_bound(self) -> usize {
        max(self.finality_ts, self.ctx.lower_ts[self.ctx.finality_idx as int])
    }

    /// The counters after that transaction became final.
    pub open spec fn finality_metrics(self) -> ExecuteMetricsCollector {
        let tx = self.states[self.ctx.finality_idx as int];
        let m = if tx.incarnation > 1 {
            ExecuteMetricsCollector { conflict_txs: succ(self.metrics.conflict_txs), ..self.metrics }
        } else {
            self.metrics
        };
        if tx.dependency is None {
            ExecuteMetricsCollector { no_dependency_txs: succ(m.no_dependency_txs), ..m }
        } else if tx.incarnation == 1 {
            ExecuteMetricsCollector {
                one_attempt_with_dependency: succ(m.one_attempt_with_dependency),
                ..m
            }
        } else if tx.incarnation > 2 {
            ExecuteMetricsCollector {
                more_attempts_with_dependency: succ(m.more_attempts_with_dependency),
                ..m
            }
        } else {
            m
        }
    }

    /// How far back that transaction's dependency lies.
    pub open spec fn finality_distance(self) -> Seq<usize> {
        match self.states[self.ctx.finality_idx as int].dependency {
            Some(id) => seq![(self.ctx.finality_idx - id) as usize],
            None => Seq::empty(),
        }
    }

    /// After that transaction became final.
    pub open spec fn finalized(self) -> Self {
        Model {
            finality_ts: self.finality_bound(),
            ..self.with_metrics(self.finality_metrics()).with_status(
                self.ctx.finality_idx,
                TransactionStatus::Finality,
            ).with_ctx(self.ctx.advance_finality())
        }
    }

    /// After every transaction in turn became final that could: one that was validated after every
    /// rollback to it or to a transaction before it. With it, the distances to record.
    pub open spec fn async_finality(self) -> (Self, Seq<usize>)
        decreases self.num_txs() - self.ctx.finality_idx,
    {
        if !self.finality_candidate() {
            (self, Seq::empty())
        } else if self.ctx.unconfirmed_ts[self.ctx.finality_idx as int] <= self.finality_bound() {
            (Model { finality_ts: self.finality_bound(), ..self }, Seq::empty())
        } else {
            let rest = self.finalized().async_finality();
            (rest.0, self.finality_distance() + rest.1)
        }
    }

    // Commit

    /// There is a final transaction that is not committed.
    pub open spec fn commit_pending(self) -> bool {
        self.ctx.commit_idx < self.ctx.finality_idx
    }

    /// After the first uncommitted transaction was handed to the committer.
    pub open spec fn commit_started(self) -> Self {
        Model {
            tx_results: self.tx_results.update(self.ctx.commit_idx as int, None),
            committing: true,
            ..self
        }
    }

    /// After a commit was timed.
    pub open spec fn commit_timed(self, nanos: usize) -> Self {
        self.with_metrics(
            ExecuteMetricsCollector {
                commit_time: wrapping_sum(self.metrics.commit_time, nanos),
                ..self.metrics
            },
        )
    }

    /// After the committer was done with it in `nanos` nanoseconds. A failed commit ends parallel
    /// execution.
    pub open spec fn commit_finished(self, ok: bool, nanos: usize) -> Self {
        if ok {
            Model {
                committing: false,
                ..self.commit_timed(nanos).with_ctx(self.ctx.advance_commit())
            }
        } else {
            self.commit_timed(nanos).abort(AbortReason::EvmError)
        }
    }

    // Whole blocks

    /// How the block is to be executed: sequentially where that is asked for or the block is
    /// small, else by as many workers as are asked for.
    pub open spec fn plan(
        self,
        requested: Option<usize>,
        configured: Option<Seq<char>>,
        default_level: usize,
        force_sequential: bool,
    ) -> ExecutionPlan {
        if force_sequential || self.num_txs() < MIN_PARALLEL_TXS {
            ExecutionPlan::Sequential
        } else {
            ExecutionPlan::Parallel(workers(requested, configured, default_level))
        }
    }

    /// After the transactions of the block were counted.
    pub open spec fn counted(self) -> Self {
        self.with_metrics(
            ExecuteMetricsCollector { total_tx_cnt: self.num_txs(), ..self.metrics },
        )
    }

    /// The sequential run that gives the results that are missing, none where none is.
    pub open spec fn sequential_run(self) -> Option<RunModel<X>> {
        if self.results.len() < self.num_txs() {
            Some(
                RunModel {
                    next: self.results.len() as TxId,
                    end: self.num_txs(),
                    results: Seq::empty(),
                },
            )
        } else {
            None
        }
    }

    /// Where parallel execution ended with an error of the virtual machine, the first transaction
    /// that is not final has failed.
    pub open spec fn abort_is_explained(self) -> bool {
        self.abort_reason == Some(AbortReason::EvmError) ==> {
            &&& self.ctx.finality_idx < self.num_txs()
            &&& self.tx_results[self.ctx.finality_idx as int] matches Some(result)
            &&& result.execute_result is Err
        }
    }
}

} // verus!
