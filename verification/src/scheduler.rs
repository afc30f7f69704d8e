//! The scheduler of one block: it hands out transactions for execution and validation, decides
//! what conflicts, and lets transactions become final and be committed in block order.

use vstd::prelude::*;

use crate::access::{ReadSet, WriteSet};
use crate::config::{concurrency_level, ExecutionPlan, MIN_PARALLEL_TXS};
use crate::context::SchedulerContext;
use crate::counter::{accumulate, bump, succ};
use crate::memory::{edited_at, MVMemory};
use crate::metrics::{ExecuteMetricsCollector, Metric};
use crate::model::{last_writer_from, Dispatch, Followup, Model, ResultModel};
use crate::sequential::SequentialRun;
use crate::types::{
    AbortReason, DependencyAction, GrevmError, MemoryEntry, Task, TransactionResult,
    TransactionStatus, TxId, TxState, TxVersion,
};
use crate::validation::{check_reads, find_writer_from};
use crate::versions::VersionEdit;

verus! {

/// The scheduler of one block. `S` is the world state that is carried along, `X` a transaction's
/// final result, `O` what a successful execution yields (result and state changes), `E` the error
/// of a failed one.
pub struct Scheduler<S, X, O, E> {
    block_size: usize,
    state: S,
    results: Vec<X>,
    tx_states: Vec<TxState>,
    tx_results: Vec<Option<TransactionResult<O, E>>>,
    mv_memory: MVMemory,
    scheduler_ctx: SchedulerContext,
    finality_ts: usize,
    committing: bool,
    abort_reason: Option<AbortReason>,
    metrics: ExecuteMetricsCollector,
}

/// What the virtual machine and its view of memory report of an execution that it completed.
pub struct Execution<O> {
    /// It did not read the miner's or a destructed account, or everything before it was committed.
    pub read_accurate_origin: bool,
    /// The transactions whose estimates it read.
    pub blocking_txs: Vec<TxId>,
    pub read_set: ReadSet,
    pub write_set: WriteSet,
    /// The result and the state changes.
    pub output: O,
}

impl<O> Execution<O> {
    /// What it leaves behind.
    pub open spec fn result<E>(self) -> ResultModel<O, E> {
        ResultModel {
            read_set: self.read_set@,
            write_set: self.write_set@,
            execute_result: Ok(self.output),
        }
    }
}

/// An execution that has been taken in.
#[derive(Clone, Copy, Debug)]
pub struct Executed {
    pub version: TxVersion,
    /// What to tell the dependency graph.
    pub dependency: DependencyAction,
    /// What to do once it has answered.
    pub followup: Followup,
}

/// What a worker that looks for work finds.
#[derive(Clone, Copy, Debug)]
pub enum NextStep {
    /// Nothing is left to do.
    Stop,
    /// There is a task to run.
    Run(Task),
    /// Ask the dependency graph for a transaction to execute. Where `idle`, nothing may be ready,
    /// so let other threads run first.
    Pull { idle: bool },
}

/// What the commit thread does next.
pub enum CommitStep<O> {
    /// Commit this output of this transaction.
    Apply(TxId, O),
    /// The transaction counts as committed: tell the dependency graph.
    Passed(DependencyAction),
}

/// What is left to do once all threads have ended.
pub enum PostExecute<E> {
    /// Nothing: the block has been executed.
    Done,
    /// Report this error.
    Failed(GrevmError<E>),
    /// Execute the rest of the block sequentially.
    Sequential,
}

/// What an execution left behind, with its sets by what they hold.
pub open spec fn result_model<O, E>(result: TransactionResult<O, E>) -> ResultModel<O, E> {
    ResultModel {
        read_set: result.read_set@,
        write_set: result.write_set@,
        execute_result: result.execute_result,
    }
}

/// The same of a transaction that may not have been executed.
pub open spec fn slot_model<O, E>(slot: Option<TransactionResult<O, E>>) -> Option<
    ResultModel<O, E>,
> {
    match slot {
        Some(result) => Some(result_model(result)),
        None => None,
    }
}

impl<S, X, O, E> View for Scheduler<S, X, O, E> {
    type V = Model<S, X, O, E>;

    closed spec fn view(&self) -> Model<S, X, O, E> {
        Model {
            ctx: self.scheduler_ctx@,
            states: self.tx_states@,
            tx_results: self.tx_results@.map_values(
                |slot: Option<TransactionResult<O, E>>| slot_model(slot),
            ),
            memory: self.mv_memory@,
            finality_ts: self.finality_ts,
            committing: self.committing,
            abort_reason: self.abort_reason,
            metrics: self.metrics,
            results: self.results@,
            state: self.state,
        }
    }
}

impl<S, X, O, E> Scheduler<S, X, O, E> {
    /// The scheduler is consistent.
    pub closed spec fn wf(&self) -> bool {
        &&& self.scheduler_ctx.wf()
        &&& self.block_size == self.scheduler_ctx@.num_txs
        &&& self@.wf()
    }

    /// A consistent scheduler has a consistent model.
    pub broadcast proof fn wf_of_model(&self)
        requires
            #[trigger] self.wf(),
        ensures
            self@.wf(),
    {
    }

    /// The scheduler of a block of `num_txs` transactions on top of `state`.
    pub fn new(num_txs: usize, state: S) -> (s: Self)
        ensures
            s.wf(),
            s@ == Model::<S, X, O, E>::initial(num_txs, state),
            s@.serializable(),
    {
        let mut tx_states: Vec<TxState> = Vec::new();
        let mut tx_results: Vec<Option<TransactionResult<O, E>>> = Vec::new();
        for i in 0..num_txs
            invariant
                tx_states@ =~= Seq::new(i as nat, |j: int| TxState::initial()),
                tx_results@ =~= Seq::new(i as nat, |j: int| None),
        {
            tx_states.push(TxState::default());
            tx_results.push(None);
        }
        let s = Scheduler {
            block_size: num_txs,
            state,
            results: Vec::new(),
            tx_states,
            tx_results,
            mv_memory: MVMemory::new(),
            scheduler_ctx: SchedulerContext::new(num_txs),
            finality_ts: 0,
            committing: false,
            abort_reason: None,
            metrics: ExecuteMetricsCollector::default(),
        };
        proof {
            crate::consistency::initial_is_wf::<S, X, O, E>(num_txs, state);
            crate::serial::initial_is_serializable::<S, X, O, E>(num_txs, state);
            assert(s@.tx_results =~= Model::<S, X, O, E>::initial(num_txs, state).tx_results);
            assert(s@.results =~= Seq::empty());
        }
        s
    }

    /// Hands the transaction out for execution, if it waits for that: in its next incarnation.
    /// Otherwise nobody needs to wait for it, and the dependency graph is to be told so.
    pub fn execution_task(&mut self, execute_id: TxId) -> (r: Dispatch)
        requires
            old(self).wf(),
            execute_id < old(self)@.num_txs(),
            old(self)@.runnable(execute_id) ==> old(self)@.states[execute_id as int].incarnation
                < usize::MAX,
        ensures
            final(self).wf(),
            final(self)@ == old(self)@.execution_task(execute_id),
            r == old(self)@.execution_dispatch(execute_id),
            old(self)@.serializable() ==> final(self)@.serializable(),
    {
        proof {
            crate::consistency::execution_task_keeps_wf(self@, execute_id);
            if self@.serializable() {
                crate::serial::execution_task_keeps_serializable(self@, execute_id);
            }
        }
        let tx: TxState = self.tx_states[execute_id];
        match tx.status {
            TransactionStatus::Initial | TransactionStatus::Conflict => {
                let incarnation: usize = tx.incarnation + 1;
                self.tx_states.set(
                    execute_id,
                    TxState {
                        status: TransactionStatus::Executing,
                        incarnation,
                        dependency: tx.dependency,
                    },
                );
                Dispatch::Run(Task::Execution(TxVersion { txid: execute_id, incarnation }))
            },
            _ => {
                self.metrics.useless_dependent_update = bump(self.metrics.useless_dependent_update);
                Dispatch::Dependency(DependencyAction::Remove(execute_id, false))
            },
        }
    }

    /// A worker sets out to execute the transaction, if it is to be executed. Returns the first
    /// uncommitted transaction at that time.
    pub fn start_execute(&mut self, version: TxVersion) -> (r: Option<TxId>)
        requires
            old(self).wf(),
            version.txid < old(self)@.num_txs(),
            old(self)@.status(version.txid) == TransactionStatus::Executing
                ==> old(self)@.states[version.txid as int].incarnation == version.incarnation,
        ensures
            final(self).wf(),
            final(self)@ == old(self)@.start_execute(version.txid),
            r == (if old(self)@.status(version.txid) == TransactionStatus::Executing {
                Some(old(self)@.ctx.commit_idx)
            } else {
                None
            }),
            old(self)@.serializable() ==> final(self)@.serializable(),
    {
        proof {
            crate::consistency::start_execute_keeps_wf(self@, version.txid);
            if self@.serializable() {
                crate::serial::start_execute_keeps_serializable(self@, version.txid);
            }
        }
        if self.tx_states[version.txid].status != TransactionStatus::Executing {
            return None;
        }
        self.metrics.execution_cnt = bump(self.metrics.execution_cnt);
        Some(self.scheduler_ctx.commit_idx())
    }

    /// The last writer, among the transactions that are not final, of what `txid` read.
    pub fn generate_dependent_tx(&self, txid: TxId, read_set: &ReadSet) -> (r: Option<TxId>)
        ensures
            r == last_writer_from(self@.memory, read_set@, txid, self@.ctx.finality_idx),
    {
        find_writer_from(&self.mv_memory, read_set, txid, self.scheduler_ctx.finality_idx())
    }

    /// Takes in an execution that the virtual machine completed.
    fn execute_ok(&mut self, version: TxVersion, execution: Execution<O>) -> (r: Executed)
        requires
            old(self).wf(),
            version.txid < old(self)@.num_txs(),
            old(self)@.status(version.txid) == TransactionStatus::Executing,
            old(self)@.states[version.txid as int].incarnation == version.incarnation,
        ensures
            final(self).wf(),
            final(self)@ == old(self)@.execute_ok(
                version,
                execution.read_accurate_origin,
                execution.blocking_txs@.len() > 0,
                execution.result::<E>(),
            ),
            r.version == version,
            r.dependency == old(self)@.execute_ok_dependency(
                version,
                execution.read_accurate_origin,
                execution.blocking_txs@.len() > 0,
                execution.result::<E>(),
            ),
            r.followup == old(self)@.followup(
                version.txid,
                execution.write_set@,
                !execution.read_accurate_origin || execution.blocking_txs@.len() > 0,
            ),
    {
        let txid: TxId = version.txid;
        let accurate = execution.read_accurate_origin;
        let blocked = execution.blocking_txs.len() > 0;
        let conflict = !accurate || blocked;
        let ghost before = self@;
        proof {
            crate::consistency::execute_ok_keeps_wf(
                self@,
                version,
                accurate,
                blocked,
                execution.result::<E>(),
            );
        }
        self.mv_memory.publish(
            &execution.write_set,
            txid,
            MemoryEntry { incarnation: version.incarnation, estimate: conflict },
        );
        // Where the transaction wrote no location that it did not write before, the transactions
        // after it need not be validated again.
        let write_new_locations = match &self.tx_results[txid] {
            Some(last) => {
                self.mv_memory.retire(txid, &last.write_set, &execution.write_set);
                !execution.write_set.is_subset_of(&last.write_set)
            },
            None => true,
        };
        let dependency = if conflict {
            self.metrics.conflict_cnt = bump(self.metrics.conflict_cnt);
            if !accurate {
                self.metrics.conflict_by_miner = bump(self.metrics.conflict_by_miner);
                DependencyAction::KeyTx(txid)
            } else {
                self.metrics.conflict_by_estimate = bump(self.metrics.conflict_by_estimate);
                DependencyAction::Add(txid, self.generate_dependent_tx(txid, &execution.read_set))
            }
        } else {
            DependencyAction::Remove(txid, true)
        };
        self.tx_results.set(
            txid,
            Some(
                TransactionResult {
                    read_set: execution.read_set,
                    write_set: execution.write_set,
                    execute_result: Ok(execution.output),
                },
            ),
        );
        self.scheduler_ctx.executed(txid);
        let tx: TxState = self.tx_states[txid];
        let (status, followup) = if conflict {
            self.scheduler_ctx.reset_validation_idx(txid + 1);
            (TransactionStatus::Conflict, Followup::Rerun)
        } else if write_new_locations {
            self.scheduler_ctx.reset_validation_idx(txid);
            (TransactionStatus::Executed, Followup::Revalidate)
        } else {
            (TransactionStatus::Validating, Followup::Validate)
        };
        self.tx_states.set(
            txid,
            TxState { status, incarnation: tx.incarnation, dependency: tx.dependency },
        );
        proof {
            assert(self@.tx_results =~= before.execute_ok(
                version,
                accurate,
                blocked,
                execution.result::<E>(),
            ).tx_results);
        }
        Executed { version, dependency, followup }
    }

    /// Takes in an execution that failed.
    fn execute_err(&mut self, version: TxVersion, commit_idx: TxId, error: E) -> (r: Executed)
        requires
            old(self).wf(),
            version.txid < old(self)@.num_txs(),
            old(self)@.status(version.txid) == TransactionStatus::Executing,
        ensures
            final(self).wf(),
            final(self)@ == old(self)@.execute_err(version, commit_idx, error),
            r.version == version,
            r.dependency == DependencyAction::KeyTx(version.txid),
            r.followup == Followup::Rerun,
    {
        let txid: TxId = version.txid;
        let ghost before = self@;
        self.metrics.conflict_cnt = bump(self.metrics.conflict_cnt);
        self.metrics.conflict_by_error = bump(self.metrics.conflict_by_error);
        let write_set = match self.tx_results[txid].take() {
            Some(last) => {
                self.mv_memory.mark_estimate(txid, &last.write_set);
                last.write_set
            },
            None => {
                proof {
                    assert(edited_at(
                        before.memory,
                        Set::empty(),
                        VersionEdit::MarkEstimate(txid),
                    ) =~= before.memory);
                }
                WriteSet::new()
            },
        };
        self.tx_results.set(
            txid,
            Some(
                TransactionResult {
                    read_set: ReadSet::new(),
                    write_set,
                    execute_result: Err(error),
                },
            ),
        );
        self.scheduler_ctx.executed(txid);
        self.scheduler_ctx.reset_validation_idx(txid + 1);
        let tx: TxState = self.tx_states[txid];
        self.tx_states.set(
            txid,
            TxState {
                status: TransactionStatus::Conflict,
                incarnation: tx.incarnation,
                dependency: tx.dependency,
            },
        );
        proof {
            let earlier: TxId = if txid == 0 {
                1
            } else {
                0
            };
            crate::consistency::execute_err_keeps_wf(before, version, earlier, error);
            assert(self@.tx_results =~= before.execute_err(version, earlier, error).tx_results);
            assert(self@ == before.execute_err(version, earlier, error));
        }
        if commit_idx == txid {
            self.abort(AbortReason::EvmError);
        }
        Executed {
            version,
            dependency: DependencyAction::KeyTx(txid),
            followup: Followup::Rerun,
        }
    }

    /// Takes in the outcome of an execution that started when `commit_idx` was the first
    /// uncommitted transaction. The transaction conflicts where the virtual machine failed, where
    /// it read an estimate, or where it read the miner's or a destructed account too early.
    pub fn execute(
        &mut self,
        version: TxVersion,
        commit_idx: TxId,
        outcome: Result<Execution<O>, E>,
    ) -> (r: Executed)
        requires
            old(self).wf(),
            version.txid < old(self)@.num_txs(),
            old(self)@.status(version.txid) == TransactionStatus::Executing,
            old(self)@.states[version.txid as int].incarnation == version.incarnation,
        ensures
            final(self).wf(),
            r.version == version,
            outcome matches Ok(execution) ==> {
                let accurate = execution.read_accurate_origin;
                let blocked = execution.blocking_txs@.len() > 0;
                let result = execution.result::<E>();
                &&& final(self)@ == old(self)@.execute_ok(version, accurate, blocked, result)
                &&& r.dependency == old(self)@.execute_ok_dependency(
                    version,
                    accurate,
                    blocked,
                    result,
                )
                &&& r.followup == old(self)@.followup(
                    version.txid,
                    execution.write_set@,
                    !accurate || blocked,
                )
            },
            outcome matches Err(error) ==> {
                &&& final(self)@ == old(self)@.execute_err(version, commit_idx, error)
                &&& r.dependency == DependencyAction::KeyTx(version.txid)
                &&& r.followup == Followup::Rerun
            },
            old(self)@.serializable() && old(self)@.clock_has_room()
                ==> final(self)@.serializable(),
    {
        let ghost before = self@;
        match outcome {
            Ok(execution) => {
                proof {
                    if before.serializable() && before.clock_has_room() {
                        crate::serial::execute_ok_keeps_serializable(
                            before,
                            version,
                            execution.read_accurate_origin,
                            execution.blocking_txs@.len() > 0,
                            execution.result::<E>(),
                        );
                    }
                }
                self.execute_ok(version, execution)
            },
            Err(error) => {
                proof {
                    if before.serializable() && before.clock_has_room() {
                        crate::serial::execute_err_keeps_serializable(
                            before,
                            version,
                            commit_idx,
                            error,
                        );
                    }
                }
                self.execute_err(version, commit_idx, error)
            },
        }
    }

    /// Goes on after an execution, once the dependency graph has answered. Where it handed back
    /// the next transaction, the worker executes that one right away; otherwise the worker
    /// validates the transaction itself if that is all that is due.
    pub fn after_execute(&mut self, executed: Executed, next: Option<TxId>) -> (r: Dispatch)
        requires
            old(self).wf(),
            executed.version.txid < old(self)@.num_txs(),
            executed.followup == Followup::Validate ==> old(self)@.status(executed.version.txid)
                == TransactionStatus::Validating,
            next matches Some(id) ==> id < old(self)@.num_txs() && (old(self)@.runnable(id)
                ==> old(self)@.states[id as int].incarnation < usize::MAX),
        ensures
            final(self).wf(),
            final(self)@ == old(self)@.after_execute(executed.version, executed.followup, next),
            r == old(self)@.after_execute_dispatch(executed.version, executed.followup, next),
            old(self)@.serializable() && old(self)@.clock_has_room()
                ==> final(self)@.serializable(),
    {
        proof {
            if self@.serializable() && self@.clock_has_room() {
                crate::serial::after_execute_keeps_serializable(
                    self@,
                    executed.version,
                    executed.followup,
                    next,
                );
            }
        }
        let txid: TxId = executed.version.txid;
        match executed.followup {
            Followup::Rerun => Dispatch::Idle,
            Followup::Revalidate => match next {
                Some(next) => self.execution_task(next),
                None => Dispatch::Idle,
            },
            Followup::Validate => match next {
                Some(next) => {
                    proof {
                        crate::consistency::lemma_put_back_keeps_wf(self@, txid);
                    }
                    let tx: TxState = self.tx_states[txid];
                    self.tx_states.set(
                        txid,
                        TxState {
                            status: TransactionStatus::Executed,
                            incarnation: tx.incarnation,
                            dependency: tx.dependency,
                        },
                    );
                    self.scheduler_ctx.reset_validation_idx(txid);
                    self.execution_task(next)
                },
                None => Dispatch::Run(Task::Validation(executed.version)),
            },
        }
    }

    /// Validates the transaction, if it is to be validated: holds every version that it read
    /// against memory. Returns what to tell the dependency graph.
    pub fn validate(&mut self, version: TxVersion) -> (r: Option<DependencyAction>)
        requires
            old(self).wf(),
            version.txid < old(self)@.num_txs(),
            old(self)@.status(version.txid) == TransactionStatus::Validating
                ==> old(self)@.states[version.txid as int].incarnation == version.incarnation,
        ensures
            final(self).wf(),
            final(self)@ == old(self)@.validate(version.txid),
            r == old(self)@.validate_dependency(version.txid),
            old(self)@.serializable() && old(self)@.clock_has_room()
                ==> final(self)@.serializable(),
    {
        let txid: TxId = version.txid;
        proof {
            crate::consistency::validate_keeps_wf(self@, txid);
            if self@.serializable() && self@.clock_has_room() {
                crate::serial::validate_keeps_serializable(self@, txid);
            }
            assert(self@.tx_wf(txid as int));
        }
        let tx: TxState = self.tx_states[txid];
        if tx.status != TransactionStatus::Validating {
            return None;
        }
        self.metrics.validation_cnt = bump(self.metrics.validation_cnt);
        let ts: usize = self.scheduler_ctx.logical_timestamp();
        let (conflict, dependency) = match &self.tx_results[txid] {
            Some(result) => {
                let checked = check_reads(&self.mv_memory, &result.read_set, txid);
                if checked.0 {
                    self.mv_memory.mark_estimate(txid, &result.write_set);
                }
                checked
            },
            None => (false, None),
        };
        if conflict {
            self.metrics.conflict_cnt = bump(self.metrics.conflict_cnt);
            self.metrics.conflict_by_version = bump(self.metrics.conflict_by_version);
            self.scheduler_ctx.reset_validation_idx(txid + 1);
            self.tx_states.set(
                txid,
                TxState {
                    status: TransactionStatus::Conflict,
                    incarnation: tx.incarnation,
                    dependency,
                },
            );
            let dep_tx = match dependency {
                Some(dep) => if dep >= self.scheduler_ctx.finality_idx() {
                    Some(dep)
                } else {
                    None
                },
                None => None,
            };
            Some(DependencyAction::Add(txid, dep_tx))
        } else {
            self.scheduler_ctx.unconfirmed(txid, ts);
            self.tx_states.set(
                txid,
                TxState {
                    status: TransactionStatus::Unconfirmed,
                    incarnation: tx.incarnation,
                    dependency,
                },
            );
            None
        }
    }

    /// A worker looks for work while the dependency graph has handed out what is before
    /// `executing_idx`: for a validation first, then for an execution.
    pub fn next(&mut self, executing_idx: usize) -> (r: NextStep)
        requires
            old(self).wf(),
        ensures
            final(self).wf(),
            final(self)@ == old(self)@.next(executing_idx),
            old(self)@.stopped() <==> r is Stop,
            r matches NextStep::Run(task) ==> old(self)@.next_validation(executing_idx) == Some(
                task,
            ),
            r matches NextStep::Pull { idle } ==> old(self)@.next_validation(executing_idx) is None
                && idle == !(old(self)@.ctx.can_validate(executing_idx) || executing_idx
                < old(self)@.num_txs()),
            old(self)@.serializable() ==> final(self)@.serializable(),
    {
        proof {
            crate::consistency::next_keeps_wf(self@, executing_idx);
            if self@.serializable() {
                crate::serial::next_keeps_serializable(self@, executing_idx);
            }
        }
        if self.scheduler_ctx.finished() || self.abort_reason.is_some() {
            return NextStep::Stop;
        }
        let idle = !self.scheduler_ctx.should_schedule(executing_idx);
        if let Some(validation_idx) = self.scheduler_ctx.next_validation_idx(executing_idx) {
            let tx: TxState = self.tx_states[validation_idx];
            match tx.status {
                TransactionStatus::Executed | TransactionStatus::Unconfirmed => {
                    self.tx_states.set(
                        validation_idx,
                        TxState {
                            status: TransactionStatus::Validating,
                            incarnation: tx.incarnation,
                            dependency: tx.dependency,
                        },
                    );
                    return NextStep::Run(
                        Task::Validation(
                            TxVersion { txid: validation_idx, incarnation: tx.incarnation },
                        ),
                    );
                },
                _ => {},
            }
        }
        NextStep::Pull { idle }
    }

    /// Lets transactions become final, in block order, as long as the next one can. Returns how
    /// far back the dependencies of those that have one lie.
    pub fn async_finality(&mut self) -> (r: Vec<usize>)
        requires
            old(self).wf(),
        ensures
            final(self).wf(),
            final(self)@ == old(self)@.async_finality().0,
            r@ == old(self)@.async_finality().1,
            old(self)@.serializable() ==> final(self)@.serializable(),
    {
        let mut distances: Vec<usize> = Vec::new();
        let ghost before = self@;
        proof {
            crate::consistency::async_finality_keeps_wf(self@);
            if self@.serializable() {
                crate::serial::async_finality_keeps_serializable(self@);
            }
        }
        while self.scheduler_ctx.finality_idx() < self.block_size
            && self.scheduler_ctx.finality_idx() < self.scheduler_ctx.validation_idx()
            invariant_except_break
                self.wf(),
                before.async_finality().0 == self@.async_finality().0,
                before.async_finality().1 =~= distances@ + self@.async_finality().1,
            ensures
                self.wf(),
                self@ == before.async_finality().0,
                distances@ =~= before.async_finality().1,
            decreases self.block_size - self@.ctx.finality_idx,
        {
            let finality_idx: TxId = self.scheduler_ctx.finality_idx();
            let tx: TxState = self.tx_states[finality_idx];
            proof {
                assert(self@.tx_wf(finality_idx as int));
            }
            if tx.status != TransactionStatus::Unconfirmed {
                break;
            }
            let ghost here = self@;
            let lower_ts: usize = self.scheduler_ctx.lower_ts(finality_idx);
            if self.finality_ts < lower_ts {
                self.finality_ts = lower_ts;
            }
            if self.scheduler_ctx.unconfirmed_ts(finality_idx) <= self.finality_ts {
                proof {
                    crate::consistency::async_finality_keeps_wf(here);
                }
                break;
            }
            self.tx_states.set(
                finality_idx,
                TxState {
                    status: TransactionStatus::Finality,
                    incarnation: tx.incarnation,
                    dependency: tx.dependency,
                },
            );
            self.scheduler_ctx.advance_finality();
            if tx.incarnation > 1 {
                self.metrics.conflict_txs = bump(self.metrics.conflict_txs);
            }
            if let Some(dep_id) = tx.dependency {
                distances.push(finality_idx - dep_id);
                if tx.incarnation == 1 {
                    self.metrics.one_attempt_with_dependency = bump(
                        self.metrics.one_attempt_with_dependency,
                    );
                } else if tx.incarnation > 2 {
                    self.metrics.more_attempts_with_dependency = bump(
                        self.metrics.more_attempts_with_dependency,
                    );
                }
            } else {
                self.metrics.no_dependency_txs = bump(self.metrics.no_dependency_txs);
            }
            proof {
                assert(self@ == here.finalized());
                crate::consistency::lemma_finalized_keeps_wf(here);
            }
        }
        distances
    }

    /// Takes the first uncommitted transaction, if it is final: hands its output out to be
    /// committed, or counts it as committed where outputs are not committed one by one.
    pub fn async_commit(&mut self, async_commit_state: bool) -> (r: Option<CommitStep<O>>)
        requires
            old(self).wf(),
            !old(self)@.committing,
        ensures
            final(self).wf(),
            !old(self)@.commit_pending() ==> r is None && final(self)@ == old(self)@,
            old(self)@.commit_pending() && async_commit_state ==> {
                let txid = old(self)@.ctx.commit_idx;
                &&& old(self)@.tx_results[txid as int] matches Some(result)
                &&& result.execute_result matches Ok(output)
                &&& r == Some(CommitStep::Apply(txid, output))
                &&& final(self)@ == old(self)@.commit_started()
            },
            old(self)@.commit_pending() && !async_commit_state ==> {
                &&& r == Some(
                    CommitStep::<O>::Passed(DependencyAction::Commit(old(self)@.ctx.commit_idx)),
                )
                &&& final(self)@ == old(self)@.with_ctx(old(self)@.ctx.advance_commit())
            },
            old(self)@.serializable() ==> final(self)@.serializable(),
    {
        let commit_idx: TxId = self.scheduler_ctx.commit_idx();
        if commit_idx >= self.scheduler_ctx.finality_idx() {
            return None;
        }
        let ghost before = self@;
        proof {
            assert(before.tx_wf(commit_idx as int));
            crate::consistency::commit_started_keeps_wf(before);
            crate::consistency::commit_skipped_keeps_wf(before);
            if before.serializable() {
                crate::serial::commit_started_keeps_serializable(before);
                crate::serial::commit_skipped_keeps_serializable(before);
            }
        }
        if !async_commit_state {
            self.scheduler_ctx.advance_commit();
            return Some(CommitStep::Passed(DependencyAction::Commit(commit_idx)));
        }
        let slot = self.tx_results[commit_idx].take();
        self.committing = true;
        proof {
            assert(self@.tx_results =~= before.commit_started().tx_results);
        }
        match slot {
            Some(result) => match result.execute_result {
                Ok(output) => Some(CommitStep::Apply(commit_idx, output)),
                Err(_) => None,
            },
            None => None,
        }
    }

    /// The committer is done with the transaction that it was handed. A failed commit ends
    /// parallel execution; otherwise the dependency graph is to be told.
    pub fn commit_finished(&mut self, ok: bool, nanos: usize) -> (r: Option<DependencyAction>)
        requires
            old(self).wf(),
            old(self)@.committing,
        ensures
            final(self).wf(),
            final(self)@ == old(self)@.commit_finished(ok, nanos),
            r == (if ok {
                Some(DependencyAction::Commit(old(self)@.ctx.commit_idx))
            } else {
                None
            }),
            old(self)@.serializable() ==> final(self)@.serializable(),
    {
        let ghost before = self@;
        proof {
            crate::consistency::commit_finished_keeps_wf(before, ok, nanos);
            crate::consistency::commit_timed_keeps_wf(before, nanos);
            if before.serializable() {
                crate::serial::commit_finished_keeps_serializable(before, ok, nanos);
            }
        }
        let commit_idx: TxId = self.scheduler_ctx.commit_idx();
        self.metrics.commit_time = accumulate(self.metrics.commit_time, nanos);
        if ok {
            self.scheduler_ctx.advance_commit();
            self.committing = false;
            Some(DependencyAction::Commit(commit_idx))
        } else {
            self.abort(AbortReason::EvmError);
            None
        }
    }

    /// Gives parallel execution up. The first reason stays.
    pub fn abort(&mut self, abort_reason: AbortReason)
        requires
            old(self).wf(),
        ensures
            final(self).wf(),
            final(self)@ == old(self)@.abort(abort_reason),
            old(self)@.serializable() ==> final(self)@.serializable(),
    {
        proof {
            crate::consistency::abort_keeps_wf(self@, abort_reason);
            if self@.serializable() {
                crate::serial::abort_keeps_serializable(self@, abort_reason);
            }
        }
        if self.abort_reason.is_none() {
            self.abort_reason = Some(abort_reason);
        }
    }

    /// Decides how the block is executed. `force_sequential` and `default_level` are the
    /// process-wide settings, `configured` is what the environment says of the number of workers.
    pub fn parallel_execute(
        &mut self,
        requested: Option<usize>,
        configured: Option<&str>,
        default_level: usize,
        force_sequential: bool,
    ) -> (r: ExecutionPlan)
        requires
            old(self).wf(),
        ensures
            final(self).wf(),
            final(self)@ == old(self)@.counted(),
            r == old(self)@.plan(
                requested,
                match configured {
                    Some(text) => Some(text@),
                    None => None,
                },
                default_level,
                force_sequential,
            ),
            old(self)@.serializable() ==> final(self)@.serializable(),
    {
        let ghost before = self@;
        self.metrics.total_tx_cnt = self.block_size;
        proof {
            self.metrics_keep_wf(before);
        }
        let level: usize = concurrency_level(requested, configured, default_level);
        if force_sequential || self.block_size < MIN_PARALLEL_TXS {
            ExecutionPlan::Sequential
        } else {
            ExecutionPlan::Parallel(level)
        }
    }

    /// Counters and results do not matter for consistency.
    proof fn metrics_keep_wf(&self, before: Model<S, X, O, E>)
        requires
            self.scheduler_ctx.wf(),
            self.block_size == self.scheduler_ctx@.num_txs,
            before.wf(),
            self@.ctx == before.ctx,
            self@.states == before.states,
            self@.tx_results == before.tx_results,
            self@.memory == before.memory,
            self@.finality_ts == before.finality_ts,
            self@.committing == before.committing,
        ensures
            self.wf(),
            before.serializable() ==> self@.serializable(),
    {
        crate::consistency::lemma_same_parts(before, self@);
        if before.serializable() {
            crate::serial::lemma_quiet_step(before, self@);
        }
    }

    /// Takes over what the committer did: its results, or its error.
    pub fn join(&mut self, committed: Result<Vec<X>, GrevmError<E>>) -> (r: Result<
        (),
        GrevmError<E>,
    >)
        requires
            old(self).wf(),
        ensures
            final(self).wf(),
            match committed {
                Ok(results) => r is Ok && final(self)@ == (Model {
                    results: old(self)@.results + results@,
                    ..old(self)@
                }),
                Err(error) => r == Err::<(), GrevmError<E>>(error) && final(self)@ == old(self)@,
            },
            old(self)@.serializable() ==> final(self)@.serializable(),
    {
        match committed {
            Ok(results) => {
                let ghost before = self@;
                let mut results = results;
                self.results.append(&mut results);
                proof {
                    self.metrics_keep_wf(before);
                }
                Ok(())
            },
            Err(error) => Err(error),
        }
    }

    /// Where parallel execution ended with an error of the virtual machine, that error is the one
    /// of the first transaction that is not final.
    pub fn abort_is_explained(&self) -> (r: bool)
        requires
            self.wf(),
        ensures
            r == self@.abort_is_explained(),
    {
        match self.abort_reason {
            Some(AbortReason::EvmError) => {
                let txid: TxId = self.scheduler_ctx.finality_idx();
                if txid >= self.block_size {
                    return false;
                }
                match &self.tx_results[txid] {
                    Some(result) => match &result.execute_result {
                        Ok(_) => false,
                        Err(_) => true,
                    },
                    None => false,
                }
            },
            _ => true,
        }
    }

    /// Decides what is left to do once all threads have ended and what was committed has been
    /// taken over. Sequential execution goes on with the first transaction that is not committed.
    pub fn post_execute(&self) -> (r: PostExecute<E>) where E: Clone
        requires
            self.wf(),
            self@.abort_is_explained(),
        ensures
            match self@.abort_reason {
                None => r is Done,
                Some(AbortReason::EvmError) => {
                    &&& r matches PostExecute::Failed(failure)
                    &&& failure.txid == self@.ctx.finality_idx
                    &&& self@.tx_results[failure.txid as int] matches Some(result)
                    &&& result.execute_result matches Err(error)
                    &&& cloned(error, failure.error)
                },
                Some(_) => r is Sequential,
            },
    {
        match self.abort_reason {
            None => PostExecute::Done,
            Some(AbortReason::EvmError) => {
                let txid: TxId = self.scheduler_ctx.finality_idx();
                match &self.tx_results[txid] {
                    Some(result) => match &result.execute_result {
                        Ok(_) => PostExecute::Done,
                        Err(e) => PostExecute::Failed(GrevmError { txid, error: e.clone() }),
                    },
                    None => PostExecute::Done,
                }
            },
            Some(_) => PostExecute::Sequential,
        }
    }

    /// Starts sequential execution after the results that there are, unless there are all.
    pub fn fallback_sequential(&self) -> (r: Option<SequentialRun<X>>)
        requires
            self.wf(),
            self@.results.len() <= self@.num_txs(),
        ensures
            match r {
                Some(run) => self@.sequential_run() == Some(run@) && run@.wf(),
                None => self@.sequential_run() is None,
            },
    {
        let num_commit: usize = self.results.len();
        if num_commit == self.block_size {
            return None;
        }
        Some(SequentialRun::new(num_commit, self.block_size))
    }

    /// A transaction has been executed sequentially.
    pub fn sequential_executed(&mut self, run: &mut SequentialRun<X>, result: X)
        requires
            old(self).wf(),
            old(run)@.wf(),
            old(run)@.next < old(run)@.end,
        ensures
            final(self).wf(),
            final(run)@.wf(),
            final(run)@ == old(run)@.executed(result),
            final(self)@ == old(self)@.with_metrics(
                (ExecuteMetricsCollector {
                    execution_cnt: succ(old(self)@.metrics.execution_cnt),
                    ..old(self)@.metrics
                }),
            ),
            old(self)@.serializable() ==> final(self)@.serializable(),
    {
        let ghost before = self@;
        run.executed(result);
        self.metrics.execution_cnt = bump(self.metrics.execution_cnt);
        proof {
            self.metrics_keep_wf(before);
        }
    }

    /// Sequential execution has come to the end of the block.
    pub fn sequential_finished(&mut self, run: SequentialRun<X>)
        requires
            old(self).wf(),
            run@.next == run@.end,
        ensures
            final(self).wf(),
            final(self)@ == (Model {
                results: old(self)@.results + run@.results,
                ..old(self)@
            }),
            old(self)@.serializable() ==> final(self)@.serializable(),
    {
        let ghost before = self@;
        let mut results = run.into_results();
        self.results.append(&mut results);
        proof {
            self.metrics_keep_wf(before);
        }
    }

    /// Notes how long it took until every transaction was final.
    pub fn set_execution_time(&mut self, nanos: usize)
        requires
            old(self).wf(),
        ensures
            final(self).wf(),
            final(self)@ == old(self)@.with_metrics(
                (ExecuteMetricsCollector { execution_time: nanos, ..old(self)@.metrics }),
            ),
            old(self)@.serializable() ==> final(self)@.serializable(),
    {
        let ghost before = self@;
        self.metrics.execution_time = nanos;
        proof {
            self.metrics_keep_wf(before);
        }
    }

    /// Closes the counters of a parallel execution that took `nanos` nanoseconds in all, and
    /// returns the samples to record.
    pub fn report(&mut self, nanos: usize) -> (r: Vec<(Metric, usize)>)
        requires
            old(self).wf(),
        ensures
            final(self).wf(),
            final(self)@ == old(self)@.with_metrics(
                (ExecuteMetricsCollector {
                    reset_validation_idx_cnt: old(self)@.ctx.resets,
                    total_time: nanos,
                    ..old(self)@.metrics
                }),
            ),
            r@ == final(self)@.metrics.counts() + final(self)@.metrics.times(),
            old(self)@.serializable() ==> final(self)@.serializable(),
    {
        let ghost before = self@;
        self.metrics.reset_validation_idx_cnt = self.scheduler_ctx.reset_validation_idx_cnt();
        self.metrics.total_time = nanos;
        proof {
            self.metrics_keep_wf(before);
        }
        self.metrics.report()
    }

    /// The final results and the world state.
    pub fn take_result_and_state(self) -> (r: (Vec<X>, S))
        ensures
            r.0@ == self@.results,
            r.1 == self@.state,
    {
        (self.results, self.state)
    }

    /// Where the transaction stands.
    pub fn tx_state(&self, txid: TxId) -> (r: TxState)
        requires
            self.wf(),
            txid < self@.num_txs(),
        ensures
            r == self@.states[txid as int],
    {
        self.tx_states[txid]
    }

    /// The number of transactions of the block.
    pub fn block_size(&self) -> (r: usize)
        requires
            self.wf(),
        ensures
            r == self@.num_txs(),
    {
        self.block_size
    }

    /// How many final results there are.
    pub fn num_results(&self) -> (r: usize)
        ensures
            r == self@.results.len(),
    {
        self.results.len()
    }

    /// Whether parallel execution has been given up.
    pub fn aborted(&self) -> (r: bool)
        ensures
            r == self@.abort_reason is Some,
    {
        self.abort_reason.is_some()
    }

    /// Whether the finality thread goes on.
    pub fn finality_running(&self) -> (r: bool)
        requires
            self.wf(),
        ensures
            r == !self@.stopped(),
    {
        !self.aborted() && !self.scheduler_ctx.finished()
    }

    /// Whether the commit thread goes on.
    pub fn commit_running(&self) -> (r: bool)
        requires
            self.wf(),
        ensures
            r == (self@.abort_reason is None && self@.ctx.commit_idx < self@.num_txs()),
    {
        !self.aborted() && self.scheduler_ctx.commit_idx() < self.block_size
    }

    /// The cursors and timestamps.
    pub fn context(&self) -> (r: &SchedulerContext)
        requires
            self.wf(),
        ensures
            r.wf(),
            r@ == self@.ctx,
    {
        &self.scheduler_ctx
    }

    /// Multi-version memory, for executions to read.
    pub fn memory(&self) -> (r: &MVMemory)
        ensures
            r@ == self@.memory,
    {
        &self.mv_memory
    }
}

} // verus!
