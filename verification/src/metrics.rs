//! Counters of one run, and what is reported of them.

use vstd::prelude::*;

use crate::counter::wrapping_sum;

verus! {

/// The measurements that are reported.
#[derive(Clone, Copy, Debug, PartialEq, Eq, Structural)]
pub enum Metric {
    /// Total number of transactions.
    TotalTxCnt,
    /// Number of conflict incarnations.
    ConflictCnt,
    /// Number of validation incarnations.
    ValidationCnt,
    /// Number of execution incarnations.
    ExecutionCnt,
    /// Number of validation resets.
    ResetValidationIdxCnt,
    /// Number of useless dependency updates.
    UselessDependentUpdate,
    /// Number of conflicts by miner and self-destructed accounts.
    ConflictByMiner,
    /// Number of conflicts by an error of the virtual machine.
    ConflictByError,
    /// Number of conflicts by an estimate.
    ConflictByEstimate,
    /// Number of conflicts by version.
    ConflictByVersion,
    /// Number of transactions with a dependency that took one attempt.
    OneAttemptWithDependency,
    /// Number of transactions with a dependency that took more than two attempts.
    MoreAttemptsWithDependency,
    /// Number of transactions without a dependency.
    NoDependencyTxs,
    /// Number of transactions that took more than one attempt.
    ConflictTxs,
    /// Execution time in nanoseconds.
    ExecutionTime,
    /// Commit time in nanoseconds.
    CommitTime,
    /// Total time in nanoseconds.
    TotalTime,
}

/// The counters of one run.
#[derive(Clone, Copy, Debug, PartialEq, Eq, Structural)]
pub struct ExecuteMetricsCollector {
    pub total_tx_cnt: usize,
    pub conflict_cnt: usize,
    pub validation_cnt: usize,
    pub execution_cnt: usize,
    pub reset_validation_idx_cnt: usize,
    pub useless_dependent_update: usize,
    pub conflict_by_miner: usize,
    pub conflict_by_error: usize,
    pub conflict_by_estimate: usize,
    pub conflict_by_version: usize,
    pub one_attempt_with_dependency: usize,
    pub more_attempts_with_dependency: usize,
    pub no_dependency_txs: usize,
    pub conflict_txs: usize,
    pub execution_time: usize,
    pub commit_time: usize,
    pub total_time: usize,
}

impl ExecuteMetricsCollector {
    /// All counters at zero.
    pub open spec fn zero() -> ExecuteMetricsCollector {
        ExecuteMetricsCollector {
            total_tx_cnt: 0,
            conflict_cnt: 0,
            validation_cnt: 0,
            execution_cnt: 0,
            reset_validation_idx_cnt: 0,
            useless_dependent_update: 0,
            conflict_by_miner: 0,
            conflict_by_error: 0,
            conflict_by_estimate: 0,
            conflict_by_version: 0,
            one_attempt_with_dependency: 0,
            more_attempts_with_dependency: 0,
            no_dependency_txs: 0,
            conflict_txs: 0,
            execution_time: 0,
            commit_time: 0,
            total_time: 0,
        }
    }

    /// Every conflict is counted once, under its cause.
    pub open spec fn conflicts_add_up(self) -> bool {
        self.conflict_cnt == wrapping_sum(
            wrapping_sum(self.conflict_by_miner, self.conflict_by_error),
            wrapping_sum(self.conflict_by_estimate, self.conflict_by_version),
        )
    }

    /// The same conflicts have been counted.
    pub open spec fn same_conflicts(self, other: ExecuteMetricsCollector) -> bool {
        &&& self.conflict_cnt == other.conflict_cnt
        &&& self.conflict_by_miner == other.conflict_by_miner
        &&& self.conflict_by_error == other.conflict_by_error
        &&& self.conflict_by_estimate == other.conflict_by_estimate
        &&& self.conflict_by_version == other.conflict_by_version
    }

    /// The samples of the counters that stand before the times.
    pub open spec fn counts(self) -> Seq<(Metric, usize)> {
        seq![
            (Metric::TotalTxCnt, self.total_tx_cnt),
            (Metric::ConflictCnt, self.conflict_cnt),
            (Metric::ValidationCnt, self.validation_cnt),
            (Metric::ExecutionCnt, self.execution_cnt),
            (Metric::ResetValidationIdxCnt, self.reset_validation_idx_cnt),
            (Metric::UselessDependentUpdate, self.useless_dependent_update),
            (Metric::ConflictByMiner, self.conflict_by_miner),
            (Metric::ConflictByError, self.conflict_by_error),
            (Metric::ConflictByEstimate, self.conflict_by_estimate),
            (Metric::ConflictByVersion, self.conflict_by_version),
            (Metric::OneAttemptWithDependency, self.one_attempt_with_dependency),
            (Metric::MoreAttemptsWithDependency, self.more_attempts_with_dependency),
            (Metric::NoDependencyTxs, self.no_dependency_txs),
            (Metric::ConflictTxs, self.conflict_txs),
        ]
    }

    /// The samples of the times. An execution time of zero was never measured and is left out.
    pub open spec fn times(self) -> Seq<(Metric, usize)> {
        if self.execution_time > 0 {
            seq![
                (Metric::ExecutionTime, self.execution_time),
                (Metric::CommitTime, self.commit_time),
                (Metric::TotalTime, self.total_time),
            ]
        } else {
            seq![(Metric::CommitTime, self.commit_time), (Metric::TotalTime, self.total_time)]
        }
    }

    /// The samples to record, in the order in which they are recorded.
    pub fn report(&self) -> (r: Vec<(Metric, usize)>)
        ensures
            r@ == self.counts() + self.times(),
    {
        let mut r: Vec<(Metric, usize)> = vec![
            (Metric::TotalTxCnt, self.total_tx_cnt),
            (Metric::ConflictCnt, self.conflict_cnt),
            (Metric::ValidationCnt, self.validation_cnt),
            (Metric::ExecutionCnt, self.execution_cnt),
            (Metric::ResetValidationIdxCnt, self.reset_validation_idx_cnt),
            (Metric::UselessDependentUpdate, self.useless_dependent_update),
            (Metric::ConflictByMiner, self.conflict_by_miner),
            (Metric::ConflictByError, self.conflict_by_error),
            (Metric::ConflictByEstimate, self.conflict_by_estimate),
            (Metric::ConflictByVersion, self.conflict_by_version),
            (Metric::OneAttemptWithDependency, self.one_attempt_with_dependency),
            (Metric::MoreAttemptsWithDependency, self.more_attempts_with_dependency),
            (Metric::NoDependencyTxs, self.no_dependency_txs),
            (Metric::ConflictTxs, self.conflict_txs),
        ];
        if self.execution_time > 0 {
            r.push((Metric::ExecutionTime, self.execution_time));
        }
        r.push((Metric::CommitTime, self.commit_time));
        r.push((Metric::TotalTime, self.total_time));
        proof {
            assert(r@ =~= self.counts() + self.times());
        }
        r
    }
}

impl Default for ExecuteMetricsCollector {
    fn default() -> (r: ExecuteMetricsCollector)
        ensures
            r == ExecuteMetricsCollector::zero(),
    {
        ExecuteMetricsCollector {
            total_tx_cnt: 0,
            conflict_cnt: 0,
            validation_cnt: 0,
            execution_cnt: 0,
            reset_validation_idx_cnt: 0,
            useless_dependent_update: 0,
            conflict_by_miner: 0,
            conflict_by_error: 0,
            conflict_by_estimate: 0,
            conflict_by_version: 0,
            one_attempt_with_dependency: 0,
            more_attempts_with_dependency: 0,
            no_dependency_txs: 0,
            conflict_txs: 0,
            execution_time: 0,
            commit_time: 0,
            total_time: 0,
        }
    }
}

} // verus!
