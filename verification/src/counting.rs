//! What the counters tell of a run.

use vstd::prelude::*;

use crate::counter::succ;
use crate::metrics::ExecuteMetricsCollector;
use crate::model::{Followup, Model, ResultModel};
use crate::types::{AbortReason, TransactionStatus, TxId, TxVersion};

verus! {

/// Before anything has run, nothing has been counted, so that conflicts add up.
pub proof fn initial_conflicts_add_up<S, X, O, E>(num_txs: usize, state: S)
    ensures
        Model::<S, X, O, E>::initial(num_txs, state).metrics.conflicts_add_up(),
{
}

/// A worker that sets out to execute counts an execution exactly where the transaction is to be
/// executed.
pub proof fn executions_are_counted<S, X, O, E>(m: Model<S, X, O, E>, txid: TxId)
    ensures
        m.start_execute(txid).metrics == (ExecuteMetricsCollector {
            execution_cnt: if m.status(txid) == TransactionStatus::Executing {
                succ(m.metrics.execution_cnt)
            } else {
                m.metrics.execution_cnt
            },
            ..m.metrics
        }),
{
}

/// An execution that the virtual machine completed is counted as a conflict exactly where it ends
/// in one, once and under one cause: the miner's or a destructed account wherever it was read too
/// early, also where an estimate was read, and the estimate otherwise.
pub proof fn execute_ok_counts_conflicts<S, X, O, E>(
    m: Model<S, X, O, E>,
    version: TxVersion,
    accurate: bool,
    blocked: bool,
    result: ResultModel<O, E>,
)
    requires
        m.wf(),
        version.txid < m.num_txs(),
    ensures
        ({
            let n = m.execute_ok(version, accurate, blocked, result);
            let conflict = n.status(version.txid) == TransactionStatus::Conflict;
            &&& conflict == (!accurate || blocked)
            &&& m.metrics.conflicts_add_up() ==> n.metrics.conflicts_add_up()
            &&& n.metrics == (ExecuteMetricsCollector {
                conflict_cnt: if conflict {
                    succ(m.metrics.conflict_cnt)
                } else {
                    m.metrics.conflict_cnt
                },
                conflict_by_miner: if !accurate {
                    succ(m.metrics.conflict_by_miner)
                } else {
                    m.metrics.conflict_by_miner
                },
                conflict_by_estimate: if accurate && blocked {
                    succ(m.metrics.conflict_by_estimate)
                } else {
                    m.metrics.conflict_by_estimate
                },
                ..m.metrics
            })
        }),
{
}

/// A failed execution is counted as a conflict, under its cause.
pub proof fn execute_err_counts_conflicts<S, X, O, E>(
    m: Model<S, X, O, E>,
    version: TxVersion,
    commit_idx: TxId,
    error: E,
)
    requires
        m.wf(),
        version.txid < m.num_txs(),
    ensures
        ({
            let n = m.execute_err(version, commit_idx, error);
            &&& n.status(version.txid) == TransactionStatus::Conflict
            &&& m.metrics.conflicts_add_up() ==> n.metrics.conflicts_add_up()
            &&& n.metrics == (ExecuteMetricsCollector {
                conflict_cnt: succ(m.metrics.conflict_cnt),
                conflict_by_error: succ(m.metrics.conflict_by_error),
                ..m.metrics
            })
        }),
{
}

/// A validation is counted where it takes place, and as a conflict exactly where it ends in one.
pub proof fn validate_counts_conflicts<S, X, O, E>(m: Model<S, X, O, E>, txid: TxId)
    requires
        m.wf(),
        txid < m.num_txs(),
    ensures
        ({
            let n = m.validate(txid);
            let validating = m.status(txid) == TransactionStatus::Validating;
            let conflict = validating && n.status(txid) == TransactionStatus::Conflict;
            &&& m.metrics.conflicts_add_up() ==> n.metrics.conflicts_add_up()
            &&& n.metrics == (ExecuteMetricsCollector {
                validation_cnt: if validating {
                    succ(m.metrics.validation_cnt)
                } else {
                    m.metrics.validation_cnt
                },
                conflict_cnt: if conflict {
                    succ(m.metrics.conflict_cnt)
                } else {
                    m.metrics.conflict_cnt
                },
                conflict_by_version: if conflict {
                    succ(m.metrics.conflict_by_version)
                } else {
                    m.metrics.conflict_by_version
                },
                ..m.metrics
            })
        }),
{
}

/// No other step counts a conflict.
pub proof fn other_steps_count_no_conflict<S, X, O, E>(
    m: Model<S, X, O, E>,
    version: TxVersion,
    followup: Followup,
    next: Option<TxId>,
    executing_idx: usize,
    ok: bool,
    nanos: usize,
    reason: AbortReason,
)
    ensures
        m.execution_task(version.txid).metrics.same_conflicts(m.metrics),
        m.start_execute(version.txid).metrics.same_conflicts(m.metrics),
        m.after_execute(version, followup, next).metrics.same_conflicts(m.metrics),
        m.next(executing_idx).metrics.same_conflicts(m.metrics),
        m.async_finality().0.metrics.same_conflicts(m.metrics),
        m.commit_started().metrics.same_conflicts(m.metrics),
        m.commit_finished(ok, nanos).metrics.same_conflicts(m.metrics),
        m.abort(reason).metrics.same_conflicts(m.metrics),
        m.counted().metrics.same_conflicts(m.metrics),
{
    lemma_finality_counts_no_conflict(m);
}

proof fn lemma_finality_counts_no_conflict<S, X, O, E>(m: Model<S, X, O, E>)
    ensures
        m.async_finality().0.metrics.same_conflicts(m.metrics),
    decreases m.num_txs() - m.ctx.finality_idx,
{
    if m.finality_candidate() && m.ctx.unconfirmed_ts[m.ctx.finality_idx as int]
        > m.finality_bound() {
        lemma_finality_counts_no_conflict(m.finalized());
    }
}

} // verus!
