//! What no step takes back.

use vstd::prelude::*;

use crate::consistency::{lemma_marked, lemma_memory_after};
use crate::detect_set::continuous_is_the_longest_prefix;
use crate::location::LocationKey;
use crate::memory::versions_at;
use crate::metrics::ExecuteMetricsCollector;
use crate::model::{wrote, Followup, Model, ResultModel};
use crate::types::{AbortReason, TransactionStatus, TxId, TxVersion};

verus! {

/// How the status of a transaction may change in one step.
pub open spec fn may_follow(from: TransactionStatus, to: TransactionStatus) -> bool {
    from == to || match from {
        TransactionStatus::Initial => to == TransactionStatus::Executing,
        TransactionStatus::Executing => to == TransactionStatus::Conflict || to
            == TransactionStatus::Executed || to == TransactionStatus::Validating,
        TransactionStatus::Executed => to == TransactionStatus::Validating,
        TransactionStatus::Validating => to == TransactionStatus::Unconfirmed || to
            == TransactionStatus::Conflict || to == TransactionStatus::Executed,
        TransactionStatus::Unconfirmed => to == TransactionStatus::Validating || to
            == TransactionStatus::Finality,
        TransactionStatus::Conflict => to == TransactionStatus::Executing,
        TransactionStatus::Finality => false,
    }
}

impl<S, X, O, E> Model<S, X, O, E> {
    /// From `self` to `after` every status changes as it may; incarnations, the cursors of
    /// finality and commit and the set of executed transactions only grow; a reason to give up
    /// stays; the final results grow at the end; and what is final does not change, nor does what
    /// it wrote.
    pub open spec fn moves_on(self, after: Self) -> bool {
        &&& after.num_txs() == self.num_txs()
        &&& after.state == self.state
        &&& forall|i: int|
            0 <= i < self.num_txs() ==> may_follow(
                self.states[i].status,
                (#[trigger] after.states[i]).status,
            ) && self.states[i].incarnation <= after.states[i].incarnation
        &&& forall|i: int|
            0 <= i < self.num_txs() && self.ctx.executed[i] ==> #[trigger] after.ctx.executed[i]
        &&& self.ctx.finality_idx <= after.ctx.finality_idx
        &&& self.ctx.commit_idx <= after.ctx.commit_idx
        &&& self.abort_reason is Some ==> after.abort_reason == self.abort_reason
        &&& self.results.is_prefix_of(after.results)
        &&& forall|i: int|
            0 <= i < self.ctx.finality_idx ==> #[trigger] after.states[i] == self.states[i]
        &&& forall|key: LocationKey, id: TxId|
            id < self.ctx.finality_idx ==> (#[trigger] wrote(after.memory, key, id) == wrote(
                self.memory,
                key,
                id,
            ))
        &&& forall|key: LocationKey, id: TxId|
            id < self.ctx.finality_idx && #[trigger] wrote(after.memory, key, id) ==> versions_at(
                after.memory,
                key,
            )[id] == versions_at(self.memory, key)[id]
    }
}

/// Handing a transaction out for execution moves on.
pub proof fn execution_task_moves_on<S, X, O, E>(m: Model<S, X, O, E>, txid: TxId)
    requires
        m.wf(),
        txid < m.num_txs(),
        m.runnable(txid) ==> m.states[txid as int].incarnation < usize::MAX,
    ensures
        m.moves_on(m.execution_task(txid)),
{
    assert(m.tx_wf(txid as int));
}

/// Setting out to execute a transaction moves on.
pub proof fn start_execute_moves_on<S, X, O, E>(m: Model<S, X, O, E>, txid: TxId)
    requires
        m.wf(),
        txid < m.num_txs(),
    ensures
        m.moves_on(m.start_execute(txid)),
{
}

/// An execution that the virtual machine completed moves on.
pub proof fn execute_ok_moves_on<S, X, O, E>(
    m: Model<S, X, O, E>,
    version: TxVersion,
    accurate: bool,
    blocked: bool,
    result: ResultModel<O, E>,
)
    requires
        m.wf(),
        version.txid < m.num_txs(),
        m.status(version.txid) == TransactionStatus::Executing,
    ensures
        m.moves_on(m.execute_ok(version, accurate, blocked, result)),
{
    lemma_memory_after(m, version, result.write_set, !accurate || blocked);
    assert(m.tx_wf(version.txid as int));
}

/// A failed execution moves on.
pub proof fn execute_err_moves_on<S, X, O, E>(
    m: Model<S, X, O, E>,
    version: TxVersion,
    commit_idx: TxId,
    error: E,
)
    requires
        m.wf(),
        version.txid < m.num_txs(),
        m.status(version.txid) == TransactionStatus::Executing,
    ensures
        m.moves_on(m.execute_err(version, commit_idx, error)),
{
    lemma_marked(m.memory, m.last_write_set(version.txid), version.txid);
    assert(m.tx_wf(version.txid as int));
}

/// Going on after an execution moves on.
pub proof fn after_execute_moves_on<S, X, O, E>(
    m: Model<S, X, O, E>,
    version: TxVersion,
    followup: Followup,
    next: Option<TxId>,
)
    requires
        m.wf(),
        version.txid < m.num_txs(),
        followup == Followup::Validate ==> m.status(version.txid) == TransactionStatus::Validating,
        next matches Some(id) ==> id < m.num_txs() && (m.runnable(id)
            ==> m.states[id as int].incarnation < usize::MAX),
    ensures
        m.moves_on(m.after_execute(version, followup, next)),
{
    assert(m.tx_wf(version.txid as int));
    if let Some(id) = next {
        assert(m.tx_wf(id as int));
    }
}

/// Validation moves on.
pub proof fn validate_moves_on<S, X, O, E>(m: Model<S, X, O, E>, txid: TxId)
    requires
        m.wf(),
        txid < m.num_txs(),
    ensures
        m.moves_on(m.validate(txid)),
{
    lemma_marked(m.memory, m.last_write_set(txid), txid);
    assert(m.tx_wf(txid as int));
}

/// Looking for something to validate moves on.
pub proof fn next_moves_on<S, X, O, E>(m: Model<S, X, O, E>, executing_idx: usize)
    requires
        m.wf(),
    ensures
        m.moves_on(m.next(executing_idx)),
{
    continuous_is_the_longest_prefix(m.ctx.executed);
    if m.ctx.can_validate(executing_idx) {
        assert(m.tx_wf(m.ctx.validation_idx as int));
    }
}

/// Finality moves on.
pub proof fn async_finality_moves_on<S, X, O, E>(m: Model<S, X, O, E>)
    requires
        m.wf(),
    ensures
        m.moves_on(m.async_finality().0),
        forall|i: int|
            0 <= i < m.num_txs() ==> (#[trigger] m.async_finality().0.states[i]).status
                == m.states[i].status || (m.states[i].status == TransactionStatus::Unconfirmed
                && m.async_finality().0.states[i].status == TransactionStatus::Finality),
    decreases m.num_txs() - m.ctx.finality_idx,
{
    if m.finality_candidate() && m.ctx.unconfirmed_ts[m.ctx.finality_idx as int]
        > m.finality_bound() {
        let n = m.finalized();
        let last = m.async_finality().0;
        crate::consistency::lemma_finalized_keeps_wf(m);
        async_finality_moves_on(n);
        assert forall|i: int| 0 <= i < m.num_txs() implies may_follow(
            m.states[i].status,
            (#[trigger] last.states[i]).status,
        ) && m.states[i].incarnation <= last.states[i].incarnation by {
            assert(n.states[i].status == n.states[i].status);
        }
        assert forall|i: int| 0 <= i < m.num_txs() && m.ctx.executed[i] implies #[trigger] last.ctx.executed[i] by {
            assert(n.ctx.executed[i]);
        }
        assert forall|i: int| 0 <= i < m.ctx.finality_idx implies #[trigger] last.states[i]
            == m.states[i] by {
            assert(n.states[i] == m.states[i]);
        }
    }
}

/// Handing a final transaction to the committer moves on.
pub proof fn commit_started_moves_on<S, X, O, E>(m: Model<S, X, O, E>)
    requires
        m.wf(),
    ensures
        m.moves_on(m.commit_started()),
{
}

/// Counting a final transaction as committed moves on.
pub proof fn commit_passed_moves_on<S, X, O, E>(m: Model<S, X, O, E>)
    requires
        m.wf(),
        m.commit_pending(),
    ensures
        m.moves_on(m.with_ctx(m.ctx.advance_commit())),
{
}

/// The end of a commit moves on.
pub proof fn commit_finished_moves_on<S, X, O, E>(m: Model<S, X, O, E>, ok: bool, nanos: usize)
    requires
        m.wf(),
        m.committing,
    ensures
        m.moves_on(m.commit_finished(ok, nanos)),
{
}

/// Giving parallel execution up moves on.
pub proof fn abort_moves_on<S, X, O, E>(m: Model<S, X, O, E>, reason: AbortReason)
    requires
        m.wf(),
    ensures
        m.moves_on(m.abort(reason)),
{
}

/// Taking results over at the end moves on.
pub proof fn results_move_on<S, X, O, E>(m: Model<S, X, O, E>, results: Seq<X>)
    requires
        m.wf(),
    ensures
        m.moves_on(Model { results: m.results + results, ..m }),
{
    assert(m.results.is_prefix_of(m.results + results));
}

/// Counting moves on.
pub proof fn metrics_move_on<S, X, O, E>(m: Model<S, X, O, E>, metrics: ExecuteMetricsCollector)
    requires
        m.wf(),
    ensures
        m.moves_on(m.with_metrics(metrics)),
{
}

} // verus!
