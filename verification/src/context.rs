//! The cursors and logical timestamps that order validation and finality.

use vstd::prelude::*;

use crate::counter::{bump, max, min, succ};
use crate::detect_set::{continuous, ContinuousDetectSet};

verus! {

/// What a [`SchedulerContext`] holds.
pub struct ContextModel {
    /// Number of transactions of the block.
    pub num_txs: usize,
    /// The next transaction to validate.
    pub validation_idx: usize,
    /// The first transaction that is not final.
    pub finality_idx: usize,
    /// The first transaction that is not committed.
    pub commit_idx: usize,
    /// Which transactions have been executed at least once.
    pub executed: Seq<bool>,
    /// How often the validation cursor was moved back.
    pub resets: usize,
    /// The next logical timestamp.
    pub logical_ts: usize,
    /// For each transaction the time of the last rollback of validation to it.
    pub lower_ts: Seq<usize>,
    /// For each transaction the time of its last successful validation.
    pub unconfirmed_ts: Seq<usize>,
}

impl ContextModel {
    /// The context of a block of `num_txs` transactions before anything has run.
    pub open spec fn initial(num_txs: usize) -> ContextModel {
        ContextModel {
            num_txs,
            validation_idx: 0,
            finality_idx: 0,
            commit_idx: 0,
            executed: Seq::new(num_txs as nat, |i: int| false),
            resets: 0,
            logical_ts: 1,
            lower_ts: Seq::new(num_txs as nat, |i: int| 0usize),
            unconfirmed_ts: Seq::new(num_txs as nat, |i: int| 0usize),
        }
    }

    /// There is one flag and one timestamp of each kind for each transaction, and the cursors are
    /// in order: what is committed is final, and only a gapless prefix of executed transactions is
    /// handed out for validation.
    pub open spec fn wf(self) -> bool {
        &&& self.executed.len() == self.num_txs
        &&& self.lower_ts.len() == self.num_txs
        &&& self.unconfirmed_ts.len() == self.num_txs
        &&& self.commit_idx <= self.finality_idx <= self.num_txs
        &&& self.validation_idx <= continuous(self.executed)
    }

    /// Time has begun, and every rollback lies before the next timestamp.
    pub open spec fn stamps_wf(self) -> bool {
        &&& 1 <= self.logical_ts
        &&& forall|j: int|
            0 <= j < self.lower_ts.len() ==> #[trigger] self.lower_ts[j] < self.logical_ts
    }

    /// `later` may come after this: the clock and the stamps of rollbacks have not gone back.
    pub open spec fn precedes(self, later: ContextModel) -> bool {
        &&& self.logical_ts <= later.logical_ts
        &&& self.lower_ts.len() == later.lower_ts.len()
        &&& forall|j: int|
            0 <= j < self.lower_ts.len() ==> self.lower_ts[j] <= #[trigger] later.lower_ts[j]
    }

    /// After a rollback of validation to `index`: a new timestamp bounds the validations of
    /// `index` and later from below, and the validation cursor stands at `index` or before.
    pub open spec fn reset_validation_idx(self, index: usize) -> ContextModel {
        if index < self.num_txs {
            ContextModel {
                logical_ts: succ(self.logical_ts),
                lower_ts: self.lower_ts.update(
                    index as int,
                    max(self.lower_ts[index as int], self.logical_ts),
                ),
                validation_idx: min(self.validation_idx, index),
                resets: if self.validation_idx > index {
                    succ(self.resets)
                } else {
                    self.resets
                },
                ..self
            }
        } else {
            self
        }
    }

    /// After a timestamp was drawn.
    pub open spec fn tick(self) -> ContextModel {
        ContextModel { logical_ts: succ(self.logical_ts), ..self }
    }

    /// After `index` was executed.
    pub open spec fn mark_executed(self, index: usize) -> ContextModel {
        ContextModel { executed: self.executed.update(index as int, true), ..self }
    }

    /// After `index` was validated at time `ts`.
    pub open spec fn mark_unconfirmed(self, index: usize, ts: usize) -> ContextModel {
        ContextModel {
            unconfirmed_ts: self.unconfirmed_ts.update(
                index as int,
                max(self.unconfirmed_ts[index as int], ts),
            ),
            ..self
        }
    }

    /// The validation cursor stands before the execution cursor and inside the executed prefix.
    pub open spec fn can_validate(self, executing_idx: usize) -> bool {
        self.validation_idx < executing_idx && self.validation_idx < continuous(self.executed)
    }

    /// After the transaction at the validation cursor was handed out.
    pub open spec fn advance_validation(self) -> ContextModel {
        ContextModel { validation_idx: (self.validation_idx + 1) as usize, ..self }
    }

    /// After the first transaction that was not final became final.
    pub open spec fn advance_finality(self) -> ContextModel {
        ContextModel { finality_idx: (self.finality_idx + 1) as usize, ..self }
    }

    /// After the first transaction that was not committed was committed.
    pub open spec fn advance_commit(self) -> ContextModel {
        ContextModel { commit_idx: (self.commit_idx + 1) as usize, ..self }
    }
}

/// The execution context of transaction scheduling. `validation_idx` is the validation cursor.
/// There is no execution cursor: the dependency graph drives execution, and the set of executed
/// transactions tells how far validation may go.
///
/// A transaction that was validated can be overtaken: an earlier one conflicts, runs again and is
/// validated again before the later one is looked at anew. Logical timestamps tell such stale
/// validations from current ones: a rollback stamps the transaction that it rolls back to, and a
/// validation counts only if it is later than every stamp up to its transaction.
pub struct SchedulerContext {
    num_txs: usize,
    validation_idx: usize,
    finality_idx: usize,
    commit_idx: usize,
    executed_set: ContinuousDetectSet,
    reset_validation_idx_cnt: usize,
    logical_ts: usize,
    lower_ts: Vec<usize>,
    unconfirmed_ts: Vec<usize>,
}

impl View for SchedulerContext {
    type V = ContextModel;

    closed spec fn view(&self) -> ContextModel {
        ContextModel {
            num_txs: self.num_txs,
            validation_idx: self.validation_idx,
            finality_idx: self.finality_idx,
            commit_idx: self.commit_idx,
            executed: self.executed_set@,
            resets: self.reset_validation_idx_cnt,
            logical_ts: self.logical_ts,
            lower_ts: self.lower_ts@,
            unconfirmed_ts: self.unconfirmed_ts@,
        }
    }
}

fn zeros(n: usize) -> (r: Vec<usize>)
    ensures
        r@ == Seq::new(n as nat, |i: int| 0usize),
{
    let mut r: Vec<usize> = Vec::new();
    for i in 0..n
        invariant
            r@ =~= Seq::new(i as nat, |j: int| 0usize),
    {
        r.push(0);
    }
    r
}

impl SchedulerContext {
    /// The context is consistent.
    pub closed spec fn wf(&self) -> bool {
        self.executed_set.wf() && self@.wf()
    }

    /// A consistent context has a consistent model.
    pub broadcast proof fn wf_of_model(&self)
        requires
            #[trigger] self.wf(),
        ensures
            self@.wf(),
    {
    }

    /// The context of a block of `num_txs` transactions before anything has run.
    pub fn new(num_txs: usize) -> (c: SchedulerContext)
        ensures
            c.wf(),
            c@ == ContextModel::initial(num_txs),
            c@.stamps_wf(),
    {
        let c = SchedulerContext {
            num_txs,
            validation_idx: 0,
            finality_idx: 0,
            commit_idx: 0,
            executed_set: ContinuousDetectSet::new(num_txs),
            reset_validation_idx_cnt: 0,
            logical_ts: 1,
            lower_ts: zeros(num_txs),
            unconfirmed_ts: zeros(num_txs),
        };
        proof {
            crate::detect_set::continuous_is_the_longest_prefix(c@.executed);
        }
        c
    }

    /// Rolls validation back to `index`. Transactions from `index` on must be validated later than
    /// this, so the current timestamp becomes their lower bound.
    pub fn reset_validation_idx(&mut self, index: usize)
        requires
            old(self).wf(),
        ensures
            final(self).wf(),
            final(self)@ == old(self)@.reset_validation_idx(index),
            old(self)@.stamps_wf() && old(self)@.logical_ts < usize::MAX
                ==> final(self)@.stamps_wf(),
    {
        if index < self.num_txs {
            let ts: usize = self.logical_ts;
            self.logical_ts = bump(ts);
            if self.lower_ts[index] < ts {
                self.lower_ts.set(index, ts);
            } else {
                proof {
                    assert(self.lower_ts@ =~= self.lower_ts@.update(
                        index as int,
                        self.lower_ts@[index as int],
                    ));
                }
            }
            let prev: usize = self.validation_idx;
            if index < prev {
                self.validation_idx = index;
                self.reset_validation_idx_cnt = bump(self.reset_validation_idx_cnt);
            }
        }
    }

    /// Draws a timestamp.
    pub fn logical_timestamp(&mut self) -> (ts: usize)
        requires
            old(self).wf(),
        ensures
            final(self).wf(),
            ts == old(self)@.logical_ts,
            final(self)@ == old(self)@.tick(),
            old(self)@.stamps_wf() && old(self)@.logical_ts < usize::MAX
                ==> final(self)@.stamps_wf(),
    {
        let ts: usize = self.logical_ts;
        self.logical_ts = bump(ts);
        ts
    }

    /// Notes that `index` has been executed.
    pub fn executed(&mut self, index: usize)
        requires
            old(self).wf(),
            index < old(self)@.num_txs,
        ensures
            final(self).wf(),
            final(self)@ == old(self)@.mark_executed(index),
    {
        proof {
            crate::detect_set::adding_extends_the_prefix(self.executed_set@, index as int);
        }
        self.executed_set.add(index);
    }

    /// Notes that `index` has been validated at time `ts`.
    pub fn unconfirmed(&mut self, index: usize, ts: usize)
        requires
            old(self).wf(),
            index < old(self)@.num_txs,
        ensures
            final(self).wf(),
            final(self)@ == old(self)@.mark_unconfirmed(index, ts),
    {
        if self.unconfirmed_ts[index] < ts {
            self.unconfirmed_ts.set(index, ts);
        } else {
            proof {
                assert(self.unconfirmed_ts@ =~= self.unconfirmed_ts@.update(
                    index as int,
                    self.unconfirmed_ts@[index as int],
                ));
            }
        }
    }

    /// Whether every transaction is final.
    pub fn finished(&self) -> (r: bool)
        ensures
            r == (self@.finality_idx >= self@.num_txs),
    {
        self.finality_idx >= self.num_txs
    }

    /// The first transaction that is not final.
    pub fn finality_idx(&self) -> (r: usize)
        ensures
            r == self@.finality_idx,
    {
        self.finality_idx
    }

    /// The validation cursor.
    pub fn validation_idx(&self) -> (r: usize)
        ensures
            r == self@.validation_idx,
    {
        self.validation_idx
    }

    /// The first transaction that is not committed.
    pub fn commit_idx(&self) -> (r: usize)
        ensures
            r == self@.commit_idx,
    {
        self.commit_idx
    }

    /// How far the executed transactions reach without a gap.
    pub fn execution_idx(&self) -> (r: usize)
        requires
            self.wf(),
        ensures
            r == continuous(self@.executed),
    {
        self.executed_set.continuous_idx()
    }

    /// How often the validation cursor was moved back.
    pub fn reset_validation_idx_cnt(&self) -> (r: usize)
        ensures
            r == self@.resets,
    {
        self.reset_validation_idx_cnt
    }

    /// Whether there may be something to validate or to execute.
    pub fn should_schedule(&self, executing_idx: usize) -> (r: bool)
        requires
            self.wf(),
        ensures
            r == (self@.can_validate(executing_idx) || executing_idx < self@.num_txs),
    {
        let validation_idx: usize = self.validation_idx;
        let should_validation = validation_idx < executing_idx && validation_idx
            < self.executed_set.continuous_idx();
        let should_execution = executing_idx < self.num_txs;
        should_validation || should_execution
    }

    /// Hands out the transaction at the validation cursor, if it may be validated.
    pub fn next_validation_idx(&mut self, executing_idx: usize) -> (r: Option<usize>)
        requires
            old(self).wf(),
        ensures
            final(self).wf(),
            old(self)@.can_validate(executing_idx) ==> {
                &&& r == Some(old(self)@.validation_idx)
                &&& old(self)@.validation_idx < old(self)@.num_txs
                &&& final(self)@ == old(self)@.advance_validation()
            },
            !old(self)@.can_validate(executing_idx) ==> r is None && final(self)@ == old(self)@,
    {
        let validation_idx: usize = self.validation_idx;
        if validation_idx < executing_idx && validation_idx < self.executed_set.continuous_idx() {
            proof {
                crate::detect_set::continuous_is_the_longest_prefix(self@.executed);
            }
            self.validation_idx = validation_idx + 1;
            Some(validation_idx)
        } else {
            None
        }
    }

    /// The time of the last rollback of validation to `index`.
    pub fn lower_ts(&self, index: usize) -> (r: usize)
        requires
            self.wf(),
            index < self@.num_txs,
        ensures
            r == self@.lower_ts[index as int],
    {
        self.lower_ts[index]
    }

    /// The time of the last successful validation of `index`.
    pub fn unconfirmed_ts(&self, index: usize) -> (r: usize)
        requires
            self.wf(),
            index < self@.num_txs,
        ensures
            r == self@.unconfirmed_ts[index as int],
    {
        self.unconfirmed_ts[index]
    }

    /// Makes the first transaction that is not final final.
    pub fn advance_finality(&mut self)
        requires
            old(self).wf(),
            old(self)@.finality_idx < old(self)@.num_txs,
        ensures
            final(self).wf(),
            final(self)@ == old(self)@.advance_finality(),
    {
        self.finality_idx = self.finality_idx + 1;
    }

    /// Makes the first transaction that is not committed committed.
    pub fn advance_commit(&mut self)
        requires
            old(self).wf(),
            old(self)@.commit_idx < old(self)@.finality_idx,
        ensures
            final(self).wf(),
            final(self)@ == old(self)@.advance_commit(),
    {
        self.commit_idx = self.commit_idx + 1;
    }
}

/// Before anything has run, every stamp lies before the clock.
pub proof fn initial_has_stamps_in_order(num_txs: usize)
    ensures
        ContextModel::initial(num_txs).stamps_wf(),
{
}

/// A rollback keeps every stamp before the clock, and takes neither back, while the clock does not
/// wrap around.
pub proof fn rollback_keeps_stamps_in_order(c: ContextModel, index: usize)
    requires
        c.wf(),
        c.stamps_wf(),
        c.logical_ts < usize::MAX,
    ensures
        c.reset_validation_idx(index).stamps_wf(),
        c.precedes(c.reset_validation_idx(index)),
{
}

/// So does drawing a timestamp.
pub proof fn tick_keeps_stamps_in_order(c: ContextModel)
    requires
        c.stamps_wf(),
        c.logical_ts < usize::MAX,
    ensures
        c.tick().stamps_wf(),
        c.precedes(c.tick()),
{
}

/// The other transitions leave the clock and the stamps alone.
pub proof fn other_transitions_keep_stamps_in_order(c: ContextModel, index: usize, ts: usize)
    requires
        c.stamps_wf(),
    ensures
        c.mark_executed(index).stamps_wf() && c.precedes(c.mark_executed(index)),
        c.mark_unconfirmed(index, ts).stamps_wf() && c.precedes(c.mark_unconfirmed(index, ts)),
        c.advance_validation().stamps_wf() && c.precedes(c.advance_validation()),
        c.advance_finality().stamps_wf() && c.precedes(c.advance_finality()),
        c.advance_commit().stamps_wf() && c.precedes(c.advance_commit()),
{
}

/// What may come after a state may come after every state before it.
pub proof fn precedes_is_transitive(a: ContextModel, b: ContextModel, c: ContextModel)
    requires
        a.precedes(b),
        b.precedes(c),
    ensures
        a.precedes(c),
{
    assert forall|j: int| 0 <= j < a.lower_ts.len() implies a.lower_ts[j]
        <= #[trigger] c.lower_ts[j] by {
        assert(a.lower_ts[j] <= b.lower_ts[j]);
    }
}

/// A timestamp that is drawn lies after every rollback before it and before every timestamp that
/// is drawn later.
pub proof fn draws_are_in_order(c: ContextModel, later: ContextModel, j: int)
    requires
        c.stamps_wf(),
        c.logical_ts < usize::MAX,
        c.tick().precedes(later),
        0 <= j < c.lower_ts.len(),
    ensures
        1 <= c.logical_ts < later.logical_ts,
        c.lower_ts[j] < c.logical_ts,
{
}

/// The stamp of a rollback lies after every timestamp that was drawn before it, in a state
/// `earlier`, and before every timestamp that is drawn after it, in a state `later`.
pub proof fn rollback_lies_between_draws(
    earlier: ContextModel,
    c: ContextModel,
    later: ContextModel,
    index: usize,
)
    requires
        c.wf(),
        c.stamps_wf(),
        c.logical_ts < usize::MAX,
        earlier.logical_ts < usize::MAX,
        earlier.tick().precedes(c),
        c.reset_validation_idx(index).precedes(later),
        index < c.num_txs,
    ensures
        c.reset_validation_idx(index).lower_ts[index as int] == c.logical_ts,
        earlier.logical_ts < c.reset_validation_idx(index).lower_ts[index as int],
        c.reset_validation_idx(index).lower_ts[index as int] < later.logical_ts,
        c.reset_validation_idx(index).lower_ts[index as int] <= later.lower_ts[index as int],
{
    assert(c.lower_ts[index as int] < c.logical_ts);
}

} // verus!
