//! Sequential execution of the part of a block that is not committed.

use vstd::prelude::*;

use crate::types::{GrevmError, TxId};

verus! {

/// A sequential execution in progress: what is before `next` has been executed.
pub struct SequentialRun<X> {
    next: TxId,
    end: TxId,
    results: Vec<X>,
}

/// What a [`SequentialRun`] holds.
pub struct RunModel<X> {
    /// The transaction to execute now.
    pub next: TxId,
    /// The number of transactions of the block.
    pub end: TxId,
    /// The results of this run, in block order.
    pub results: Seq<X>,
}

impl<X> RunModel<X> {
    /// The run has not gone past the end of the block, and it has no more results than there are
    /// transactions before `next`.
    pub open spec fn wf(self) -> bool {
        self.results.len() <= self.next <= self.end
    }

    /// The first transaction of the run.
    pub open spec fn start(self) -> int {
        self.next - self.results.len()
    }

    /// After `next` was executed.
    pub open spec fn executed(self, result: X) -> Self {
        RunModel { next: (self.next + 1) as TxId, results: self.results.push(result), ..self }
    }

    /// After `next` and the transactions after it were executed with these results.
    pub open spec fn executed_all(self, results: Seq<X>) -> Self
        decreases results.len(),
    {
        if results.len() == 0 {
            self
        } else {
            self.executed_all(results.drop_last()).executed(results.last())
        }
    }
}

impl<X> View for SequentialRun<X> {
    type V = RunModel<X>;

    closed spec fn view(&self) -> RunModel<X> {
        RunModel { next: self.next, end: self.end, results: self.results@ }
    }
}

impl<X> SequentialRun<X> {
    /// A run from `start` to the end of a block of `end` transactions.
    pub fn new(start: TxId, end: TxId) -> (r: Self)
        requires
            start <= end,
        ensures
            r@.wf(),
            r@ == (RunModel { next: start, end, results: Seq::<X>::empty() }),
    {
        let r = SequentialRun { next: start, end, results: Vec::new() };
        proof {
            assert(r@.results =~= Seq::<X>::empty());
        }
        r
    }

    /// The transaction to execute now, none at the end of the block.
    pub fn next_tx(&self) -> (r: Option<TxId>)
        ensures
            r == (if self@.next < self@.end {
                Some(self@.next)
            } else {
                None
            }),
    {
        if self.next < self.end {
            Some(self.next)
        } else {
            None
        }
    }

    /// That transaction has been executed.
    pub fn executed(&mut self, result: X)
        requires
            old(self)@.wf(),
            old(self)@.next < old(self)@.end,
        ensures
            final(self)@.wf(),
            final(self)@ == old(self)@.executed(result),
    {
        self.results.push(result);
        self.next = self.next + 1;
    }

    /// That transaction has failed: the error of the block. The results of the run are lost.
    pub fn fail<E>(self, error: E) -> (r: GrevmError<E>)
        ensures
            r.txid == self@.next,
            r.error == error,
    {
        GrevmError { txid: self.next, error }
    }

    /// The results of the run.
    pub fn into_results(self) -> (r: Vec<X>)
        ensures
            r@ == self@.results,
    {
        self.results
    }
}

} // verus!
