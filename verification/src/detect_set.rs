//! A set of transactions that knows how far it reaches without a gap.

use vstd::prelude::*;

verus! {

/// The first index from `from` on whose flag is not set, or the number of flags.
pub open spec fn first_gap(flags: Seq<bool>, from: int) -> int
    decreases flags.len() - from,
{
    if 0 <= from < flags.len() && flags[from] {
        first_gap(flags, from + 1)
    } else {
        from
    }
}

/// How many indices are in the set before the first one that is not.
pub open spec fn continuous(flags: Seq<bool>) -> int {
    first_gap(flags, 0)
}

/// Skipping flags that are set does not change the first gap.
proof fn lemma_first_gap_from(flags: Seq<bool>, from: int, to: int)
    requires
        0 <= from <= to <= flags.len(),
        forall|i: int| from <= i < to ==> #[trigger] flags[i],
    ensures
        first_gap(flags, from) == first_gap(flags, to),
    decreases to - from,
{
    if from < to {
        assert(flags[from]);
        lemma_first_gap_from(flags, from + 1, to);
    }
}

/// Everything before the first gap is in the set, and the gap is not.
pub proof fn lemma_first_gap(flags: Seq<bool>, from: int)
    requires
        0 <= from <= flags.len(),
    ensures
        from <= first_gap(flags, from) <= flags.len(),
        forall|i: int| from <= i < first_gap(flags, from) ==> #[trigger] flags[i],
        first_gap(flags, from) < flags.len() ==> !flags[first_gap(flags, from)],
    decreases flags.len() - from,
{
    if from < flags.len() && flags[from] {
        lemma_first_gap(flags, from + 1);
    }
}

/// `continuous_idx` is the end of the longest prefix of indices that are all in the set.
pub proof fn continuous_is_the_longest_prefix(flags: Seq<bool>)
    ensures
        0 <= continuous(flags) <= flags.len(),
        forall|i: int| 0 <= i < continuous(flags) ==> #[trigger] flags[i],
        continuous(flags) < flags.len() ==> !flags[continuous(flags)],
{
    lemma_first_gap(flags, 0);
}

/// Adding an index never moves the end of the prefix back.
pub proof fn adding_extends_the_prefix(flags: Seq<bool>, index: int)
    requires
        0 <= index < flags.len(),
    ensures
        continuous(flags) <= continuous(flags.update(index, true)),
{
    let more = flags.update(index, true);
    lemma_first_gap(flags, 0);
    lemma_first_gap_from(more, 0, continuous(flags));
    lemma_first_gap(more, continuous(flags));
}

/// Transactions of a block that have been executed at least once.
pub struct ContinuousDetectSet {
    index_flag: Vec<bool>,
    continuous_idx: usize,
}

impl View for ContinuousDetectSet {
    type V = Seq<bool>;

    closed spec fn view(&self) -> Seq<bool> {
        self.index_flag@
    }
}

impl ContinuousDetectSet {
    /// The stored index is the end of the longest prefix.
    pub closed spec fn wf(&self) -> bool {
        self.continuous_idx == continuous(self.index_flag@)
    }

    /// The empty set of indices below `num_flag`.
    pub fn new(num_flag: usize) -> (s: ContinuousDetectSet)
        ensures
            s.wf(),
            s@ == Seq::new(num_flag as nat, |i: int| false),
    {
        let mut index_flag: Vec<bool> = Vec::new();
        for i in 0..num_flag
            invariant
                index_flag@ =~= Seq::new(i as nat, |j: int| false),
        {
            index_flag.push(false);
        }
        ContinuousDetectSet { index_flag, continuous_idx: 0 }
    }

    /// The end of the longest prefix of indices that are all in the set.
    pub fn continuous_idx(&self) -> (r: usize)
        requires
            self.wf(),
        ensures
            r == continuous(self@),
    {
        self.continuous_idx
    }

    /// Adds an index.
    pub fn add(&mut self, index: usize)
        requires
            old(self).wf(),
            index < old(self)@.len(),
        ensures
            final(self).wf(),
            final(self)@ == old(self)@.update(index as int, true),
    {
        if !self.index_flag[index] {
            let ghost before = self.index_flag@;
            self.index_flag.set(index, true);
            let ghost flags = self.index_flag@;
            let mut end: usize = self.continuous_idx;
            proof {
                lemma_first_gap(before, 0);
                lemma_first_gap_from(flags, 0, end as int);
            }
            while end < self.index_flag.len() && self.index_flag[end]
                invariant
                    self.index_flag@ == flags,
                    end <= flags.len(),
                    first_gap(flags, end as int) == continuous(flags),
                decreases flags.len() - end,
            {
                end = end + 1;
            }
            self.continuous_idx = end;
        } else {
            proof {
                assert(self.index_flag@ =~= self.index_flag@.update(index as int, true));
            }
        }
    }
}

} // verus!
