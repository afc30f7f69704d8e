//! Why executing the block in parallel gives what executing it sequentially gives.
//!
//! The scheduler knows versions, not values. Here a transaction is a function from the value at
//! every location to the values that it writes, `values` tells what each incarnation wrote, and
//! `base` is the world state before the block.

use vstd::prelude::*;

use crate::collections::{Memory, Reads};
use crate::consistency::lemma_latest_write;
use crate::location::LocationKey;
use crate::memory::{latest_write, versions_at};
use crate::model::{read_is_current, reads_are_current, wrote, Model, ResultModel};
use crate::serial::lemma_latest_frame;
use crate::types::{MemoryEntry, ReadVersion, TxId, TxVersion};

verus! {

/// The world state after the first `n` transactions ran one after the other.
pub open spec fn sequential_state<V>(
    base: spec_fn(LocationKey) -> V,
    run: spec_fn(TxId, spec_fn(LocationKey) -> V) -> Map<LocationKey, V>,
    n: nat,
) -> spec_fn(LocationKey) -> V
    decreases n,
{
    if n == 0 {
        base
    } else {
        let before = sequential_state(base, run, (n - 1) as nat);
        let writes = run((n - 1) as TxId, before);
        |key: LocationKey|
            if writes.contains_key(key) {
                writes[key]
            } else {
                before(key)
            }
    }
}

/// The value of one version of a location.
pub open spec fn value_of<V>(
    base: spec_fn(LocationKey) -> V,
    values: spec_fn(TxVersion, LocationKey) -> V,
    key: LocationKey,
    version: ReadVersion,
) -> V {
    match version {
        ReadVersion::MvMemory(version) => values(version, key),
        ReadVersion::Storage => base(key),
    }
}

/// The value that memory gives to transaction `txid` at a location.
pub open spec fn value_before<V>(
    memory: Memory,
    base: spec_fn(LocationKey) -> V,
    values: spec_fn(TxVersion, LocationKey) -> V,
    txid: TxId,
    key: LocationKey,
) -> V {
    match latest_write(memory, key, txid) {
        Some((writer, entry)) => values(
            TxVersion { txid: writer, incarnation: entry.incarnation },
            key,
        ),
        None => base(key),
    }
}

/// `lookup` gives the values that the execution saw, at every location that it read.
pub open spec fn agrees<V, O, E>(
    base: spec_fn(LocationKey) -> V,
    values: spec_fn(TxVersion, LocationKey) -> V,
    result: ResultModel<O, E>,
    lookup: spec_fn(LocationKey) -> V,
) -> bool {
    forall|key: LocationKey| #[trigger]
        result.read_set.contains_key(key) ==> lookup(key) == value_of(
            base,
            values,
            key,
            result.read_set[key],
        )
}

/// The transaction wrote exactly what the incarnation is known to have written.
pub open spec fn writes_match<V>(
    writes: Map<LocationKey, V>,
    write_set: Set<LocationKey>,
    values: spec_fn(TxVersion, LocationKey) -> V,
    version: TxVersion,
) -> bool {
    &&& writes.dom() =~= write_set
    &&& forall|key: LocationKey| #[trigger]
        writes.contains_key(key) ==> writes[key] == values(version, key)
}

/// The execution ran the transaction: wherever the transaction sees the values that the execution
/// saw, it writes what the execution wrote. In other words, the read set is complete.
pub open spec fn is_run_of<V, O, E>(
    run: spec_fn(TxId, spec_fn(LocationKey) -> V) -> Map<LocationKey, V>,
    base: spec_fn(LocationKey) -> V,
    values: spec_fn(TxVersion, LocationKey) -> V,
    version: TxVersion,
    result: ResultModel<O, E>,
) -> bool {
    forall|lookup: spec_fn(LocationKey) -> V| #[trigger]
        agrees(base, values, result, lookup) ==> writes_match(
            run(version.txid, lookup),
            result.write_set,
            values,
            version,
        )
}

impl<S, X, O, E> Model<S, X, O, E> {
    /// The last incarnation of a transaction.
    pub open spec fn last_version(self, i: int) -> TxVersion {
        TxVersion { txid: i as TxId, incarnation: self.states[i].incarnation }
    }

    /// Memory bears the execution of transaction `i` out: what it read is current, and what it
    /// wrote is in force, in the last incarnation, and nothing else of it is.
    pub open spec fn bears_out(self, i: int, result: ResultModel<O, E>) -> bool {
        &&& reads_are_current(self.memory, result.read_set, i as TxId)
        &&& forall|key: LocationKey| #[trigger]
            wrote(self.memory, key, i as TxId) == result.write_set.contains(key)
        &&& forall|key: LocationKey| #[trigger]
            wrote(self.memory, key, i as TxId) ==> versions_at(self.memory, key)[i as TxId] == (
            MemoryEntry { incarnation: self.states[i].incarnation, estimate: false })
    }
}

/// Memory bears out the execution of every transaction that is final and not handed over.
pub proof fn final_executions_are_borne_out<S, X, O, E>(m: Model<S, X, O, E>, i: int)
    requires
        m.wf(),
        m.serializable(),
        0 <= i < m.ctx.finality_idx,
        m.tx_results[i] is Some,
    ensures
        m.bears_out(i, m.tx_results[i]->0),
{
    let id = i as TxId;
    let result = m.tx_results[i]->0;
    assert(m.tx_serial(i));
    assert(m.tx_wf(i));
    assert forall|key: LocationKey| #[trigger]
        wrote(m.memory, key, id) == result.write_set.contains(key) by {
        assert(m.last_write_set(id) == result.write_set);
        if wrote(m.memory, key, id) {
            assert(m.entry_wf(key, id));
        }
    }
    assert forall|key: LocationKey| #[trigger] wrote(m.memory, key, id) implies versions_at(
        m.memory,
        key,
    )[id] == (MemoryEntry { incarnation: m.states[i].incarnation, estimate: false }) by {
        assert(m.entry_wf(key, id));
    }
}

/// What a transaction reads does not change once everything before it is final.
pub proof fn reads_past_finality_stay_current<S, X, O, E>(
    m: Model<S, X, O, E>,
    after: Model<S, X, O, E>,
    reads: Reads,
    txid: TxId,
)
    requires
        m.moves_on(after),
        txid <= m.ctx.finality_idx,
        reads_are_current(m.memory, reads, txid),
    ensures
        reads_are_current(after.memory, reads, txid),
{
    assert forall|key: LocationKey| #[trigger] reads.contains_key(key) implies read_is_current(
        after.memory,
        key,
        txid,
        reads[key],
    ) by {
        assert forall|other: TxId|
            other < txid && #[trigger] wrote(m.memory, key, other) implies versions_at(
            after.memory,
            key,
        )[other] == versions_at(m.memory, key)[other] by {
            assert(wrote(after.memory, key, other));
        }
        lemma_latest_frame(m.memory, after.memory, key, txid);
        assert(read_is_current(m.memory, key, txid, reads[key]));
    }
}

/// What memory bears out of a final transaction it bears out after every further step, also once
/// the execution has been handed over.
pub proof fn final_executions_stay_borne_out<S, X, O, E>(
    m: Model<S, X, O, E>,
    after: Model<S, X, O, E>,
    i: int,
    result: ResultModel<O, E>,
)
    requires
        m.wf(),
        m.moves_on(after),
        0 <= i < m.ctx.finality_idx,
        m.bears_out(i, result),
    ensures
        after.bears_out(i, result),
{
    let id = i as TxId;
    assert(after.states[i] == m.states[i]);
    reads_past_finality_stay_current(m, after, result.read_set, id);
    assert forall|key: LocationKey| #[trigger]
        wrote(after.memory, key, id) == result.write_set.contains(key) by {
        assert(wrote(after.memory, key, id) == wrote(m.memory, key, id));
    }
}

/// Reads that are current saw what every lookup gives that agrees with memory.
pub proof fn lemma_current_reads_agree<V, O, E>(
    memory: Memory,
    txid: TxId,
    result: ResultModel<O, E>,
    base: spec_fn(LocationKey) -> V,
    values: spec_fn(TxVersion, LocationKey) -> V,
    lookup: spec_fn(LocationKey) -> V,
)
    requires
        reads_are_current(memory, result.read_set, txid),
        forall|key: LocationKey| #[trigger]
            lookup(key) == value_before(memory, base, values, txid, key),
    ensures
        agrees(base, values, result, lookup),
{
    assert forall|key: LocationKey| #[trigger] result.read_set.contains_key(key) implies lookup(key)
        == value_of(base, values, key, result.read_set[key]) by {
        assert(read_is_current(memory, key, txid, result.read_set[key]));
        assert(lookup(key) == value_before(memory, base, values, txid, key));
    }
}

/// Parallel execution gives what sequential execution gives: where memory bears out an execution
/// of each of the first `n` transactions, and these executions ran the transactions, the value
/// that memory gives at every location after them is the one after they ran one after the other.
/// Which transactions ran when, how often, and what the dependency graph answered do not matter.
pub proof fn parallel_equals_sequential<S, X, O, E, V>(
    m: Model<S, X, O, E>,
    n: TxId,
    results: Seq<ResultModel<O, E>>,
    base: spec_fn(LocationKey) -> V,
    values: spec_fn(TxVersion, LocationKey) -> V,
    run: spec_fn(TxId, spec_fn(LocationKey) -> V) -> Map<LocationKey, V>,
)
    requires
        results.len() == n,
        forall|i: int| 0 <= i < n ==> m.bears_out(i, #[trigger] results[i]),
        forall|i: int|
            0 <= i < n ==> is_run_of(run, base, values, m.last_version(i), #[trigger] results[i]),
    ensures
        forall|key: LocationKey| #[trigger]
            sequential_state(base, run, n as nat)(key) == value_before(
                m.memory,
                base,
                values,
                n,
                key,
            ),
    decreases n,
{
    if n == 0 {
        assert forall|key: LocationKey| #[trigger]
            sequential_state(base, run, n as nat)(key) == value_before(
            m.memory,
            base,
            values,
            n,
            key,
        ) by {
            lemma_latest_write(m.memory, key, n);
        }
    } else {
        let i = (n - 1) as TxId;
        let result = results[i as int];
        let version = m.last_version(i as int);
        assert forall|j: int| 0 <= j < i implies m.bears_out(j, #[trigger] results.take(i as int)[j])
            && is_run_of(run, base, values, m.last_version(j), results.take(i as int)[j]) by {
            assert(results.take(i as int)[j] == results[j]);
        }
        parallel_equals_sequential(m, i, results.take(i as int), base, values, run);
        let before = sequential_state(base, run, i as nat);
        lemma_current_reads_agree(m.memory, i, result, base, values, before);
        let writes = run(i, before);
        assert(writes_match(writes, result.write_set, values, version));
        assert forall|key: LocationKey| #[trigger]
            sequential_state(base, run, n as nat)(key) == value_before(
            m.memory,
            base,
            values,
            n,
            key,
        ) by {
            assert(before(key) == value_before(m.memory, base, values, i, key));
            assert(wrote(m.memory, key, i) == result.write_set.contains(key));
            lemma_latest_write(m.memory, key, i);
            lemma_latest_write(m.memory, key, n);
            if let Some((writer, _)) = latest_write(m.memory, key, i) {
                assert(wrote(m.memory, key, writer));
            }
            if let Some((writer, _)) = latest_write(m.memory, key, n) {
                assert(wrote(m.memory, key, writer));
            }
        }
    }
}

/// The outputs of parallel execution are those of sequential execution: where the output of a
/// transaction is a function `outcome` of the values that it sees, the output of each execution
/// that memory bears out is the one after all transactions before it ran one after the other.
pub proof fn parallel_outputs_equal_sequential<S, X, O, E, V>(
    m: Model<S, X, O, E>,
    n: TxId,
    results: Seq<ResultModel<O, E>>,
    base: spec_fn(LocationKey) -> V,
    values: spec_fn(TxVersion, LocationKey) -> V,
    run: spec_fn(TxId, spec_fn(LocationKey) -> V) -> Map<LocationKey, V>,
    outcome: spec_fn(TxId, spec_fn(LocationKey) -> V) -> O,
)
    requires
        results.len() == n,
        forall|i: int| 0 <= i < n ==> m.bears_out(i, #[trigger] results[i]),
        forall|i: int|
            0 <= i < n ==> is_run_of(run, base, values, m.last_version(i), #[trigger] results[i]),
        forall|i: int, lookup: spec_fn(LocationKey) -> V|
            0 <= i < n && #[trigger] agrees(base, values, results[i], lookup)
                ==> results[i].execute_result == Ok::<O, E>(outcome(i as TxId, lookup)),
    ensures
        forall|i: int|
            0 <= i < n ==> (#[trigger] results[i]).execute_result == Ok::<O, E>(
                outcome(i as TxId, sequential_state(base, run, i as nat)),
            ),
{
    assert forall|i: int| 0 <= i < n implies (#[trigger] results[i]).execute_result == Ok::<O, E>(
        outcome(i as TxId, sequential_state(base, run, i as nat)),
    ) by {
        let before = sequential_state(base, run, i as nat);
        assert forall|j: int| 0 <= j < i implies m.bears_out(j, #[trigger] results.take(i)[j])
            && is_run_of(run, base, values, m.last_version(j), results.take(i)[j]) by {
            assert(results.take(i)[j] == results[j]);
        }
        parallel_equals_sequential(m, i as TxId, results.take(i), base, values, run);
        lemma_current_reads_agree(m.memory, i as TxId, results[i], base, values, before);
        assert(agrees(base, values, results[i], before));
    }
}

} // verus!
