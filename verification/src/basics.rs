//! What the parts of the scheduler are for, each in terms of what goes in and what comes out.

use vstd::prelude::*;

use crate::collections::{Memory, Reads};
use crate::config::{commits_one_by_one, is_stuck, unsigned_value, workers, ExecutionPlan};
use crate::consistency::{lemma_feeds, lemma_greatest, lemma_latest_write};
use crate::context::ContextModel;
use crate::counter::{max, min, succ, wrapping_sum};
use crate::detect_set::continuous;
use crate::location::{Address, LocationAndType, LocationKey, Slot};
use crate::memory::{edited_at, latest_write, published};
use crate::metrics::{ExecuteMetricsCollector, Metric};
use crate::model::{
    feeds, greatest, last_writer, last_writer_from, read_is_current, reads_are_current, wrote,
    Model,
};
use crate::sequential::RunModel;
use crate::types::{MemoryEntry, ReadVersion, TransactionStatus, TxId};
use crate::versions::{edited, latest_before, lemma_latest_before, lemma_latest_exists, VersionEdit};

verus! {

// Counters

/// A counter grows by one, and after the largest value comes zero.
pub proof fn counters_count(x: usize)
    ensures
        x < usize::MAX ==> succ(x) == x + 1,
        x == usize::MAX ==> succ(x) == 0,
{
}

/// Adding up counts is addition modulo the number of values: it starts at zero, and one more on
/// either side is one more in all.
pub proof fn sums_are_sums(x: usize, y: usize)
    ensures
        x + y <= usize::MAX ==> wrapping_sum(x, y) == x + y,
        x + y > usize::MAX ==> wrapping_sum(x, y) + usize::MAX + 1 == x + y,
        wrapping_sum(x, y) == wrapping_sum(y, x),
        wrapping_sum(x, 1) == succ(x),
{
}

/// The larger and the smaller of two values.
pub proof fn extremes_are_bounds(x: usize, y: usize)
    ensures
        max(x, y) >= x && max(x, y) >= y && (max(x, y) == x || max(x, y) == y),
        min(x, y) <= x && min(x, y) <= y && (min(x, y) == x || min(x, y) == y),
        x + y == max(x, y) + min(x, y),
{
}

// Settings

/// The character is a decimal digit, and this is its value.
pub open spec fn is_digit(c: char, d: int) -> bool {
    0 <= d <= 9 && c as int == '0' as int + d
}

/// Numbers are decimal. One digit is its value; one more digit makes ten times the number plus the
/// digit, as long as that fits; a plus sign in front changes nothing and is no number by itself;
/// and whatever is not built like that is no number.
pub proof fn numbers_are_decimal(text: Seq<char>, c: char, d: int)
    ensures
        unsigned_value(Seq::<char>::empty()) is None,
        unsigned_value(seq!['+']) is None,
        is_digit(c, d) ==> unsigned_value(seq![c]) == Some(d as usize),
        is_digit(c, d) ==> unsigned_value(seq!['+', c]) == Some(d as usize),
        is_digit(c, d) && unsigned_value(text) is Some ==> unsigned_value(text.push(c)) == (if 10
            * unsigned_value(text)->0 + d <= usize::MAX {
            Some((10 * unsigned_value(text)->0 + d) as usize)
        } else {
            None
        }),
        (forall|e: int| !is_digit(c, e)) ==> unsigned_value(text.push(c)) is None,
        unsigned_value(text.push(c)) is Some ==> text.len() == 0 || text == seq!['+']
            || unsigned_value(text) is Some,
{
    crate::config::lemma_numbers_are_decimal(text, c, d);
    if '0' <= c <= '9' {
        assert(is_digit(c, c as int - '0' as int));
    }
}

/// The caller decides how many workers there are; where the caller leaves it open, a number in the
/// environment decides; where there is none, the default does.
pub proof fn workers_are_as_asked_for(
    n: usize,
    requested: Option<usize>,
    configured: Option<Seq<char>>,
    text: Seq<char>,
    default_level: usize,
)
    ensures
        workers(Some(n), configured, default_level) == n,
        unsigned_value(text) == Some(n) ==> workers(None, Some(text), default_level) == n,
        unsigned_value(text) is None ==> workers(None, Some(text), default_level) == default_level,
        workers(None, None, default_level) == default_level,
        requested is Some ==> workers(requested, configured, default_level) == workers(
            requested,
            None,
            0,
        ),
{
}

/// A block of 64 transactions or more that nobody forces to be sequential is executed by exactly
/// the workers that are asked for, however many they are; every other block is executed
/// sequentially, whatever is asked for.
pub proof fn plans_are_as_asked_for<S, X, O, E>(
    m: Model<S, X, O, E>,
    n: usize,
    requested: Option<usize>,
    configured: Option<Seq<char>>,
    text: Seq<char>,
    default_level: usize,
)
    ensures
        m.plan(requested, configured, default_level, true) == ExecutionPlan::Sequential,
        m.ctx.num_txs < 64 ==> m.plan(requested, configured, default_level, false)
            == ExecutionPlan::Sequential,
        m.ctx.num_txs >= 64 ==> {
            &&& m.plan(Some(n), configured, default_level, false) == ExecutionPlan::Parallel(n)
            &&& unsigned_value(text) == Some(n) ==> m.plan(None, Some(text), default_level, false)
                == ExecutionPlan::Parallel(n)
            &&& unsigned_value(text) is None ==> m.plan(None, Some(text), default_level, false)
                == ExecutionPlan::Parallel(default_level)
            &&& m.plan(None, None, default_level, false) == ExecutionPlan::Parallel(default_level)
        },
{
}

/// Outputs are committed one by one unless the environment says `false`, to the letter.
pub proof fn only_false_turns_commits_off(configured: Option<Seq<char>>)
    ensures
        commits_one_by_one(configured) <==> configured != Some("false"@),
        commits_one_by_one(None),
{
}

/// A warning is due after more than eight seconds, and not before.
pub proof fn warnings_are_due_after_eight_seconds(elapsed_millis: u128)
    ensures
        is_stuck(elapsed_millis) <==> elapsed_millis > 8000,
{
}

// Samples

/// `samples` hold one sample of the metric, with this value.
pub open spec fn samples_once(samples: Seq<(Metric, usize)>, metric: Metric, value: usize) -> bool {
    &&& exists|i: int| 0 <= i < samples.len() && #[trigger] samples[i] == (metric, value)
    &&& forall|i: int, j: int|
        0 <= i < samples.len() && 0 <= j < samples.len() && (#[trigger] samples[i]).0 == metric && (
        #[trigger] samples[j]).0 == metric ==> i == j
}

/// Each counter is reported once, under its own name and with its own value; an execution time is
/// reported exactly where one was measured.
pub proof fn every_counter_is_reported(c: ExecuteMetricsCollector)
    ensures
        ({
            let samples = c.counts() + c.times();
            &&& samples_once(samples, Metric::TotalTxCnt, c.total_tx_cnt)
            &&& samples_once(samples, Metric::ConflictCnt, c.conflict_cnt)
            &&& samples_once(samples, Metric::ValidationCnt, c.validation_cnt)
            &&& samples_once(samples, Metric::ExecutionCnt, c.execution_cnt)
            &&& samples_once(samples, Metric::ResetValidationIdxCnt, c.reset_validation_idx_cnt)
            &&& samples_once(samples, Metric::UselessDependentUpdate, c.useless_dependent_update)
            &&& samples_once(samples, Metric::ConflictByMiner, c.conflict_by_miner)
            &&& samples_once(samples, Metric::ConflictByError, c.conflict_by_error)
            &&& samples_once(samples, Metric::ConflictByEstimate, c.conflict_by_estimate)
            &&& samples_once(samples, Metric::ConflictByVersion, c.conflict_by_version)
            &&& samples_once(
                samples,
                Metric::OneAttemptWithDependency,
                c.one_attempt_with_dependency,
            )
            &&& samples_once(
                samples,
                Metric::MoreAttemptsWithDependency,
                c.more_attempts_with_dependency,
            )
            &&& samples_once(samples, Metric::NoDependencyTxs, c.no_dependency_txs)
            &&& samples_once(samples, Metric::ConflictTxs, c.conflict_txs)
            &&& samples_once(samples, Metric::CommitTime, c.commit_time)
            &&& samples_once(samples, Metric::TotalTime, c.total_time)
            &&& c.execution_time > 0 ==> samples.len() == 17 && samples_once(
                samples,
                Metric::ExecutionTime,
                c.execution_time,
            )
            &&& c.execution_time == 0 ==> samples.len() == 16 && forall|i: int|
                0 <= i < samples.len() ==> (#[trigger] samples[i]).0 != Metric::ExecutionTime
        }),
{
    let samples = c.counts() + c.times();
    assert(samples[0] == (Metric::TotalTxCnt, c.total_tx_cnt));
    assert(samples[1] == (Metric::ConflictCnt, c.conflict_cnt));
    assert(samples[2] == (Metric::ValidationCnt, c.validation_cnt));
    assert(samples[3] == (Metric::ExecutionCnt, c.execution_cnt));
    assert(samples[4] == (Metric::ResetValidationIdxCnt, c.reset_validation_idx_cnt));
    assert(samples[5] == (Metric::UselessDependentUpdate, c.useless_dependent_update));
    assert(samples[6] == (Metric::ConflictByMiner, c.conflict_by_miner));
    assert(samples[7] == (Metric::ConflictByError, c.conflict_by_error));
    assert(samples[8] == (Metric::ConflictByEstimate, c.conflict_by_estimate));
    assert(samples[9] == (Metric::ConflictByVersion, c.conflict_by_version));
    assert(samples[10] == (Metric::OneAttemptWithDependency, c.one_attempt_with_dependency));
    assert(samples[11] == (Metric::MoreAttemptsWithDependency, c.more_attempts_with_dependency));
    assert(samples[12] == (Metric::NoDependencyTxs, c.no_dependency_txs));
    assert(samples[13] == (Metric::ConflictTxs, c.conflict_txs));
    assert(samples[samples.len() - 2] == (Metric::CommitTime, c.commit_time));
    assert(samples[samples.len() - 1] == (Metric::TotalTime, c.total_time));
    assert(c.execution_time > 0 ==> samples[14] == (Metric::ExecutionTime, c.execution_time));
}

/// Nothing has been counted at first.
pub proof fn counters_start_at_zero(i: int)
    ensures
        ({
            let samples = ExecuteMetricsCollector::zero().counts()
                + ExecuteMetricsCollector::zero().times();
            0 <= i < samples.len() ==> samples[i].1 == 0
        }),
        ExecuteMetricsCollector::zero().execution_time == 0,
{
}

// Locations

/// Every part of a location is in its key, so that different locations have different keys.
pub proof fn keys_hold_every_part(a: Address, b: Address, s: Slot, t: Slot)
    ensures
        LocationAndType::Basic(a).spec_key() == LocationAndType::Basic(b).spec_key() <==> a == b,
        LocationAndType::Code(a).spec_key() == LocationAndType::Code(b).spec_key() <==> a == b,
        LocationAndType::Storage(a, s).spec_key() == LocationAndType::Storage(b, t).spec_key()
            <==> a == b && s == t,
        LocationAndType::Basic(a).spec_key() != LocationAndType::Code(b).spec_key(),
        LocationAndType::Basic(a).spec_key() != LocationAndType::Storage(b, t).spec_key(),
        LocationAndType::Code(a).spec_key() != LocationAndType::Storage(b, t).spec_key(),
{
}

// Memory

/// The transaction has a version of the location.
pub open spec fn has_version(memory: Memory, key: LocationKey, id: TxId) -> bool {
    memory.contains_key(key) && memory[key].contains_key(id)
}

/// `id` wrote the location last before `txid`.
pub open spec fn wrote_last(memory: Memory, key: LocationKey, txid: TxId, id: TxId) -> bool {
    &&& id < txid
    &&& has_version(memory, key, id)
    &&& forall|other: TxId| id < other < txid ==> !#[trigger] has_version(memory, key, other)
}

/// The version before `txid` is the one of the closest writer before it.
pub proof fn closest_writer_is_found(versions: Map<TxId, MemoryEntry>, txid: TxId, id: TxId)
    ensures
        (latest_before(versions, txid) matches Some((found, _)) && found == id) <==> (id < txid
            && versions.contains_key(id) && forall|other: TxId|
            id < other < txid ==> !#[trigger] versions.contains_key(other)),
        latest_before(versions, txid) matches Some((found, entry)) ==> entry == versions[found],
        latest_before(versions, txid) is None <==> forall|other: TxId|
            other < txid ==> !#[trigger] versions.contains_key(other),
{
    lemma_latest_before(versions, txid);
    if id < txid && versions.contains_key(id) {
        lemma_latest_exists(versions, txid, id);
    }
}

/// So it is in memory.
pub proof fn closest_writer_is_read(memory: Memory, key: LocationKey, txid: TxId, id: TxId)
    ensures
        (latest_write(memory, key, txid) matches Some((found, _)) && found == id) <==> wrote_last(
            memory,
            key,
            txid,
            id,
        ),
        latest_write(memory, key, txid) matches Some((found, entry)) ==> entry
            == memory[key][found],
        latest_write(memory, key, txid) is None <==> forall|other: TxId|
            other < txid ==> !#[trigger] has_version(memory, key, other),
{
    lemma_latest_write(memory, key, txid);
    assert forall|other: TxId| #[trigger] has_version(memory, key, other) == wrote(
        memory,
        key,
        other,
    ) by {}
    if let Some((found, _)) = latest_write(memory, key, txid) {
        assert(has_version(memory, key, found));
        if wrote_last(memory, key, txid, id) {
            assert(wrote(memory, key, id));
            assert(found < id ==> !wrote(memory, key, id) || id >= txid);
        }
        if found == id {
            assert forall|other: TxId| id < other < txid implies !#[trigger] has_version(
                memory,
                key,
                other,
            ) by {
                assert(has_version(memory, key, other) == wrote(memory, key, other));
            }
        }
    } else {
        assert forall|other: TxId| other < txid implies !#[trigger] has_version(
            memory,
            key,
            other,
        ) by {
            assert(has_version(memory, key, other) == wrote(memory, key, other));
        }
    }
}

/// A change concerns one transaction's version: a write gives it, a retirement takes it away, and
/// a mark makes it an estimate and keeps its incarnation.
pub proof fn edits_change_one_version(
    versions: Map<TxId, MemoryEntry>,
    id: TxId,
    entry: MemoryEntry,
    other: TxId,
)
    ensures
        edited(versions, VersionEdit::Write(id, entry)).contains_key(id),
        edited(versions, VersionEdit::Write(id, entry))[id] == entry,
        !edited(versions, VersionEdit::Retire(id)).contains_key(id),
        edited(versions, VersionEdit::MarkEstimate(id)).contains_key(id) == versions.contains_key(
            id,
        ),
        versions.contains_key(id) ==> {
            &&& edited(versions, VersionEdit::MarkEstimate(id))[id].estimate
            &&& edited(versions, VersionEdit::MarkEstimate(id))[id].incarnation
                == versions[id].incarnation
        },
        forall|edit: VersionEdit|
            other != id && (edit == VersionEdit::Write(id, entry) || edit == VersionEdit::Retire(id)
                || edit == VersionEdit::MarkEstimate(id)) ==> {
                &&& (#[trigger] edited(versions, edit)).contains_key(other)
                    == versions.contains_key(other)
                &&& versions.contains_key(other) ==> edited(versions, edit)[other]
                    == versions[other]
            },
{
}

/// Publishing gives the transaction the entry at each of the locations, and changes nothing else.
pub proof fn publishing_changes_what_was_written(
    memory: Memory,
    keys: Set<LocationKey>,
    id: TxId,
    entry: MemoryEntry,
    key: LocationKey,
    other: TxId,
)
    ensures
        ({
            let after = published(memory, keys, id, entry);
            &&& keys.contains(key) ==> has_version(after, key, id) && after[key][id] == entry
            &&& !keys.contains(key) || other != id ==> {
                &&& has_version(after, key, other) == has_version(memory, key, other)
                &&& has_version(memory, key, other) ==> after[key][other] == memory[key][other]
            }
        }),
{
}

/// Marking and retiring concern the transaction's versions at the locations, and nothing else.
pub proof fn edits_change_what_is_named(
    memory: Memory,
    keys: Set<LocationKey>,
    id: TxId,
    key: LocationKey,
    other: TxId,
)
    ensures
        ({
            let marked = edited_at(memory, keys, VersionEdit::MarkEstimate(id));
            let retired = edited_at(memory, keys, VersionEdit::Retire(id));
            &&& has_version(marked, key, id) == has_version(memory, key, id)
            &&& keys.contains(key) && has_version(memory, key, id) ==> marked[key][id].estimate
                && marked[key][id].incarnation == memory[key][id].incarnation
            &&& keys.contains(key) ==> !has_version(retired, key, id)
            &&& !keys.contains(key) || other != id ==> {
                &&& has_version(marked, key, other) == has_version(memory, key, other)
                &&& has_version(retired, key, other) == has_version(memory, key, other)
                &&& has_version(memory, key, other) ==> marked[key][other] == memory[key][other]
                    && retired[key][other] == memory[key][other]
            }
        }),
{
}

// Reads

/// A read by `txid` that saw `version` sees the same now, from a writer that is not about to run
/// again.
pub open spec fn sees_again(
    memory: Memory,
    key: LocationKey,
    txid: TxId,
    version: ReadVersion,
) -> bool {
    match version {
        ReadVersion::MvMemory(seen) => {
            &&& wrote_last(memory, key, txid, seen.txid)
            &&& memory[key][seen.txid].incarnation == seen.incarnation
            &&& !memory[key][seen.txid].estimate
        },
        ReadVersion::Storage => forall|other: TxId|
            other < txid ==> !#[trigger] has_version(memory, key, other),
    }
}

/// Reads are current exactly where each of them sees the same again.
pub proof fn current_reads_see_the_same(memory: Memory, reads: Reads, txid: TxId)
    ensures
        forall|key: LocationKey, version: ReadVersion| #[trigger]
            read_is_current(memory, key, txid, version) == sees_again(memory, key, txid, version),
        reads_are_current(memory, reads, txid) <==> forall|key: LocationKey| #[trigger]
            reads.contains_key(key) ==> sees_again(memory, key, txid, reads[key]),
{
    assert forall|key: LocationKey, version: ReadVersion| #[trigger]
        read_is_current(memory, key, txid, version) == sees_again(memory, key, txid, version) by {
        match version {
            ReadVersion::MvMemory(seen) => {
                closest_writer_is_read(memory, key, txid, seen.txid);
            },
            ReadVersion::Storage => {
                closest_writer_is_read(memory, key, txid, 0);
            },
        }
    }
    if reads_are_current(memory, reads, txid) {
        assert forall|key: LocationKey| #[trigger] reads.contains_key(key) implies sees_again(
            memory,
            key,
            txid,
            reads[key],
        ) by {
            assert(read_is_current(memory, key, txid, reads[key]));
        }
    }
    if forall|key: LocationKey| #[trigger]
        reads.contains_key(key) ==> sees_again(memory, key, txid, reads[key]) {
        assert forall|key: LocationKey| #[trigger] reads.contains_key(key) implies read_is_current(
            memory,
            key,
            txid,
            reads[key],
        ) by {
            assert(sees_again(memory, key, txid, reads[key]));
        }
    }
}

/// `id` wrote last before `txid` at some location that was read.
pub open spec fn supplies(memory: Memory, reads: Reads, txid: TxId, id: TxId) -> bool {
    exists|key: LocationKey| #[trigger]
        reads.contains_key(key) && wrote_last(memory, key, txid, id)
}

/// `found` is the greatest transaction from `from` on that supplies `txid`, and `None` where none
/// from there on does.
pub open spec fn is_greatest_supplier(
    memory: Memory,
    reads: Reads,
    txid: TxId,
    from: TxId,
    found: Option<TxId>,
) -> bool {
    match found {
        Some(id) => {
            &&& from <= id < txid
            &&& supplies(memory, reads, txid, id)
            &&& forall|other: TxId| #[trigger] supplies(memory, reads, txid, other) ==> other <= id
        },
        None => forall|other: TxId| #[trigger] supplies(memory, reads, txid, other) ==> other < from,
    }
}

/// What a transaction waits for is its greatest supplier.
pub proof fn dependency_is_the_greatest_supplier(
    memory: Memory,
    reads: Reads,
    txid: TxId,
    from: TxId,
)
    ensures
        is_greatest_supplier(memory, reads, txid, 0, last_writer(memory, reads, txid)),
        is_greatest_supplier(
            memory,
            reads,
            txid,
            from,
            last_writer_from(memory, reads, txid, from),
        ),
{
    let all = |id: TxId| feeds(memory, reads, txid, id);
    let late = |id: TxId| feeds(memory, reads, txid, id) && id >= from;
    lemma_feeds(memory, reads, txid);
    lemma_greatest(all, txid);
    lemma_greatest(late, txid);
    assert forall|id: TxId| #[trigger] supplies(memory, reads, txid, id) == feeds(
        memory,
        reads,
        txid,
        id,
    ) by {
        if supplies(memory, reads, txid, id) {
            let key = choose|key: LocationKey| #[trigger]
                reads.contains_key(key) && wrote_last(memory, key, txid, id);
            closest_writer_is_read(memory, key, txid, id);
            assert(reads.contains_key(key));
        }
        if feeds(memory, reads, txid, id) {
            let key = choose|key: LocationKey| #[trigger]
                reads.contains_key(key) && (latest_write(memory, key, txid) matches Some(
                    (writer, _),
                ) && writer == id);
            closest_writer_is_read(memory, key, txid, id);
            assert(reads.contains_key(key));
        }
    }
    if let Some(id) = greatest(all) {
        assert(all(id));
        assert(supplies(memory, reads, txid, id));
    }
    assert forall|other: TxId| #[trigger] supplies(memory, reads, txid, other) implies (match greatest(
        all,
    ) {
        Some(id) => other <= id,
        None => false,
    }) by {
        assert(all(other));
    }
    if let Some(id) = greatest(late) {
        assert(late(id));
        assert(supplies(memory, reads, txid, id));
    }
    assert forall|other: TxId| #[trigger] supplies(memory, reads, txid, other) implies (match greatest(
        late,
    ) {
        Some(id) => other <= id,
        None => other < from,
    }) by {
        if other >= from {
            assert(late(other));
        }
    }
}

// Cursors and timestamps

/// A context starts with nothing executed, validated, final or committed, at time one.
pub proof fn contexts_start_at_the_beginning(num_txs: usize, i: int)
    ensures
        ({
            let c = ContextModel::initial(num_txs);
            &&& c.num_txs == num_txs
            &&& c.validation_idx == 0 && c.finality_idx == 0 && c.commit_idx == 0
            &&& c.resets == 0
            &&& c.logical_ts == 1
            &&& c.executed.len() == num_txs && c.lower_ts.len() == num_txs
                && c.unconfirmed_ts.len() == num_txs
            &&& 0 <= i < num_txs ==> !c.executed[i] && c.lower_ts[i] == 0 && c.unconfirmed_ts[i] == 0
        }),
{
}

/// A rollback inside the block stamps its transaction with the current time, which it uses up,
/// and leaves the validation cursor no further than its transaction: there where it was beyond, in
/// which case the rollback counts, and where it was otherwise. It touches no other stamp, and
/// nothing but these. A rollback beyond the block does nothing.
pub proof fn rollbacks_stamp_and_move_back(c: ContextModel, index: usize, j: int)
    requires
        c.lower_ts.len() == c.num_txs,
    ensures
        ({
            let d = c.reset_validation_idx(index);
            &&& index >= c.num_txs ==> d == c
            &&& index < c.num_txs ==> {
                &&& d.logical_ts == succ(c.logical_ts)
                &&& d.lower_ts.len() == c.lower_ts.len()
                &&& d.lower_ts[index as int] >= c.logical_ts
                &&& d.lower_ts[index as int] >= c.lower_ts[index as int]
                &&& d.lower_ts[index as int] == c.logical_ts || d.lower_ts[index as int]
                    == c.lower_ts[index as int]
                &&& 0 <= j < c.num_txs && j != index ==> d.lower_ts[j] == c.lower_ts[j]
                &&& c.validation_idx > index ==> d.validation_idx == index && d.resets == succ(
                    c.resets,
                )
                &&& c.validation_idx <= index ==> d.validation_idx == c.validation_idx && d.resets
                    == c.resets
            }
            &&& d.num_txs == c.num_txs
            &&& d.finality_idx == c.finality_idx
            &&& d.commit_idx == c.commit_idx
            &&& d.executed == c.executed
            &&& d.unconfirmed_ts == c.unconfirmed_ts
        }),
{
}

/// Drawing a timestamp moves the clock, and nothing else.
pub proof fn draws_move_the_clock(c: ContextModel)
    ensures
        c.logical_ts < usize::MAX ==> c.tick().logical_ts == c.logical_ts + 1,
        (ContextModel { logical_ts: c.logical_ts, ..c.tick() }) == c,
{
}

/// An executed transaction joins the executed ones, and nothing else changes.
pub proof fn executed_joins_the_set(c: ContextModel, index: usize, j: int)
    requires
        index < c.executed.len(),
    ensures
        ({
            let d = c.mark_executed(index);
            &&& d.executed.len() == c.executed.len()
            &&& 0 <= j < c.executed.len() ==> (d.executed[j] <==> c.executed[j] || j == index)
            &&& (ContextModel { executed: c.executed, ..d }) == c
        }),
{
}

/// A validation raises the time of its transaction to its own, never lowers it, and changes
/// nothing else.
pub proof fn validations_raise_their_time(c: ContextModel, index: usize, ts: usize, j: int)
    requires
        index < c.unconfirmed_ts.len(),
    ensures
        ({
            let d = c.mark_unconfirmed(index, ts);
            &&& d.unconfirmed_ts.len() == c.unconfirmed_ts.len()
            &&& d.unconfirmed_ts[index as int] >= ts
            &&& d.unconfirmed_ts[index as int] >= c.unconfirmed_ts[index as int]
            &&& d.unconfirmed_ts[index as int] == ts || d.unconfirmed_ts[index as int]
                == c.unconfirmed_ts[index as int]
            &&& 0 <= j < c.unconfirmed_ts.len() && j != index ==> d.unconfirmed_ts[j]
                == c.unconfirmed_ts[j]
            &&& (ContextModel { unconfirmed_ts: c.unconfirmed_ts, ..d }) == c
        }),
{
}

/// A transaction may be validated where the validation cursor stands at it, it is before the
/// execution cursor, and it and everything before it has been executed.
pub proof fn validation_needs_an_executed_prefix(c: ContextModel, executing_idx: usize)
    requires
        c.executed.len() == c.num_txs,
    ensures
        c.can_validate(executing_idx) <==> c.validation_idx < executing_idx && c.validation_idx
            < c.num_txs && forall|j: int| 0 <= j <= c.validation_idx ==> #[trigger] c.executed[j],
{
    crate::detect_set::continuous_is_the_longest_prefix(c.executed);
    if c.validation_idx < executing_idx && c.validation_idx < c.num_txs && (forall|j: int|
        0 <= j <= c.validation_idx ==> #[trigger] c.executed[j]) {
        if continuous(c.executed) <= c.validation_idx {
            assert(c.executed[continuous(c.executed)]);
        }
    }
}

/// Cursors advance one by one, each alone.
pub proof fn cursors_advance_one_by_one(c: ContextModel)
    ensures
        c.validation_idx < usize::MAX ==> c.advance_validation().validation_idx == c.validation_idx
            + 1,
        c.finality_idx < usize::MAX ==> c.advance_finality().finality_idx == c.finality_idx + 1,
        c.commit_idx < usize::MAX ==> c.advance_commit().commit_idx == c.commit_idx + 1,
        (ContextModel { validation_idx: c.validation_idx, ..c.advance_validation() }) == c,
        (ContextModel { finality_idx: c.finality_idx, ..c.advance_finality() }) == c,
        (ContextModel { commit_idx: c.commit_idx, ..c.advance_commit() }) == c,
{
}

// Sequential runs

/// A sequential run executes one transaction after the other: each adds its result behind those
/// that there are, and the next one is the one after it.
pub proof fn sequential_runs_go_one_by_one<X>(run: RunModel<X>, result: X, i: int)
    requires
        run.wf(),
        run.next < run.end,
    ensures
        ({
            let after = run.executed(result);
            &&& after.next == run.next + 1
            &&& after.end == run.end
            &&& after.results.len() == run.results.len() + 1
            &&& after.results.last() == result
            &&& 0 <= i < run.results.len() ==> after.results[i] == run.results[i]
        }),
{
}

/// A sequential run takes up where the results end, goes to the end of the block, and is there
/// exactly where results are missing.
pub proof fn sequential_runs_take_up_where_results_end<S, X, O, E>(m: Model<S, X, O, E>)
    ensures
        m.sequential_run() is Some <==> m.results.len() < m.ctx.num_txs,
        m.sequential_run() matches Some(run) ==> {
            &&& run.next == m.results.len()
            &&& run.end == m.ctx.num_txs
            &&& run.results.len() == 0
        },
{
}

/// A block starts with every transaction waiting for its first execution, and with nothing done.
pub proof fn blocks_start_with_nothing_done<S, X, O, E>(num_txs: usize, state: S, i: int)
    ensures
        ({
            let m = Model::<S, X, O, E>::initial(num_txs, state);
            &&& m.ctx.num_txs == num_txs
            &&& m.states.len() == num_txs && m.tx_results.len() == num_txs
            &&& 0 <= i < num_txs ==> {
                &&& m.states[i].status == TransactionStatus::Initial
                &&& m.states[i].incarnation == 0
                &&& m.states[i].dependency is None
                &&& m.tx_results[i] is None
            }
            &&& m.memory.dom() == Set::<LocationKey>::empty()
            &&& m.finality_ts == 0
            &&& !m.committing
            &&& m.abort_reason is None
            &&& m.results.len() == 0
            &&& m.state == state
            &&& m.metrics.execution_cnt == 0 && m.metrics.validation_cnt == 0
                && m.metrics.conflict_cnt == 0
        }),
{
    assert(Memory::empty().dom() =~= Set::<LocationKey>::empty());
}

} // verus!
