//! What callers can rely on: what each operation answers and leaves behind, call by call.
//!
//! Each statement speaks of one call or of several: the arguments, the answer, and what a `&mut`
//! argument is before and after.

use vstd::prelude::*;

use crate::access::{ReadSet, WriteSet};
use crate::basics::{
    closest_writer_is_found, closest_writer_is_read, current_reads_see_the_same,
    dependency_is_the_greatest_supplier, edits_change_one_version, edits_change_what_is_named,
    every_counter_is_reported, has_version, is_digit, is_greatest_supplier, numbers_are_decimal,
    publishing_changes_what_was_written, rollbacks_stamp_and_move_back, samples_once, sees_again,
    supplies, validation_needs_an_executed_prefix, wrote_last,
};
use crate::config::{async_commit_state, concurrency_level, parse_unsigned, stuck, ExecutionPlan};
use crate::context::SchedulerContext;
use crate::counter::{accumulate, bump};
use crate::detect_set::ContinuousDetectSet;
use crate::location::{LocationAndType, LocationKey};
use crate::meaning::{
    all_seen_again, conflicting_executions_wait, conflicting_validations_wait_for_their_supplier,
    dependents, distances_lead_back_to_dependencies, executions_conflict_or_await_validation,
    executions_publish_their_writes, executions_roll_validation_back, failed_executions_run_again,
    finality_counts_by_attempts, finality_takes_the_fresh_in_order, grew, joined_executed,
    leads_back, only_changed, only_the_first_uncommitted_fails_the_block, only_versions_changed,
    rolled_back, same_block, tally, validation_due, validation_passes_what_is_seen_again,
    waiting_transactions_are_handed_out, waits_to_run, workers_go_on_after_an_execution,
    workers_validate_at_the_cursor, writes_elsewhere, Attempts,
};
use crate::memory::MVMemory;
use crate::metrics::{ExecuteMetricsCollector, Metric};
use crate::model::{Dispatch, Followup};
use crate::scheduler::{CommitStep, Executed, Execution, NextStep, PostExecute, Scheduler};
use crate::sequential::SequentialRun;
use crate::types::{
    AbortReason, DependencyAction, GrevmError, MemoryEntry, ReadVersion, Task, TransactionStatus,
    TxId, TxState, TxVersion,
};
use crate::validation::{check_reads, find_writer_from};
use crate::versions::{edit_versions, find_latest_before, VersionEdit, Versions};

verus! {

// Counters and settings

/// One more, and zero after the largest value.
pub proof fn bumping_counts(x: usize, r: usize)
    requires
        call_ensures(bump, (x,), r),
    ensures
        x < usize::MAX ==> r == x + 1,
        x == usize::MAX ==> r == 0,
{
}

/// The sum, or the sum less the number of values.
pub proof fn accumulating_adds(x: usize, y: usize, r: usize)
    requires
        call_ensures(accumulate, (x, y), r),
    ensures
        r == x + y || r == x + y - usize::MAX - 1,
{
}

/// A text that is a number with one more digit is ten times the number plus the digit, where that
/// fits, and no number otherwise; with anything else behind it, a text is no number.
pub proof fn parsing_is_decimal(
    text: &str,
    longer: &str,
    c: char,
    d: int,
    r: Option<usize>,
    s: Option<usize>,
)
    requires
        call_ensures(parse_unsigned, (text,), r),
        call_ensures(parse_unsigned, (longer,), s),
        longer@ == text@.push(c),
    ensures
        is_digit(c, d) && r is Some ==> s == (if 10 * r->0 + d <= usize::MAX {
            Some((10 * r->0 + d) as usize)
        } else {
            None
        }),
        is_digit(c, d) && (text@.len() == 0 || text@ == seq!['+']) ==> s == Some(d as usize),
        text@.len() == 0 || text@ == seq!['+'] ==> r is None,
        (forall|e: int| !is_digit(c, e)) ==> s is None,
        s is Some ==> r is Some || text@.len() == 0 || text@ == seq!['+'],
{
    numbers_are_decimal(text@, c, d);
    if text@.len() == 0 {
        assert(text@ =~= Seq::<char>::empty());
        assert(longer@ =~= seq![c]);
    }
    if text@ == seq!['+'] {
        assert(longer@ =~= seq!['+', c]);
    }
}

/// The caller's number of workers counts; else that of the environment; else the default.
pub proof fn levels_are_as_asked_for(
    n: usize,
    configured: Option<&str>,
    text: &str,
    default_level: usize,
    parsed: Option<usize>,
    r: usize,
    s: usize,
    t: usize,
)
    requires
        call_ensures(concurrency_level, (Some(n), configured, default_level), r),
        call_ensures(parse_unsigned, (text,), parsed),
        call_ensures(concurrency_level, (None, Some(text), default_level), s),
        call_ensures(concurrency_level, (None, None, default_level), t),
    ensures
        r == n,
        parsed matches Some(level) ==> s == level,
        parsed is None ==> s == default_level,
        t == default_level,
{
}

/// Outputs are committed one by one unless the environment says `false`.
pub proof fn commit_setting_is_off_for_false_only(
    text: String,
    r: bool,
    unset: bool,
)
    requires
        call_ensures(async_commit_state, (Some(text),), r),
        call_ensures(async_commit_state, (None,), unset),
    ensures
        r <==> text@ != "false"@,
        unset,
{
}

/// A warning is due after more than eight seconds.
pub proof fn stuck_after_eight_seconds(elapsed_millis: u128, r: bool)
    requires
        call_ensures(stuck, (elapsed_millis,), r),
    ensures
        r <==> elapsed_millis > 8000,
{
}

// Locations, reads and writes

/// Locations have the same key exactly where they are the same.
pub proof fn keys_tell_locations_apart(
    a: &LocationAndType,
    b: &LocationAndType,
    r: LocationKey,
    s: LocationKey,
)
    requires
        call_ensures(LocationAndType::key, (a,), r),
        call_ensures(LocationAndType::key, (b,), s),
    ensures
        r == s <==> *a == *b,
{
}

/// A new read set is empty. A read is found under its location's key in the version that was seen
/// last, and no other read changes.
pub proof fn reads_are_recorded(
    empty: ReadSet,
    set: &mut ReadSet,
    location: &LocationAndType,
    version: ReadVersion,
    key: LocationKey,
    other: LocationKey,
)
    requires
        call_ensures(ReadSet::new, (), empty),
        call_ensures(ReadSet::insert, (set, location, version), ()),
        call_ensures(LocationAndType::key, (location,), key),
    ensures
        !empty@.contains_key(other),
        final(set)@.contains_key(key) && final(set)@[key] == version,
        other != key ==> final(set)@.contains_key(other) == old(set)@.contains_key(other),
        other != key && old(set)@.contains_key(other) ==> final(set)@[other] == old(set)@[other],
{
}

/// The reads are listed, each location once.
pub proof fn reads_are_listed(
    set: &ReadSet,
    items: Vec<(LocationKey, ReadVersion)>,
    key: LocationKey,
    version: ReadVersion,
    i: int,
    j: int,
)
    requires
        call_ensures(ReadSet::items, (set,), items),
    ensures
        set@.contains_key(key) && set@[key] == version <==> items@.contains((key, version)),
        0 <= i < j < items@.len() ==> items@[i].0 != items@[j].0,
{
    assert(items@.to_set().contains((key, version)) == items@.contains((key, version)));
    assert(set@.kv_pairs().contains((key, version)) <==> set@.contains_key(key) && set@[key]
        == version);
}

/// A new write set is empty. A write is found under its location's key, and no other changes.
pub proof fn writes_are_recorded(
    empty: WriteSet,
    set: &mut WriteSet,
    location: &LocationAndType,
    key: LocationKey,
    other: LocationKey,
)
    requires
        call_ensures(WriteSet::new, (), empty),
        call_ensures(WriteSet::insert, (set, location), ()),
        call_ensures(LocationAndType::key, (location,), key),
    ensures
        !empty@.contains(other),
        final(set)@.contains(other) <==> old(set)@.contains(other) || other == key,
{
}

/// The writes are listed, each location once, and looked up.
pub proof fn writes_are_listed(
    set: &WriteSet,
    larger: &WriteSet,
    items: Vec<LocationKey>,
    key: LocationKey,
    found: bool,
    inside: bool,
    i: int,
    j: int,
)
    requires
        call_ensures(WriteSet::items, (set,), items),
        call_ensures(WriteSet::contains, (set, &key), found),
        call_ensures(WriteSet::is_subset_of, (set, larger), inside),
    ensures
        found <==> set@.contains(key),
        found <==> items@.contains(key),
        0 <= i < j < items@.len() ==> items@[i] != items@[j],
        inside && found ==> larger@.contains(key),
        !inside ==> exists|k: LocationKey| set@.contains(k) && !#[trigger] larger@.contains(k),
{
    assert(items@.to_set().contains(key) == items@.contains(key));
    if !inside {
        let k = choose|k: LocationKey| set@.contains(k) && !larger@.contains(k);
        assert(!larger@.contains(k));
    }
}

// Memory

/// The version before a transaction is the one of the closest writer before it.
pub proof fn lookup_finds_the_closest_writer(
    versions: &Versions,
    txid: TxId,
    id: TxId,
    r: Option<(TxId, MemoryEntry)>,
)
    requires
        call_ensures(find_latest_before, (versions, txid), r),
    ensures
        (r matches Some((found, _)) && found == id) <==> (id < txid && versions@.contains_key(id)
            && forall|other: TxId|
            id < other < txid ==> !#[trigger] versions@.contains_key(other)),
        r matches Some((found, entry)) ==> entry == versions@[found],
        r is None <==> forall|other: TxId|
            other < txid ==> !#[trigger] versions@.contains_key(other),
{
    closest_writer_is_found(versions@, txid, id);
}

/// An edit changes the version of one transaction.
pub proof fn editing_changes_one_version(
    versions: Versions,
    id: TxId,
    entry: MemoryEntry,
    other: TxId,
    written: Versions,
    retired: Versions,
    marked: Versions,
)
    requires
        call_ensures(edit_versions, (versions, VersionEdit::Write(id, entry)), written),
        call_ensures(edit_versions, (versions, VersionEdit::Retire(id)), retired),
        call_ensures(edit_versions, (versions, VersionEdit::MarkEstimate(id)), marked),
    ensures
        written@.contains_key(id) && written@[id] == entry,
        !retired@.contains_key(id),
        marked@.contains_key(id) == versions@.contains_key(id),
        versions@.contains_key(id) ==> marked@[id].estimate && marked@[id].incarnation
            == versions@[id].incarnation,
        other != id ==> written@.contains_key(other) == versions@.contains_key(other)
            && retired@.contains_key(other) == versions@.contains_key(other)
            && marked@.contains_key(other) == versions@.contains_key(other),
        other != id && versions@.contains_key(other) ==> written@[other] == versions@[other]
            && retired@[other] == versions@[other] && marked@[other] == versions@[other],
{
    edits_change_one_version(versions@, id, entry, other);
}

/// New memory has no version. A read finds the closest writer before the reader.
pub proof fn memory_gives_the_closest_write(
    empty: MVMemory,
    memory: &MVMemory,
    key: &LocationKey,
    txid: TxId,
    id: TxId,
    r: Option<(TxId, MemoryEntry)>,
)
    requires
        call_ensures(MVMemory::new, (), empty),
        call_ensures(MVMemory::latest, (memory, key, txid), r),
    ensures
        !has_version(empty@, *key, id),
        (r matches Some((found, _)) && found == id) <==> wrote_last(memory@, *key, txid, id),
        r matches Some((found, entry)) ==> entry == memory@[*key][found],
        r is None <==> forall|other: TxId|
            other < txid ==> !#[trigger] has_version(memory@, *key, other),
{
    closest_writer_is_read(memory@, *key, txid, id);
}

/// Publishing gives the transaction the entry where it wrote; every other version stays.
pub proof fn publishing_writes(
    memory: &mut MVMemory,
    writes: &WriteSet,
    txid: TxId,
    entry: MemoryEntry,
    key: LocationKey,
    id: TxId,
)
    requires
        call_ensures(MVMemory::publish, (memory, writes, txid, entry), ()),
    ensures
        writes@.contains(key) ==> has_version(final(memory)@, key, txid)
            && final(memory)@[key][txid] == entry,
        !writes@.contains(key) || id != txid ==> {
            &&& has_version(final(memory)@, key, id) == has_version(old(memory)@, key, id)
            &&& has_version(old(memory)@, key, id) ==> final(memory)@[key][id]
                == old(memory)@[key][id]
        },
{
    publishing_changes_what_was_written(old(memory)@, writes@, txid, entry, key, id);
}

/// Marking makes the transaction's versions estimates where it wrote; every other version stays,
/// and none comes or goes.
pub proof fn marking_makes_estimates(
    memory: &mut MVMemory,
    txid: TxId,
    writes: &WriteSet,
    key: LocationKey,
    id: TxId,
)
    requires
        call_ensures(MVMemory::mark_estimate, (memory, txid, writes), ()),
    ensures
        has_version(final(memory)@, key, id) == has_version(old(memory)@, key, id),
        writes@.contains(key) && has_version(old(memory)@, key, txid) ==> {
            &&& final(memory)@[key][txid].estimate
            &&& final(memory)@[key][txid].incarnation == old(memory)@[key][txid].incarnation
        },
        (!writes@.contains(key) || id != txid) && has_version(old(memory)@, key, id)
            ==> final(memory)@[key][id] == old(memory)@[key][id],
{
    edits_change_what_is_named(old(memory)@, writes@, txid, key, id);
    edits_change_what_is_named(old(memory)@, writes@, txid, key, txid);
}

/// Retiring takes the transaction's versions out where only the last execution wrote; every other
/// version stays.
pub proof fn retiring_takes_out_what_is_stale(
    memory: &mut MVMemory,
    txid: TxId,
    last: &WriteSet,
    current: &WriteSet,
    key: LocationKey,
    id: TxId,
)
    requires
        call_ensures(MVMemory::retire, (memory, txid, last, current), ()),
    ensures
        last@.contains(key) && !current@.contains(key) ==> !has_version(final(memory)@, key, txid),
        !last@.contains(key) || current@.contains(key) || id != txid ==> {
            &&& has_version(final(memory)@, key, id) == has_version(old(memory)@, key, id)
            &&& has_version(old(memory)@, key, id) ==> final(memory)@[key][id]
                == old(memory)@[key][id]
        },
{
    edits_change_what_is_named(old(memory)@, last@.difference(current@), txid, key, id);
    edits_change_what_is_named(old(memory)@, last@.difference(current@), txid, key, txid);
}

/// Reads conflict exactly where one does not see the same again, and the dependency is the greatest
/// supplier.
pub proof fn checking_reads_looks_again(
    memory: &MVMemory,
    read_set: &ReadSet,
    txid: TxId,
    r: (bool, Option<TxId>),
)
    requires
        call_ensures(check_reads, (memory, read_set, txid), r),
    ensures
        r.0 <==> exists|key: LocationKey| #[trigger]
            read_set@.contains_key(key) && !sees_again(memory@, key, txid, read_set@[key]),
        is_greatest_supplier(memory@, read_set@, txid, 0, r.1),
{
    current_reads_see_the_same(memory@, read_set@, txid);
    dependency_is_the_greatest_supplier(memory@, read_set@, txid, 0);
}

/// The writer that is found is the greatest supplier from `from` on.
pub proof fn finding_a_writer_finds_the_greatest(
    memory: &MVMemory,
    read_set: &ReadSet,
    txid: TxId,
    from: TxId,
    r: Option<TxId>,
)
    requires
        call_ensures(find_writer_from, (memory, read_set, txid, from), r),
    ensures
        is_greatest_supplier(memory@, read_set@, txid, from, r),
{
    dependency_is_the_greatest_supplier(memory@, read_set@, txid, from);
}

// Executed transactions

/// The set starts empty and takes in what is added; its index is the first that is missing.
pub proof fn detect_set_finds_the_first_gap(
    num_flag: usize,
    empty: ContinuousDetectSet,
    set: &mut ContinuousDetectSet,
    index: usize,
    full: &ContinuousDetectSet,
    r: usize,
    j: int,
)
    requires
        call_ensures(ContinuousDetectSet::new, (num_flag,), empty),
        call_ensures(ContinuousDetectSet::add, (set, index), ()),
        index < old(set)@.len(),
        call_ensures(ContinuousDetectSet::continuous_idx, (full,), r),
    ensures
        empty@.len() == num_flag,
        0 <= j < num_flag ==> !empty@[j],
        final(set)@.len() == old(set)@.len(),
        0 <= j < old(set)@.len() ==> (final(set)@[j] <==> old(set)@[j] || j == index),
        r <= full@.len(),
        0 <= j < r ==> full@[j],
        r < full@.len() ==> !full@[r as int],
{
    crate::detect_set::continuous_is_the_longest_prefix(full@);
}

// Cursors and timestamps

/// A rollback stamps its transaction, uses up a timestamp, and leaves the cursor no further than
/// its transaction.
pub proof fn context_rolls_back(c: &mut SchedulerContext, index: usize)
    requires
        old(c).wf(),
        call_ensures(SchedulerContext::reset_validation_idx, (c, index), ()),
    ensures
        rolled_back(old(c)@, final(c)@, index as int),
        final(c)@.executed == old(c)@.executed,
        final(c)@.finality_idx == old(c)@.finality_idx,
        final(c)@.commit_idx == old(c)@.commit_idx,
        final(c)@.num_txs == old(c)@.num_txs,
{
    old(c).wf_of_model();
    rollbacks_stamp_and_move_back(old(c)@, index, 0);
    assert forall|j: int|
        0 <= j < old(c)@.num_txs && j != index implies #[trigger] final(c)@.lower_ts[j]
        == old(c)@.lower_ts[j] by {
        rollbacks_stamp_and_move_back(old(c)@, index, j);
    }
}

/// A draw gives the time and moves the clock on, so that two draws in a row differ by one.
pub proof fn context_draws_in_order(
    c: &mut SchedulerContext,
    d: &mut SchedulerContext,
    r: usize,
    s: usize,
)
    requires
        call_ensures(SchedulerContext::logical_timestamp, (c,), r),
        call_ensures(SchedulerContext::logical_timestamp, (d,), s),
        *old(d) == *final(c),
        r < usize::MAX,
    ensures
        s == r + 1,
        final(c)@.lower_ts == old(c)@.lower_ts,
        final(c)@.unconfirmed_ts == old(c)@.unconfirmed_ts,
        final(c)@.validation_idx == old(c)@.validation_idx,
{
}

/// A new context stands at the beginning, and its first draw is one.
pub proof fn context_starts_at_the_beginning(num_txs: usize, c: SchedulerContext, i: int)
    requires
        call_ensures(SchedulerContext::new, (num_txs,), c),
    ensures
        c@.num_txs == num_txs,
        c@.validation_idx == 0 && c@.finality_idx == 0 && c@.commit_idx == 0,
        c@.logical_ts == 1,
        c@.resets == 0,
        c@.executed.len() == num_txs && c@.lower_ts.len() == num_txs && c@.unconfirmed_ts.len()
            == num_txs,
        0 <= i < num_txs ==> !c@.executed[i] && c@.lower_ts[i] == 0 && c@.unconfirmed_ts[i] == 0,
{
}

/// An execution and a validation are noted for their transaction alone.
pub proof fn context_notes_executions_and_validations(
    c: &mut SchedulerContext,
    d: &mut SchedulerContext,
    index: usize,
    ts: usize,
    j: int,
)
    requires
        old(c).wf(),
        old(d).wf(),
        index < old(c)@.num_txs,
        index < old(d)@.num_txs,
        call_ensures(SchedulerContext::executed, (c, index), ()),
        call_ensures(SchedulerContext::unconfirmed, (d, index, ts), ()),
    ensures
        joined_executed(old(c)@, final(c)@, index),
        final(c)@.validation_idx == old(c)@.validation_idx,
        final(c)@.logical_ts == old(c)@.logical_ts,
        final(d)@.unconfirmed_ts[index as int] >= ts,
        final(d)@.unconfirmed_ts[index as int] >= old(d)@.unconfirmed_ts[index as int],
        final(d)@.unconfirmed_ts[index as int] == ts || final(d)@.unconfirmed_ts[index as int]
            == old(d)@.unconfirmed_ts[index as int],
        0 <= j < old(d)@.num_txs && j != index ==> final(d)@.unconfirmed_ts[j]
            == old(d)@.unconfirmed_ts[j],
        final(d)@.lower_ts == old(d)@.lower_ts,
        final(d)@.logical_ts == old(d)@.logical_ts,
{
    old(c).wf_of_model();
    old(d).wf_of_model();
}

/// The transaction at the cursor is handed out for validation exactly where it stands before the
/// execution cursor and it and everything before it has been executed; then the cursor moves on by
/// one. Something may be to do exactly where that is so or something is left to execute.
pub proof fn context_hands_out_the_executed_prefix(
    c: &mut SchedulerContext,
    executing_idx: usize,
    r: Option<usize>,
    due: bool,
)
    requires
        old(c).wf(),
        call_ensures(SchedulerContext::next_validation_idx, (c, executing_idx), r),
        call_ensures(SchedulerContext::should_schedule, (&*old(c), executing_idx), due),
    ensures
        ({
            let at = old(c)@.validation_idx;
            let ready = at < executing_idx && at < old(c)@.num_txs && forall|j: int|
                0 <= j <= at ==> #[trigger] old(c)@.executed[j];
            &&& r is Some <==> ready
            &&& r matches Some(index) ==> index == at && final(c)@.validation_idx == at + 1
            &&& r is None ==> final(c)@ == old(c)@
            &&& due <==> ready || executing_idx < old(c)@.num_txs
        }),
        final(c)@.lower_ts == old(c)@.lower_ts,
        final(c)@.unconfirmed_ts == old(c)@.unconfirmed_ts,
        final(c)@.logical_ts == old(c)@.logical_ts,
        final(c)@.finality_idx == old(c)@.finality_idx,
{
    old(c).wf_of_model();
    validation_needs_an_executed_prefix(old(c)@, executing_idx);
}

/// What a context tells of itself.
pub proof fn context_tells_where_it_stands(
    c: &SchedulerContext,
    index: usize,
    finished: bool,
    finality_idx: usize,
    validation_idx: usize,
    commit_idx: usize,
    resets: usize,
    lower_ts: usize,
    unconfirmed_ts: usize,
)
    requires
        call_ensures(SchedulerContext::finished, (c,), finished),
        call_ensures(SchedulerContext::finality_idx, (c,), finality_idx),
        call_ensures(SchedulerContext::validation_idx, (c,), validation_idx),
        call_ensures(SchedulerContext::commit_idx, (c,), commit_idx),
        call_ensures(SchedulerContext::reset_validation_idx_cnt, (c,), resets),
        call_ensures(SchedulerContext::lower_ts, (c, index), lower_ts),
        call_ensures(SchedulerContext::unconfirmed_ts, (c, index), unconfirmed_ts),
    ensures
        finished <==> finality_idx >= c@.num_txs,
        finality_idx == c@.finality_idx,
        validation_idx == c@.validation_idx,
        commit_idx == c@.commit_idx,
        resets == c@.resets,
        lower_ts == c@.lower_ts[index as int],
        unconfirmed_ts == c@.unconfirmed_ts[index as int],
{
}

/// Finality and commit advance by one, each alone.
pub proof fn context_advances_one_by_one(c: &mut SchedulerContext, d: &mut SchedulerContext)
    requires
        old(c).wf(),
        old(d).wf(),
        old(c)@.finality_idx < old(c)@.num_txs,
        old(d)@.commit_idx < old(d)@.finality_idx,
        call_ensures(SchedulerContext::advance_finality, (c,), ()),
        call_ensures(SchedulerContext::advance_commit, (d,), ()),
    ensures
        final(c)@.finality_idx == old(c)@.finality_idx + 1,
        final(c)@.commit_idx == old(c)@.commit_idx,
        final(c)@.validation_idx == old(c)@.validation_idx,
        final(d)@.commit_idx == old(d)@.commit_idx + 1,
        final(d)@.finality_idx == old(d)@.finality_idx,
        final(d)@.validation_idx == old(d)@.validation_idx,
{
}

/// The report holds each counter once, under its own name.
pub proof fn report_holds_every_counter(c: &ExecuteMetricsCollector, r: Vec<(Metric, usize)>)
    requires
        call_ensures(ExecuteMetricsCollector::report, (c,), r),
    ensures
        samples_once(r@, Metric::TotalTxCnt, c.total_tx_cnt),
        samples_once(r@, Metric::ConflictCnt, c.conflict_cnt),
        samples_once(r@, Metric::ValidationCnt, c.validation_cnt),
        samples_once(r@, Metric::ExecutionCnt, c.execution_cnt),
        samples_once(r@, Metric::ResetValidationIdxCnt, c.reset_validation_idx_cnt),
        samples_once(r@, Metric::UselessDependentUpdate, c.useless_dependent_update),
        samples_once(r@, Metric::ConflictByMiner, c.conflict_by_miner),
        samples_once(r@, Metric::ConflictByError, c.conflict_by_error),
        samples_once(r@, Metric::ConflictByEstimate, c.conflict_by_estimate),
        samples_once(r@, Metric::ConflictByVersion, c.conflict_by_version),
        samples_once(r@, Metric::OneAttemptWithDependency, c.one_attempt_with_dependency),
        samples_once(r@, Metric::MoreAttemptsWithDependency, c.more_attempts_with_dependency),
        samples_once(r@, Metric::NoDependencyTxs, c.no_dependency_txs),
        samples_once(r@, Metric::ConflictTxs, c.conflict_txs),
        samples_once(r@, Metric::CommitTime, c.commit_time),
        samples_once(r@, Metric::TotalTime, c.total_time),
        c.execution_time > 0 ==> r@.len() == 17 && samples_once(
            r@,
            Metric::ExecutionTime,
            c.execution_time,
        ),
        c.execution_time == 0 ==> r@.len() == 16,
{
    every_counter_is_reported(*c);
}

// Sequential runs

/// A run starts where it is told, hands out one transaction after the other up to the end, keeps
/// their results in order, and names the transaction that fails.
pub proof fn sequential_runs_name_their_transactions<X, E>(
    start: TxId,
    end: TxId,
    fresh: SequentialRun<X>,
    run: &mut SequentialRun<X>,
    result: X,
    first: Option<TxId>,
    now: Option<TxId>,
    then: Option<TxId>,
    error: E,
    failure: GrevmError<E>,
    results: Vec<X>,
    i: int,
)
    requires
        start <= end,
        call_ensures(SequentialRun::<X>::new, (start, end), fresh),
        call_ensures(SequentialRun::<X>::next_tx, (&fresh,), first),
        old(run)@.wf(),
        old(run)@.next < old(run)@.end,
        call_ensures(SequentialRun::<X>::next_tx, (&*old(run),), now),
        call_ensures(SequentialRun::<X>::executed, (run, result), ()),
        call_ensures(SequentialRun::<X>::next_tx, (&*final(run),), then),
        call_ensures(SequentialRun::<X>::fail::<E>, (*old(run), error), failure),
        call_ensures(SequentialRun::<X>::into_results, (*final(run),), results),
    ensures
        start < end ==> first == Some(start),
        start == end ==> first is None,
        now == Some(old(run)@.next),
        then is None <==> now->0 + 1 == old(run)@.end,
        then is Some ==> then->0 == now->0 + 1,
        failure.txid == now->0,
        failure.error == error,
        results@.len() == old(run)@.results.len() + 1,
        results@.last() == result,
        0 <= i < old(run)@.results.len() ==> results@[i] == old(run)@.results[i],
{
}

// The scheduler

/// A new scheduler has nothing done.
pub proof fn schedulers_start_with_nothing_done<S, X, O, E>(
    num_txs: usize,
    state: S,
    s: Scheduler<S, X, O, E>,
    r: (Vec<X>, S),
    size: usize,
    i: int,
)
    requires
        call_ensures(Scheduler::<S, X, O, E>::new, (num_txs, state), s),
        call_ensures(Scheduler::<S, X, O, E>::take_result_and_state, (s,), r),
        call_ensures(Scheduler::<S, X, O, E>::block_size, (&s,), size),
    ensures
        size == num_txs,
        s@.states.len() == num_txs,
        0 <= i < num_txs ==> {
            &&& s@.states[i].status == TransactionStatus::Initial
            &&& s@.states[i].incarnation == 0
            &&& s@.states[i].dependency is None
            &&& s@.tx_results[i] is None
        },
        s@.memory.dom() == Set::<LocationKey>::empty(),
        s@.ctx.validation_idx == 0 && s@.ctx.finality_idx == 0 && s@.ctx.commit_idx == 0,
        s@.abort_reason is None,
        !s@.committing,
        r.0@.len() == 0,
        r.1 == state,
{
    crate::basics::blocks_start_with_nothing_done::<S, X, O, E>(num_txs, state, i);
}

/// A transaction that waits is handed out in its next incarnation; of any other the graph is told
/// that nobody needs to wait for it.
pub proof fn handing_out_takes_what_waits<S, X, O, E>(
    s: &mut Scheduler<S, X, O, E>,
    txid: TxId,
    r: Dispatch,
)
    requires
        old(s).wf(),
        txid < old(s)@.ctx.num_txs,
        waits_to_run(old(s)@.states[txid as int]) ==> old(s)@.states[txid as int].incarnation
            < usize::MAX,
        call_ensures(Scheduler::<S, X, O, E>::execution_task, (s, txid), r),
    ensures
        waits_to_run(old(s)@.states[txid as int]) ==> {
            &&& r matches Dispatch::Run(Task::Execution(version))
            &&& version.txid == txid
            &&& version.incarnation == old(s)@.states[txid as int].incarnation + 1
            &&& final(s)@.states[txid as int].incarnation == version.incarnation
            &&& final(s)@.states[txid as int].status == TransactionStatus::Executing
        },
        !waits_to_run(old(s)@.states[txid as int]) ==> r == Dispatch::Dependency(
            DependencyAction::Remove(txid, false),
        ) && final(s)@.states == old(s)@.states,
        same_block(old(s)@, final(s)@),
        only_changed(old(s)@, final(s)@, txid),
        final(s)@.memory == old(s)@.memory,
        final(s)@.ctx == old(s)@.ctx,
        final(s)@.abort_reason == old(s)@.abort_reason,
{
    old(s).wf_of_model();
    waiting_transactions_are_handed_out(old(s)@, txid);
    if !waits_to_run(old(s)@.states[txid as int]) {
        assert(final(s)@.states =~= old(s)@.states);
    }
}

/// A worker sets out exactly on what is to be executed, and learns how far the block is committed.
pub proof fn setting_out_tells_how_far_commits_are<S, X, O, E>(
    s: &mut Scheduler<S, X, O, E>,
    version: TxVersion,
    r: Option<TxId>,
)
    requires
        call_ensures(Scheduler::<S, X, O, E>::start_execute, (s, version), r),
    ensures
        r is Some <==> old(s)@.states[version.txid as int].status == TransactionStatus::Executing,
        r matches Some(commit_idx) ==> commit_idx == old(s)@.ctx.commit_idx,
        final(s)@.states == old(s)@.states,
        final(s)@.memory == old(s)@.memory,
        final(s)@.ctx == old(s)@.ctx,
        final(s)@.tx_results == old(s)@.tx_results,
{
}

/// An execution that the virtual machine completed conflicts exactly where it did not read
/// accurately or read an estimate. In conflict it waits: for all before it where it did not read
/// accurately, else for its greatest supplier that is not final. Without conflict it is done. It is
/// kept whole, and its writes are published.
pub proof fn completed_executions_are_taken_in<S, X, O, E>(
    s: &mut Scheduler<S, X, O, E>,
    version: TxVersion,
    commit_idx: TxId,
    execution: Execution<O>,
    r: Executed,
    key: LocationKey,
)
    requires
        old(s).wf(),
        version.txid < old(s)@.ctx.num_txs,
        old(s)@.states[version.txid as int].status == TransactionStatus::Executing,
        old(s)@.states[version.txid as int].incarnation == version.incarnation,
        call_ensures(
            Scheduler::<S, X, O, E>::execute,
            (s, version, commit_idx, Ok::<Execution<O>, E>(execution)),
            r,
        ),
    ensures
        ({
            let txid = version.txid;
            let conflict = !execution.read_accurate_origin || execution.blocking_txs@.len() > 0;
            let after = final(s)@.states[txid as int];
            let elsewhere = writes_elsewhere(
                old(s)@.tx_results[txid as int],
                execution.write_set@,
            );
            &&& r.version == version
            &&& after.status == TransactionStatus::Conflict <==> conflict
            &&& after.status == TransactionStatus::Executed <==> !conflict && elsewhere
            &&& after.status == TransactionStatus::Validating <==> !conflict && !elsewhere
            &&& r.followup == Followup::Rerun <==> conflict
            &&& r.followup == Followup::Revalidate <==> !conflict && elsewhere
            &&& r.dependency == DependencyAction::KeyTx(txid)
                <==> !execution.read_accurate_origin
            &&& r.dependency == DependencyAction::Remove(txid, true) <==> !conflict
            &&& r.dependency is Remove <==> !conflict
            &&& r.dependency is KeyTx <==> !execution.read_accurate_origin
            &&& r.dependency matches DependencyAction::Add(waiting, found) ==> waiting == txid
                && is_greatest_supplier(
                final(s)@.memory,
                execution.read_set@,
                txid,
                old(s)@.ctx.finality_idx,
                found,
            )
            &&& final(s)@.tx_results[txid as int] matches Some(kept)
            &&& kept.read_set == execution.read_set@
            &&& kept.write_set == execution.write_set@
            &&& kept.execute_result == Ok::<O, E>(execution.output)
            &&& has_version(final(s)@.memory, key, txid) <==> execution.write_set@.contains(key)
            &&& execution.write_set@.contains(key) ==> final(s)@.memory[key][txid] == (
            MemoryEntry { incarnation: version.incarnation, estimate: conflict })
            &&& only_versions_changed(old(s)@, final(s)@, txid)
            &&& joined_executed(old(s)@.ctx, final(s)@.ctx, txid)
            &&& conflict ==> rolled_back(old(s)@.ctx, final(s)@.ctx, txid + 1)
            &&& !conflict && elsewhere ==> rolled_back(
                old(s)@.ctx,
                final(s)@.ctx,
                txid as int,
            )
            &&& !conflict && !elsewhere ==> final(s)@.ctx.validation_idx
                == old(s)@.ctx.validation_idx && final(s)@.ctx.lower_ts == old(s)@.ctx.lower_ts
            &&& after.incarnation == version.incarnation
            &&& same_block(old(s)@, final(s)@)
            &&& only_changed(old(s)@, final(s)@, txid)
            &&& final(s)@.abort_reason == old(s)@.abort_reason
        }),
{
    let m = old(s)@;
    let accurate = execution.read_accurate_origin;
    let blocked = execution.blocking_txs@.len() > 0;
    let result = execution.result::<E>();
    old(s).wf_of_model();
    executions_conflict_or_await_validation(m, version, accurate, blocked, result);
    conflicting_executions_wait(m, version, accurate, blocked, result);
    executions_publish_their_writes(m, version, accurate, blocked, result, key);
    executions_roll_validation_back(m, version, accurate, blocked, result);
}

/// An execution that failed leaves its transaction in conflict, waiting for all before it. It gives
/// the block up exactly where everything before it was committed when it started, and no reason was
/// given before.
pub proof fn failed_executions_are_taken_in<S, X, O, E>(
    s: &mut Scheduler<S, X, O, E>,
    version: TxVersion,
    commit_idx: TxId,
    error: E,
    r: Executed,
    key: LocationKey,
)
    requires
        old(s).wf(),
        version.txid < old(s)@.ctx.num_txs,
        old(s)@.states[version.txid as int].status == TransactionStatus::Executing,
        call_ensures(
            Scheduler::<S, X, O, E>::execute,
            (s, version, commit_idx, Err::<Execution<O>, E>(error)),
            r,
        ),
    ensures
        r.version == version,
        r.dependency == DependencyAction::KeyTx(version.txid),
        r.followup == Followup::Rerun,
        final(s)@.states[version.txid as int].status == TransactionStatus::Conflict,
        final(s)@.states[version.txid as int].incarnation
            == old(s)@.states[version.txid as int].incarnation,
        final(s)@.tx_results[version.txid as int] matches Some(kept) && kept.execute_result
            == Err::<O, E>(error),
        has_version(final(s)@.memory, key, version.txid) == has_version(
            old(s)@.memory,
            key,
            version.txid,
        ),
        has_version(final(s)@.memory, key, version.txid)
            ==> final(s)@.memory[key][version.txid].estimate,
        only_versions_changed(old(s)@, final(s)@, version.txid),
        joined_executed(old(s)@.ctx, final(s)@.ctx, version.txid),
        rolled_back(old(s)@.ctx, final(s)@.ctx, version.txid + 1),
        same_block(old(s)@, final(s)@),
        only_changed(old(s)@, final(s)@, version.txid),
        commit_idx != version.txid ==> final(s)@.abort_reason == old(s)@.abort_reason,
        old(s)@.abort_reason is Some ==> final(s)@.abort_reason == old(s)@.abort_reason,
        commit_idx == version.txid && old(s)@.abort_reason is None ==> final(s)@.abort_reason
            == Some(AbortReason::EvmError),
{
    let m = old(s)@;
    old(s).wf_of_model();
    failed_executions_run_again(m, version, commit_idx, error, key);
    only_the_first_uncommitted_fails_the_block(m, version, commit_idx, error);
    assert(has_version(m.memory, key, version.txid) == crate::model::wrote(
        m.memory,
        key,
        version.txid,
    ));
    if has_version(m.memory, key, version.txid) {
        assert(m.entry_wf(key, version.txid));
    }
}

/// A worker goes on with the transaction that the graph handed back, if that waits to run;
/// otherwise with the validation that is left to it; otherwise it looks for work.
pub proof fn workers_go_on<S, X, O, E>(
    s: &mut Scheduler<S, X, O, E>,
    executed: Executed,
    next: TxId,
    r: Dispatch,
    t: &mut Scheduler<S, X, O, E>,
    alone: Dispatch,
)
    requires
        old(s).wf(),
        *old(t) == *old(s),
        executed.version.txid < old(s)@.ctx.num_txs,
        executed.followup == Followup::Validate
            ==> old(s)@.states[executed.version.txid as int].status
            == TransactionStatus::Validating,
        next < old(s)@.ctx.num_txs,
        waits_to_run(old(s)@.states[next as int]) ==> old(s)@.states[next as int].incarnation
            < usize::MAX,
        call_ensures(Scheduler::<S, X, O, E>::after_execute, (s, executed, Some(next)), r),
        call_ensures(Scheduler::<S, X, O, E>::after_execute, (t, executed, None), alone),
    ensures
        final(t)@ == old(t)@,
        executed.followup == Followup::Validate ==> alone == Dispatch::Run(
            Task::Validation(executed.version),
        ),
        executed.followup != Followup::Validate ==> alone == Dispatch::Idle,
        executed.followup == Followup::Rerun ==> r == Dispatch::Idle && final(s)@ == old(s)@,
        executed.followup != Followup::Rerun && waits_to_run(old(s)@.states[next as int]) ==> {
            &&& r matches Dispatch::Run(Task::Execution(version))
            &&& version.txid == next
            &&& version.incarnation == old(s)@.states[next as int].incarnation + 1
            &&& final(s)@.states[next as int].status == TransactionStatus::Executing
            &&& final(s)@.states[next as int].incarnation == version.incarnation
        },
        executed.followup != Followup::Rerun && !waits_to_run(old(s)@.states[next as int]) ==> r
            == Dispatch::Dependency(DependencyAction::Remove(next, false)),
        executed.followup == Followup::Revalidate ==> final(s)@.ctx == old(s)@.ctx,
        executed.followup == Followup::Validate ==> rolled_back(
            old(s)@.ctx,
            final(s)@.ctx,
            executed.version.txid as int,
        ) && final(s)@.states[executed.version.txid as int].status
            == TransactionStatus::Executed,
        final(s)@.memory == old(s)@.memory,
        final(s)@.tx_results == old(s)@.tx_results,
        final(s)@.abort_reason == old(s)@.abort_reason,
        same_block(old(s)@, final(s)@),
{
    old(s).wf_of_model();
    workers_go_on_after_an_execution(old(s)@, executed.version, executed.followup, next);
}

/// A validation passes exactly where every read sees the same again. Where it does not, the
/// transaction waits for its greatest supplier that is not final, and for nobody where there is no
/// supplier that is not final.
pub proof fn validations_look_again<S, X, O, E>(
    s: &mut Scheduler<S, X, O, E>,
    version: TxVersion,
    r: Option<DependencyAction>,
    key: LocationKey,
)
    requires
        old(s).wf(),
        version.txid < old(s)@.ctx.num_txs,
        call_ensures(Scheduler::<S, X, O, E>::validate, (s, version), r),
    ensures
        ({
            let txid = version.txid;
            let validating = old(s)@.states[txid as int].status == TransactionStatus::Validating;
            let passed = all_seen_again(old(s)@, txid);
            let after = final(s)@.states[txid as int];
            let reads = old(s)@.tx_results[txid as int]->0.read_set;
            &&& !validating ==> r is None && final(s)@ == old(s)@
            &&& validating ==> {
                &&& r is None <==> passed
                &&& after.status == TransactionStatus::Unconfirmed <==> passed
                &&& after.status == TransactionStatus::Conflict <==> !passed
                &&& is_greatest_supplier(old(s)@.memory, reads, txid, 0, after.dependency)
                &&& after.incarnation == old(s)@.states[txid as int].incarnation
                &&& passed ==> final(s)@.memory == old(s)@.memory
                    && final(s)@.ctx.unconfirmed_ts[txid as int] >= old(s)@.ctx.logical_ts
                    && final(s)@.ctx.lower_ts == old(s)@.ctx.lower_ts
                    && final(s)@.ctx.validation_idx == old(s)@.ctx.validation_idx
                &&& !passed ==> rolled_back(old(s)@.ctx.tick(), final(s)@.ctx, txid + 1) && (
                has_version(final(s)@.memory, key, txid)
                    ==> final(s)@.memory[key][txid].estimate)
                &&& has_version(final(s)@.memory, key, txid) == has_version(
                    old(s)@.memory,
                    key,
                    txid,
                )
                &&& only_versions_changed(old(s)@, final(s)@, txid)
            }
            &&& r matches Some(action) ==> {
                &&& action matches DependencyAction::Add(waiting, found)
                &&& waiting == txid
                &&& is_greatest_supplier(
                    old(s)@.memory,
                    reads,
                    txid,
                    old(s)@.ctx.finality_idx,
                    found,
                )
                &&& found matches Some(id) ==> supplies(old(s)@.memory, reads, txid, id)
                    && old(s)@.states[id as int].status != TransactionStatus::Finality
                &&& found is None <==> forall|id: TxId| #[trigger]
                    supplies(old(s)@.memory, reads, txid, id) ==> old(s)@.states[id as int].status
                        == TransactionStatus::Finality
            }
            &&& same_block(old(s)@, final(s)@)
            &&& only_changed(old(s)@, final(s)@, txid)
            &&& final(s)@.tx_results == old(s)@.tx_results
            &&& final(s)@.abort_reason == old(s)@.abort_reason
        }),
{
    old(s).wf_of_model();
    validation_passes_what_is_seen_again(old(s)@, version.txid, key);
    conflicting_validations_wait_for_their_supplier(old(s)@, version.txid);
}

/// A worker stops exactly where every transaction is final or the block was given up. Otherwise it
/// validates the transaction at the cursor where that is due and wanted, and else asks the graph,
/// after others where nothing may be ready.
pub proof fn looking_for_work_finds_validations_first<S, X, O, E>(
    s: &mut Scheduler<S, X, O, E>,
    executing_idx: usize,
    r: NextStep,
)
    requires
        old(s).wf(),
        call_ensures(Scheduler::<S, X, O, E>::next, (s, executing_idx), r),
    ensures
        ({
            let m = old(s)@;
            let n = final(s)@;
            let at = m.ctx.validation_idx;
            let over = m.ctx.finality_idx >= m.ctx.num_txs || m.abort_reason is Some;
            let due = validation_due(m, executing_idx);
            let wanted = due && (m.states[at as int].status == TransactionStatus::Executed
                || m.states[at as int].status == TransactionStatus::Unconfirmed);
            &&& r is Stop <==> over
            &&& r is Run <==> wanted
            &&& r matches NextStep::Run(task) ==> {
                &&& task matches Task::Validation(version)
                &&& version.txid == at
                &&& version.incarnation == m.states[at as int].incarnation
                &&& n.states[at as int].status == TransactionStatus::Validating
            }
            &&& r matches NextStep::Pull { idle } ==> (idle <==> !due && executing_idx
                >= m.ctx.num_txs)
            &&& due ==> n.ctx.validation_idx == at + 1
            &&& !due ==> n == m
            &&& only_changed(m, n, at)
            &&& n.tx_results == m.tx_results
            &&& n.memory == m.memory
            &&& n.metrics == m.metrics
            &&& n.abort_reason == m.abort_reason
            &&& same_block(m, n)
        }),
{
    old(s).wf_of_model();
    workers_validate_at_the_cursor(old(s)@, executing_idx);
    validation_needs_an_executed_prefix(old(s)@.ctx, executing_idx);
}

/// The transactions that become final are the next ones with a fresh validation, and the distances
/// lead back from those that have a dependency to their dependencies.
pub proof fn finality_returns_distances<S, X, O, E>(
    s: &mut Scheduler<S, X, O, E>,
    r: Vec<usize>,
    i: int,
    k: int,
)
    requires
        old(s).wf(),
        call_ensures(Scheduler::<S, X, O, E>::async_finality, (s,), r),
    ensures
        ({
            let m = old(s)@;
            let n = final(s)@;
            let (from, to) = (m.ctx.finality_idx, n.ctx.finality_idx);
            let which = dependents(m.states, from as int, to as int);
            &&& from <= to <= m.ctx.num_txs
            &&& from <= k <= i < to ==> {
                &&& m.states[i].status == TransactionStatus::Unconfirmed
                &&& n.states[i].status == TransactionStatus::Finality
                &&& i < m.ctx.validation_idx
                &&& m.finality_ts < m.ctx.unconfirmed_ts[i]
                &&& m.ctx.lower_ts[k] < m.ctx.unconfirmed_ts[i]
            }
            &&& to < m.ctx.num_txs ==> {
                ||| m.states[to as int].status != TransactionStatus::Unconfirmed
                ||| m.ctx.validation_idx <= to
                ||| m.ctx.unconfirmed_ts[to as int] <= m.finality_ts
                ||| exists|j: int|
                    from <= j <= to && m.ctx.unconfirmed_ts[to as int]
                        <= #[trigger] m.ctx.lower_ts[j]
            }
            &&& leads_back(m.states, which, r@)
            &&& grew(
                m.metrics.no_dependency_txs,
                n.metrics.no_dependency_txs,
                tally(m.states, from as int, to as int, Attempts::Independent),
            )
            &&& grew(
                m.metrics.conflict_txs,
                n.metrics.conflict_txs,
                tally(m.states, from as int, to as int, Attempts::Repeated),
            )
            &&& grew(
                m.metrics.one_attempt_with_dependency,
                n.metrics.one_attempt_with_dependency,
                tally(m.states, from as int, to as int, Attempts::DependentOnce),
            )
            &&& grew(
                m.metrics.more_attempts_with_dependency,
                n.metrics.more_attempts_with_dependency,
                tally(m.states, from as int, to as int, Attempts::DependentOften),
            )
            &&& n.memory == m.memory
            &&& n.tx_results == m.tx_results
            &&& n.abort_reason == m.abort_reason
        }),
{
    old(s).wf_of_model();
    finality_takes_the_fresh_in_order(old(s)@, i, k);
    distances_lead_back_to_dependencies(old(s)@);
    finality_counts_by_attempts(old(s)@);
}

/// The first final transaction that is not committed is handed over with its output, once; where
/// outputs are not committed one by one it counts as committed. Where there is none, nothing
/// happens.
pub proof fn commits_hand_over_the_first_final<S, X, O, E>(
    s: &mut Scheduler<S, X, O, E>,
    async_commit: bool,
    r: Option<CommitStep<O>>,
)
    requires
        old(s).wf(),
        !old(s)@.committing,
        call_ensures(Scheduler::<S, X, O, E>::async_commit, (s, async_commit), r),
    ensures
        ({
            let m = old(s)@;
            let n = final(s)@;
            let at = m.ctx.commit_idx;
            let pending = at < m.ctx.finality_idx;
            &&& r is Some <==> pending
            &&& !pending ==> n == m
            &&& pending && async_commit ==> {
                &&& r matches Some(CommitStep::Apply(txid, output))
                &&& txid == at
                &&& m.tx_results[at as int] matches Some(kept)
                &&& kept.execute_result == Ok::<O, E>(output)
                &&& n.tx_results[at as int] is None
                &&& n.committing
                &&& n.ctx == m.ctx
            }
            &&& pending && !async_commit ==> {
                &&& r matches Some(CommitStep::Passed(action))
                &&& action == DependencyAction::Commit(at)
                &&& n.ctx.commit_idx == at + 1
                &&& n.tx_results == m.tx_results
            }
            &&& n.states == m.states
            &&& n.memory == m.memory
            &&& n.results == m.results
            &&& n.abort_reason == m.abort_reason
        }),
{
    old(s).wf_of_model();
}

/// A commit that went well moves the cursor and is told to the graph; one that failed gives the
/// block up and is not.
pub proof fn commits_end<S, X, O, E>(
    s: &mut Scheduler<S, X, O, E>,
    ok: bool,
    nanos: usize,
    r: Option<DependencyAction>,
)
    requires
        old(s).wf(),
        old(s)@.committing,
        call_ensures(Scheduler::<S, X, O, E>::commit_finished, (s, ok, nanos), r),
    ensures
        ok ==> r == Some(DependencyAction::Commit(old(s)@.ctx.commit_idx))
            && final(s)@.ctx.commit_idx == old(s)@.ctx.commit_idx + 1 && !final(s)@.committing
            && final(s)@.abort_reason == old(s)@.abort_reason,
        !ok ==> r is None && final(s)@.ctx.commit_idx == old(s)@.ctx.commit_idx
            && final(s)@.abort_reason is Some,
        !ok && old(s)@.abort_reason is None ==> final(s)@.abort_reason == Some(
            AbortReason::EvmError,
        ),
        final(s)@.states == old(s)@.states,
        final(s)@.memory == old(s)@.memory,
        old(s)@.metrics.commit_time + nanos <= usize::MAX ==> final(s)@.metrics.commit_time
            == old(s)@.metrics.commit_time + nanos,
{
    old(s).wf_of_model();
    crate::meaning::commits_move_on_or_give_up(old(s)@, ok, nanos);
}

/// The first reason to give up is kept, and nothing else changes.
pub proof fn giving_up_is_kept<S, X, O, E>(
    s: &mut Scheduler<S, X, O, E>,
    reason: AbortReason,
    given_up: bool,
)
    requires
        call_ensures(Scheduler::<S, X, O, E>::abort, (s, reason), ()),
        call_ensures(Scheduler::<S, X, O, E>::aborted, (&*final(s),), given_up),
    ensures
        given_up,
        old(s)@.abort_reason is None ==> final(s)@.abort_reason == Some(reason),
        old(s)@.abort_reason is Some ==> final(s)@.abort_reason == old(s)@.abort_reason,
        final(s)@.states == old(s)@.states,
        final(s)@.memory == old(s)@.memory,
        final(s)@.ctx == old(s)@.ctx,
        final(s)@.metrics == old(s)@.metrics,
{
}

/// The plan is sequential exactly where that is forced or the block has fewer than 64
/// transactions. Otherwise there are as many workers as the caller asks for, else as the
/// environment says, else as by default.
pub proof fn plans_follow_the_caller<S, X, O, E>(
    s: &mut Scheduler<S, X, O, E>,
    requested: Option<usize>,
    configured: Option<&str>,
    default_level: usize,
    force_sequential: bool,
    r: ExecutionPlan,
    level: usize,
)
    requires
        call_ensures(
            Scheduler::<S, X, O, E>::parallel_execute,
            (s, requested, configured, default_level, force_sequential),
            r,
        ),
        call_ensures(concurrency_level, (requested, configured, default_level), level),
    ensures
        r == ExecutionPlan::Sequential <==> force_sequential || old(s)@.ctx.num_txs < 64,
        r matches ExecutionPlan::Parallel(n) ==> n == level && (requested matches Some(asked) ==> n
            == asked),
        final(s)@.metrics.total_tx_cnt == old(s)@.ctx.num_txs,
        final(s)@.states == old(s)@.states,
        final(s)@.results == old(s)@.results,
        final(s)@.ctx == old(s)@.ctx,
{
}

/// What the committer hands back goes behind the results there are; its error comes back as it is
/// and changes nothing.
pub proof fn joining_takes_results_or_the_error<S, X, O, E>(
    s: &mut Scheduler<S, X, O, E>,
    results: Vec<X>,
    r: Result<(), GrevmError<E>>,
    t: &mut Scheduler<S, X, O, E>,
    error: GrevmError<E>,
    q: Result<(), GrevmError<E>>,
)
    requires
        call_ensures(
            Scheduler::<S, X, O, E>::join,
            (s, Ok::<Vec<X>, GrevmError<E>>(results)),
            r,
        ),
        call_ensures(
            Scheduler::<S, X, O, E>::join,
            (t, Err::<Vec<X>, GrevmError<E>>(error)),
            q,
        ),
    ensures
        r is Ok,
        final(s)@.results == old(s)@.results + results@,
        final(s)@.abort_reason == old(s)@.abort_reason,
        final(s)@.tx_results == old(s)@.tx_results,
        final(s)@.ctx == old(s)@.ctx,
        q == Err::<(), GrevmError<E>>(error),
        final(t)@ == old(t)@,
{
}

/// Once all threads have ended the block is done where nothing gave it up; an error of the virtual
/// machine is reported with the first transaction that is not final; and for any other reason the
/// rest is executed sequentially.
pub proof fn the_end_is_done_failed_or_sequential<S, X, O, E: Clone>(
    s: &Scheduler<S, X, O, E>,
    explained: bool,
    r: PostExecute<E>,
)
    requires
        call_ensures(Scheduler::<S, X, O, E>::abort_is_explained, (s,), explained),
        explained,
        call_ensures(Scheduler::<S, X, O, E>::post_execute, (s,), r),
    ensures
        r is Done <==> s@.abort_reason is None,
        r is Failed <==> s@.abort_reason == Some(AbortReason::EvmError),
        r matches PostExecute::Failed(failure) ==> {
            &&& failure.txid == s@.ctx.finality_idx
            &&& failure.txid < s@.ctx.num_txs
            &&& s@.tx_results[failure.txid as int] matches Some(kept)
            &&& kept.execute_result matches Err(error)
            &&& cloned(error, failure.error)
        },
        r is Sequential <==> s@.abort_reason == Some(AbortReason::SelfDestructed)
            || s@.abort_reason == Some(AbortReason::FallbackSequential),
{
}

/// Sequential execution takes up where the results end.
pub proof fn sequential_execution_takes_up<S, X, O, E>(
    s: &Scheduler<S, X, O, E>,
    count: usize,
    r: Option<SequentialRun<X>>,
    first: Option<TxId>,
)
    requires
        s@.results.len() <= s@.ctx.num_txs,
        call_ensures(Scheduler::<S, X, O, E>::num_results, (s,), count),
        call_ensures(Scheduler::<S, X, O, E>::fallback_sequential, (s,), r),
        r is Some ==> call_ensures(SequentialRun::<X>::next_tx, (&r->0,), first),
    ensures
        r is None <==> count == s@.ctx.num_txs,
        r matches Some(run) ==> first == Some(count) && run@.end == s@.ctx.num_txs
            && run@.results.len() == 0,
{
}

/// A transaction that was executed sequentially is counted and its result kept; at the end the
/// results go behind those that there are.
pub proof fn sequential_execution_adds_up<S, X, O, E>(
    s: &mut Scheduler<S, X, O, E>,
    run: &mut SequentialRun<X>,
    result: X,
    t: &mut Scheduler<S, X, O, E>,
    done: SequentialRun<X>,
)
    requires
        old(run)@.wf(),
        old(run)@.next < old(run)@.end,
        call_ensures(Scheduler::<S, X, O, E>::sequential_executed, (s, run, result), ()),
        call_ensures(Scheduler::<S, X, O, E>::sequential_finished, (t, done), ()),
    ensures
        final(run)@.next == old(run)@.next + 1,
        final(run)@.results == old(run)@.results.push(result),
        old(s)@.metrics.execution_cnt < usize::MAX ==> final(s)@.metrics.execution_cnt
            == old(s)@.metrics.execution_cnt + 1,
        final(s)@.results == old(s)@.results,
        final(t)@.results == old(t)@.results + done@.results,
        final(t)@.states == old(t)@.states,
{
}

/// The closing report holds the rollbacks and the time that it was given, and what was counted.
pub proof fn closing_report_is_complete<S, X, O, E>(
    s: &mut Scheduler<S, X, O, E>,
    nanos: usize,
    r: Vec<(Metric, usize)>,
    t: &mut Scheduler<S, X, O, E>,
    time: usize,
)
    requires
        call_ensures(Scheduler::<S, X, O, E>::report, (s, nanos), r),
        call_ensures(Scheduler::<S, X, O, E>::set_execution_time, (t, time), ()),
    ensures
        samples_once(r@, Metric::TotalTime, nanos),
        samples_once(r@, Metric::ResetValidationIdxCnt, old(s)@.ctx.resets),
        samples_once(r@, Metric::TotalTxCnt, old(s)@.metrics.total_tx_cnt),
        samples_once(r@, Metric::ConflictCnt, old(s)@.metrics.conflict_cnt),
        samples_once(r@, Metric::ValidationCnt, old(s)@.metrics.validation_cnt),
        samples_once(r@, Metric::ExecutionCnt, old(s)@.metrics.execution_cnt),
        samples_once(r@, Metric::UselessDependentUpdate, old(s)@.metrics.useless_dependent_update),
        samples_once(r@, Metric::CommitTime, old(s)@.metrics.commit_time),
        old(s)@.metrics.execution_time > 0 ==> samples_once(
            r@,
            Metric::ExecutionTime,
            old(s)@.metrics.execution_time,
        ),
        final(t)@.metrics.execution_time == time,
        final(t)@.metrics.commit_time == old(t)@.metrics.commit_time,
        final(t)@.states == old(t)@.states,
{
    every_counter_is_reported(final(s)@.metrics);
}

/// What a scheduler tells of itself.
pub proof fn schedulers_tell_where_they_stand<S, X, O, E>(
    s: &Scheduler<S, X, O, E>,
    txid: TxId,
    tx: TxState,
    finality: bool,
    commit: bool,
    context: &SchedulerContext,
    memory: &MVMemory,
    read_set: &ReadSet,
    writer: Option<TxId>,
    explained: bool,
)
    requires
        call_ensures(Scheduler::<S, X, O, E>::tx_state, (s, txid), tx),
        call_ensures(Scheduler::<S, X, O, E>::finality_running, (s,), finality),
        call_ensures(Scheduler::<S, X, O, E>::commit_running, (s,), commit),
        call_ensures(Scheduler::<S, X, O, E>::context, (s,), context),
        call_ensures(Scheduler::<S, X, O, E>::memory, (s,), memory),
        call_ensures(Scheduler::<S, X, O, E>::generate_dependent_tx, (s, txid, read_set), writer),
        call_ensures(Scheduler::<S, X, O, E>::abort_is_explained, (s,), explained),
    ensures
        tx == s@.states[txid as int],
        finality <==> s@.abort_reason is None && s@.ctx.finality_idx < s@.ctx.num_txs,
        commit <==> s@.abort_reason is None && s@.ctx.commit_idx < s@.ctx.num_txs,
        context@ == s@.ctx,
        memory@ == s@.memory,
        is_greatest_supplier(s@.memory, read_set@, txid, s@.ctx.finality_idx, writer),
        explained <==> (s@.abort_reason == Some(AbortReason::EvmError) ==> s@.ctx.finality_idx
            < s@.ctx.num_txs && s@.tx_results[s@.ctx.finality_idx as int] is Some
            && s@.tx_results[s@.ctx.finality_idx as int]->0.execute_result is Err),
{
    dependency_is_the_greatest_supplier(s@.memory, read_set@, txid, s@.ctx.finality_idx);
}

} // verus!
