use grevm::access::{ReadSet, WriteSet};
use grevm::config::ExecutionPlan;
use grevm::location::{Address, LocationAndType};
use grevm::metrics::Metric;
use grevm::model::{Dispatch, Followup};
use grevm::scheduler::{CommitStep, Execution, NextStep, PostExecute, Scheduler};
use grevm::types::{
    AbortReason, DependencyAction, GrevmError, MemoryEntry, ReadVersion, Task, TransactionStatus,
    TxId, TxVersion,
};

type Block = Scheduler<&'static str, u32, &'static str, String>;

fn block(num_txs: usize) -> Block {
    Scheduler::new(num_txs, "state")
}

fn loc(n: u128) -> LocationAndType {
    LocationAndType::Basic(Address { high: 0, low: n })
}

fn version(txid: TxId, incarnation: usize) -> TxVersion {
    TxVersion { txid, incarnation }
}

fn from_tx(txid: TxId, incarnation: usize) -> ReadVersion {
    ReadVersion::MvMemory(version(txid, incarnation))
}

fn execution(reads: &[(u128, ReadVersion)], writes: &[u128]) -> Execution<&'static str> {
    let mut read_set = ReadSet::new();
    for (n, seen) in reads {
        read_set.insert(&loc(*n), *seen);
    }
    let mut write_set = WriteSet::new();
    for n in writes {
        write_set.insert(&loc(*n));
    }
    Execution {
        read_accurate_origin: true,
        blocking_txs: vec![],
        read_set,
        write_set,
        output: "output",
    }
}

/// Hands `txid` out and executes it; returns its version and what is left to do.
fn run(
    s: &mut Block,
    txid: TxId,
    reads: &[(u128, ReadVersion)],
    writes: &[u128],
) -> (TxVersion, Followup) {
    let v = match s.execution_task(txid) {
        Dispatch::Run(Task::Execution(v)) => v,
        other => panic!("{:?}", other),
    };
    let commit_idx = s.start_execute(v).unwrap();
    let executed = s.execute(v, commit_idx, Ok(execution(reads, writes)));
    (v, executed.followup)
}

fn fail(s: &mut Block, txid: TxId) -> TxVersion {
    let v = match s.execution_task(txid) {
        Dispatch::Run(Task::Execution(v)) => v,
        other => panic!("{:?}", other),
    };
    let commit_idx = s.start_execute(v).unwrap();
    let executed = s.execute(v, commit_idx, Err("revert".to_string()));
    assert_eq!(executed.dependency, DependencyAction::KeyTx(txid));
    assert_eq!(executed.followup, Followup::Rerun);
    v
}

/// Takes the next validation and carries it out.
fn validate_next(s: &mut Block, txid: TxId) -> Option<DependencyAction> {
    let n = s.block_size();
    match s.next(n) {
        NextStep::Run(Task::Validation(v)) => {
            assert_eq!(v.txid, txid);
            s.validate(v)
        }
        other => panic!("{:?}", other),
    }
}

fn status(s: &Block, txid: TxId) -> TransactionStatus {
    s.tx_state(txid).status
}

#[test]
fn new_scheduler_has_run_nothing() {
    let s = block(2);
    assert_eq!(s.block_size(), 2);
    assert_eq!(status(&s, 0), TransactionStatus::Initial);
    assert_eq!(s.tx_state(1).incarnation, 0);
    assert!(!s.aborted());
    assert!(s.finality_running());
    assert!(s.commit_running());
    let (results, state) = s.take_result_and_state();
    assert_eq!(results, vec![]);
    assert_eq!(state, "state");
}

#[test]
fn empty_block_is_finished() {
    let mut s = block(0);
    assert!(matches!(s.next(0), NextStep::Stop));
    assert!(!s.finality_running());
    assert!(!s.commit_running());
    assert!(s.fallback_sequential().is_none());
}

#[test]
fn transactions_are_handed_out_in_their_next_incarnation() {
    let mut s = block(2);
    assert_eq!(s.execution_task(1), Dispatch::Run(Task::Execution(version(1, 1))));
    assert_eq!(status(&s, 1), TransactionStatus::Executing);
    // It is running already: nobody needs to wait for it.
    assert_eq!(
        s.execution_task(1),
        Dispatch::Dependency(DependencyAction::Remove(1, false))
    );
    assert!(s.report(0).contains(&(Metric::UselessDependentUpdate, 1)));
}

#[test]
fn only_an_executing_transaction_is_executed() {
    let mut s = block(1);
    assert_eq!(s.start_execute(version(0, 0)), None);
    s.execution_task(0);
    assert_eq!(s.start_execute(version(0, 1)), Some(0));
    assert!(s.report(0).contains(&(Metric::ExecutionCnt, 1)));
}

#[test]
fn independent_transactions_run_validate_and_commit() {
    let mut s = block(2);
    let (_, followup) = run(&mut s, 0, &[(10, ReadVersion::Storage)], &[10]);
    assert_eq!(followup, Followup::Revalidate);
    run(&mut s, 1, &[(20, ReadVersion::Storage)], &[20]);
    assert_eq!(validate_next(&mut s, 0), None);
    assert_eq!(validate_next(&mut s, 1), None);
    assert_eq!(status(&s, 1), TransactionStatus::Unconfirmed);
    assert_eq!(s.async_finality(), vec![]);
    assert_eq!(status(&s, 1), TransactionStatus::Finality);
    assert!(matches!(s.next(2), NextStep::Stop));
    for txid in 0..2 {
        match s.async_commit(true) {
            Some(CommitStep::Apply(id, output)) => assert_eq!((id, output), (txid, "output")),
            _ => panic!("no commit"),
        }
        assert_eq!(s.commit_finished(true, 5), Some(DependencyAction::Commit(txid)));
    }
    assert!(s.async_commit(true).is_none());
    assert!(!s.commit_running());
    assert!(matches!(s.join(Ok(vec![1, 2])), Ok(())));
    assert!(matches!(s.post_execute(), PostExecute::Done));
    let samples = s.report(99);
    assert!(samples.contains(&(Metric::ValidationCnt, 2)));
    assert!(samples.contains(&(Metric::NoDependencyTxs, 2)));
    assert!(samples.contains(&(Metric::CommitTime, 10)));
    assert!(samples.contains(&(Metric::TotalTime, 99)));
    assert_eq!(s.take_result_and_state().0, vec![1, 2]);
}

#[test]
fn writes_are_read_by_later_transactions() {
    let mut s = block(3);
    run(&mut s, 0, &[], &[1]);
    assert_eq!(
        s.memory().latest(&loc(1).key(), 2),
        Some((0, MemoryEntry { incarnation: 1, estimate: false }))
    );
    assert_eq!(s.memory().latest(&loc(1).key(), 0), None);
    run(&mut s, 2, &[(1, from_tx(0, 1))], &[]);
    run(&mut s, 1, &[], &[]);
    for txid in 0..3 {
        assert_eq!(validate_next(&mut s, txid), None);
    }
    assert_eq!(s.tx_state(2).dependency, Some(0));
    assert_eq!(s.async_finality(), vec![2]);
    assert!(s.report(0).contains(&(Metric::OneAttemptWithDependency, 1)));
}

#[test]
fn stale_read_conflicts_and_waits_for_the_writer() {
    let mut s = block(2);
    // Transaction 1 reads before transaction 0 writes.
    run(&mut s, 1, &[(1, ReadVersion::Storage)], &[2]);
    run(&mut s, 0, &[], &[1]);
    assert_eq!(validate_next(&mut s, 0), None);
    assert_eq!(validate_next(&mut s, 1), Some(DependencyAction::Add(1, Some(0))));
    assert_eq!(status(&s, 1), TransactionStatus::Conflict);
    assert_eq!(
        s.memory().latest(&loc(2).key(), 2),
        Some((1, MemoryEntry { incarnation: 1, estimate: true }))
    );
    // It runs again, writes the same location, and is all that has to be validated.
    let (v, followup) = run(&mut s, 1, &[(1, from_tx(0, 1))], &[2]);
    assert_eq!(v, version(1, 2));
    assert_eq!(followup, Followup::Validate);
    assert_eq!(s.validate(v), None);
    assert_eq!(s.async_finality(), vec![1]);
    assert!(s.report(0).contains(&(Metric::ConflictByVersion, 1)));
    assert!(s.report(0).contains(&(Metric::ConflictTxs, 1)));
}

#[test]
fn a_final_dependency_is_not_waited_for() {
    let mut s = block(2);
    run(&mut s, 1, &[(1, ReadVersion::Storage)], &[]);
    run(&mut s, 0, &[], &[1]);
    assert_eq!(validate_next(&mut s, 0), None);
    assert_eq!(s.async_finality(), vec![]);
    assert_eq!(validate_next(&mut s, 1), Some(DependencyAction::Add(1, None)));
}

#[test]
fn every_kind_of_outdated_read_conflicts() {
    // Another incarnation, another writer, storage in place of a write, a write in place of
    // storage, and an estimate.
    let cases: [(ReadVersion, bool, bool); 6] = [
        (from_tx(0, 1), true, false),
        (from_tx(0, 2), true, true),
        (from_tx(1, 1), true, true),
        (ReadVersion::Storage, true, true),
        (from_tx(0, 1), false, true),
        (ReadVersion::Storage, false, false),
    ];
    for (seen, written, conflict) in cases {
        let mut s = block(3);
        run(&mut s, 0, &[], if written { &[1] } else { &[] });
        run(&mut s, 1, &[], &[]);
        run(&mut s, 2, &[(1, seen)], &[]);
        validate_next(&mut s, 0);
        validate_next(&mut s, 1);
        assert_eq!(validate_next(&mut s, 2).is_some(), conflict, "{:?}", seen);
    }
    let mut s = block(2);
    run(&mut s, 0, &[(9, from_tx(0, 1))], &[1]);
    run(&mut s, 1, &[(1, from_tx(0, 1))], &[]);
    assert!(validate_next(&mut s, 0).is_some());
    assert_eq!(validate_next(&mut s, 1), Some(DependencyAction::Add(1, Some(0))));
}

#[test]
fn estimate_and_miner_reads_conflict_at_execution() {
    let mut s = block(3);
    run(&mut s, 0, &[], &[1]);
    s.execution_task(1);
    let mut blocked = execution(&[(1, from_tx(0, 1))], &[2]);
    blocked.blocking_txs = vec![0];
    let executed = s.execute(version(1, 1), 0, Ok(blocked));
    assert_eq!(executed.dependency, DependencyAction::Add(1, Some(0)));
    assert_eq!(executed.followup, Followup::Rerun);
    assert_eq!(status(&s, 1), TransactionStatus::Conflict);
    assert_eq!(
        s.memory().latest(&loc(2).key(), 2),
        Some((1, MemoryEntry { incarnation: 1, estimate: true }))
    );

    s.execution_task(2);
    let mut early = execution(&[(1, from_tx(0, 1))], &[]);
    early.read_accurate_origin = false;
    early.blocking_txs = vec![0];
    let executed = s.execute(version(2, 1), 0, Ok(early));
    assert_eq!(executed.dependency, DependencyAction::KeyTx(2));
    let samples = s.report(0);
    assert!(samples.contains(&(Metric::ConflictCnt, 2)));
    assert!(samples.contains(&(Metric::ConflictByEstimate, 1)));
    assert!(samples.contains(&(Metric::ConflictByMiner, 1)));
}

#[test]
fn success_releases_the_waiting() {
    let mut s = block(2);
    s.execution_task(0);
    let executed = s.execute(version(0, 1), 0, Ok(execution(&[], &[1])));
    assert_eq!(executed.version, version(0, 1));
    assert_eq!(executed.dependency, DependencyAction::Remove(0, true));
    // The graph hands back the next transaction, which runs right away.
    assert_eq!(
        s.after_execute(executed, Some(1)),
        Dispatch::Run(Task::Execution(version(1, 1)))
    );
    assert_eq!(status(&s, 0), TransactionStatus::Executed);
}

#[test]
fn worker_validates_what_wrote_nothing_new() {
    let mut s = block(3);
    run(&mut s, 0, &[(5, from_tx(0, 1))], &[1]);
    assert!(validate_next(&mut s, 0).is_some());
    s.execution_task(0);
    let executed = s.execute(version(0, 2), 0, Ok(execution(&[], &[1])));
    assert_eq!(executed.followup, Followup::Validate);
    assert_eq!(status(&s, 0), TransactionStatus::Validating);
    assert_eq!(
        s.after_execute(executed, None),
        Dispatch::Run(Task::Validation(version(0, 2)))
    );
    assert_eq!(s.validate(version(0, 2)), None);
}

#[test]
fn worker_leaves_validation_to_others_when_it_goes_on() {
    let mut s = block(2);
    run(&mut s, 0, &[(5, from_tx(0, 1))], &[1]);
    assert!(validate_next(&mut s, 0).is_some());
    s.execution_task(0);
    let executed = s.execute(version(0, 2), 0, Ok(execution(&[], &[1])));
    assert_eq!(
        s.after_execute(executed, Some(1)),
        Dispatch::Run(Task::Execution(version(1, 1)))
    );
    assert_eq!(status(&s, 0), TransactionStatus::Executed);
    assert_eq!(s.context().validation_idx(), 0);
    // The next one is running: the worker tells the graph and looks for other work.
    assert_eq!(
        s.after_execute(executed_of(0, Followup::Revalidate), Some(1)),
        Dispatch::Dependency(DependencyAction::Remove(1, false))
    );
    assert_eq!(s.after_execute(executed_of(0, Followup::Revalidate), None), Dispatch::Idle);
    assert_eq!(s.after_execute(executed_of(0, Followup::Rerun), None), Dispatch::Idle);
}

fn executed_of(txid: TxId, followup: Followup) -> grevm::scheduler::Executed {
    grevm::scheduler::Executed {
        version: version(txid, 2),
        dependency: DependencyAction::Remove(txid, true),
        followup,
    }
}

#[test]
fn new_and_retired_locations() {
    let mut s = block(2);
    run(&mut s, 0, &[(5, from_tx(0, 1))], &[1, 2]);
    assert!(validate_next(&mut s, 0).is_some());
    let (_, followup) = run(&mut s, 0, &[], &[2, 3]);
    assert_eq!(followup, Followup::Revalidate);
    let entry = MemoryEntry { incarnation: 2, estimate: false };
    assert_eq!(s.memory().latest(&loc(1).key(), 1), None);
    assert_eq!(s.memory().latest(&loc(2).key(), 1), Some((0, entry)));
    assert_eq!(s.memory().latest(&loc(3).key(), 1), Some((0, entry)));
}

#[test]
fn failed_execution_leaves_estimates() {
    let mut s = block(3);
    run(&mut s, 1, &[(5, from_tx(1, 1))], &[1]);
    run(&mut s, 0, &[], &[]);
    validate_next(&mut s, 0);
    assert!(validate_next(&mut s, 1).is_some());
    fail(&mut s, 1);
    assert_eq!(status(&s, 1), TransactionStatus::Conflict);
    assert_eq!(
        s.memory().latest(&loc(1).key(), 2),
        Some((1, MemoryEntry { incarnation: 1, estimate: true }))
    );
    // Something before it is not committed, so the failure may be due to a stale read.
    assert!(!s.aborted());
    assert!(s.report(0).contains(&(Metric::ConflictByError, 1)));
}

#[test]
fn failure_of_the_first_uncommitted_transaction_is_the_blocks_failure() {
    let mut s = block(3);
    fail(&mut s, 0);
    assert!(s.aborted());
    assert!(!s.finality_running());
    assert!(matches!(s.next(3), NextStep::Stop));
    assert!(s.abort_is_explained());
    match s.post_execute() {
        PostExecute::Failed(GrevmError { txid, error }) => {
            assert_eq!((txid, error.as_str()), (0, "revert"));
        }
        _ => panic!("no failure"),
    }
}

#[test]
fn other_reasons_lead_to_sequential_execution() {
    for reason in [AbortReason::SelfDestructed, AbortReason::FallbackSequential] {
        let mut s = block(3);
        s.abort(reason);
        s.abort(AbortReason::EvmError);
        assert!(s.abort_is_explained());
        assert!(matches!(s.post_execute(), PostExecute::Sequential));
    }
    let mut s = block(3);
    s.abort(AbortReason::EvmError);
    s.abort(AbortReason::FallbackSequential);
    assert!(!s.abort_is_explained());
}

#[test]
fn stale_validation_does_not_become_final() {
    // Transactions 0 to 2 are validated. Then transaction 1 turns out to be in conflict, runs
    // again and is validated again before anybody looks at transaction 2.
    let mut s = block(3);
    run(&mut s, 0, &[], &[1]);
    run(&mut s, 1, &[], &[2]);
    run(&mut s, 2, &[], &[]);
    validate_next(&mut s, 0);
    validate_next(&mut s, 1);
    validate_next(&mut s, 2);
    // A rollback to 0 by a fourth hand: all are looked at anew, and 1 is held up.
    let mut again = block(3);
    run(&mut again, 0, &[], &[1]);
    run(&mut again, 1, &[(1, ReadVersion::Storage)], &[2]);
    run(&mut again, 2, &[], &[]);
    validate_next(&mut again, 0);
    let (one, two) = (again.next(3), again.next(3));
    let (one, two) = match (one, two) {
        (NextStep::Run(Task::Validation(a)), NextStep::Run(Task::Validation(b))) => (a, b),
        other => panic!("{:?}", other),
    };
    // Transaction 2 is validated before transaction 1 conflicts.
    assert_eq!(again.validate(two), None);
    assert_eq!(again.validate(one), Some(DependencyAction::Add(1, Some(0))));
    let (v, followup) = run(&mut again, 1, &[(1, from_tx(0, 1))], &[2]);
    assert_eq!(followup, Followup::Validate);
    assert_eq!(again.validate(v), None);
    assert_eq!(status(&again, 2), TransactionStatus::Unconfirmed);
    assert!(again.context().lower_ts(2) > again.context().unconfirmed_ts(2));
    // Transaction 2 would be passed without the timestamps: all three are unconfirmed.
    again.async_finality();
    assert!(status(&again, 2) != TransactionStatus::Finality);
    assert_eq!(again.context().validation_idx(), 2);
    // Validated anew, it becomes final.
    assert_eq!(validate_next(&mut again, 2), None);
    again.async_finality();
    assert_eq!(status(&again, 2), TransactionStatus::Finality);
    // Without a conflict nothing holds the block up.
    s.async_finality();
    assert_eq!(status(&s, 2), TransactionStatus::Finality);
}

#[test]
fn rewriting_the_same_locations_keeps_later_validations() {
    let mut s = block(3);
    run(&mut s, 0, &[], &[1]);
    run(&mut s, 1, &[(1, ReadVersion::Storage)], &[2]);
    run(&mut s, 2, &[(1, from_tx(0, 1))], &[]);
    validate_next(&mut s, 0);
    assert!(validate_next(&mut s, 1).is_some());
    // Transaction 2 is validated while transaction 1 waits to run again.
    assert_eq!(validate_next(&mut s, 2), None);
    let (v, followup) = run(&mut s, 1, &[(1, from_tx(0, 1))], &[2]);
    assert_eq!(followup, Followup::Validate);
    assert_eq!(s.validate(v), None);
    assert_eq!(s.async_finality(), vec![1, 2]);
    assert!(matches!(s.next(3), NextStep::Stop));
}

#[test]
fn finality_waits_for_the_validation_cursor() {
    let mut s = block(2);
    assert_eq!(s.async_finality(), vec![]);
    run(&mut s, 0, &[], &[]);
    s.async_finality();
    assert_eq!(status(&s, 0), TransactionStatus::Executed);
    validate_next(&mut s, 0);
    s.async_finality();
    assert_eq!(s.context().finality_idx(), 1);
}

#[test]
fn worker_pulls_from_the_graph_when_nothing_is_to_be_validated() {
    let mut s = block(2);
    assert!(matches!(s.next(0), NextStep::Pull { idle: false }));
    assert!(matches!(s.next(2), NextStep::Pull { idle: true }));
    run(&mut s, 0, &[], &[]);
    // The cursor passes a transaction that is not to be validated.
    s.execution_task(1);
    assert!(matches!(s.next(0), NextStep::Pull { idle: false }));
    assert!(matches!(s.next(2), NextStep::Run(Task::Validation(_))));
    assert!(matches!(s.next(2), NextStep::Pull { idle: true }));
}

#[test]
fn failed_commit_ends_parallel_execution() {
    let mut s = block(1);
    run(&mut s, 0, &[], &[]);
    validate_next(&mut s, 0);
    s.async_finality();
    assert!(matches!(s.async_commit(true), Some(CommitStep::Apply(0, "output"))));
    assert_eq!(s.commit_finished(false, 1), None);
    assert!(s.aborted());
    assert!(!s.commit_running());
    let error = GrevmError { txid: 0, error: "nonce".to_string() };
    match s.join(Err(error)) {
        Err(GrevmError { txid, error }) => assert_eq!((txid, error.as_str()), (0, "nonce")),
        Ok(()) => panic!("no error"),
    }
    assert_eq!(s.num_results(), 0);
}

#[test]
fn transactions_are_passed_where_outputs_are_not_committed() {
    let mut s = block(1);
    run(&mut s, 0, &[], &[]);
    assert!(s.async_commit(false).is_none());
    validate_next(&mut s, 0);
    s.async_finality();
    match s.async_commit(false) {
        Some(CommitStep::Passed(action)) => assert_eq!(action, DependencyAction::Commit(0)),
        _ => panic!("not passed"),
    }
    assert_eq!(s.context().commit_idx(), 1);
}

#[test]
fn attempts_are_counted_by_kind() {
    let mut s = block(2);
    run(&mut s, 0, &[], &[1]);
    for _ in 0..2 {
        run(&mut s, 1, &[(1, ReadVersion::Storage)], &[]);
        validate_all(&mut s);
    }
    run(&mut s, 1, &[(1, from_tx(0, 1))], &[]);
    validate_all(&mut s);
    assert_eq!(s.async_finality(), vec![1]);
    s.set_execution_time(12);
    let samples = s.report(0);
    assert!(samples.contains(&(Metric::MoreAttemptsWithDependency, 1)));
    assert!(samples.contains(&(Metric::OneAttemptWithDependency, 0)));
    assert!(samples.contains(&(Metric::NoDependencyTxs, 1)));
    assert!(samples.contains(&(Metric::ConflictTxs, 1)));
    assert!(samples.contains(&(Metric::ExecutionTime, 12)));
}

fn validate_all(s: &mut Block) {
    // A rollback beyond the cursor leaves it to a worker to validate what wrote nothing new.
    for txid in 0..s.block_size() {
        if status(s, txid) == TransactionStatus::Validating {
            let incarnation = s.tx_state(txid).incarnation;
            s.validate(version(txid, incarnation));
        }
    }
    let n = s.block_size();
    while let NextStep::Run(Task::Validation(v)) = s.next(n) {
        s.validate(v);
    }
}

#[test]
fn dependency_is_the_last_writer_that_is_not_final() {
    let mut s = block(4);
    run(&mut s, 0, &[], &[1]);
    run(&mut s, 1, &[], &[1, 2]);
    run(&mut s, 2, &[], &[3]);
    let mut reads = ReadSet::new();
    assert_eq!(s.generate_dependent_tx(3, &reads), None);
    reads.insert(&loc(9), ReadVersion::Storage);
    assert_eq!(s.generate_dependent_tx(3, &reads), None);
    reads.insert(&loc(1), ReadVersion::Storage);
    assert_eq!(s.generate_dependent_tx(3, &reads), Some(1));
    assert_eq!(s.generate_dependent_tx(1, &reads), Some(0));
    assert_eq!(s.generate_dependent_tx(0, &reads), None);
    reads.insert(&loc(3), ReadVersion::Storage);
    assert_eq!(s.generate_dependent_tx(3, &reads), Some(2));
    validate_all(&mut s);
    s.async_finality();
    assert_eq!(s.generate_dependent_tx(3, &reads), None);
}

#[test]
fn small_blocks_are_executed_sequentially() {
    let mut s = block(63);
    assert_eq!(s.parallel_execute(Some(4), None, 8, false), ExecutionPlan::Sequential);
    let mut s = block(64);
    assert_eq!(s.parallel_execute(Some(4), None, 8, false), ExecutionPlan::Parallel(4));
    assert_eq!(s.parallel_execute(None, Some("6"), 8, false), ExecutionPlan::Parallel(6));
    assert_eq!(s.parallel_execute(None, None, 8, true), ExecutionPlan::Sequential);
    assert!(s.report(0).contains(&(Metric::TotalTxCnt, 64)));
}

#[test]
fn sequential_execution_completes_the_block() {
    let mut s = block(3);
    assert!(s.join(Ok(vec![7])).is_ok());
    let mut sequential = s.fallback_sequential().unwrap();
    let mut ids = vec![];
    while let Some(txid) = sequential.next_tx() {
        ids.push(txid);
        s.sequential_executed(&mut sequential, 10 + txid as u32);
    }
    s.sequential_finished(sequential);
    assert_eq!(ids, vec![1, 2]);
    assert_eq!(s.num_results(), 3);
    assert!(s.fallback_sequential().is_none());
    assert!(s.report(0).contains(&(Metric::ExecutionCnt, 2)));
    assert_eq!(s.take_result_and_state().0, vec![7, 11, 12]);
}

#[test]
fn sequential_failure_names_the_transaction() {
    let mut s = block(3);
    let mut sequential = s.fallback_sequential().unwrap();
    s.sequential_executed(&mut sequential, 1);
    let failure = sequential.fail("gas".to_string());
    assert_eq!((failure.txid, failure.error.as_str()), (1, "gas"));
    assert_eq!(s.num_results(), 0);
}

#[test]
fn finality_goes_no_further_on_its_own() {
    let mut s = block(3);
    for txid in 0..3 {
        run(&mut s, txid, &[], &[txid as u128]);
    }
    validate_next(&mut s, 0);
    validate_next(&mut s, 1);
    s.async_finality();
    assert_eq!(s.context().finality_idx(), 2);
    assert_eq!(s.async_finality(), vec![]);
    assert_eq!(s.context().finality_idx(), 2);
}

#[test]
fn validation_waits_for_the_executed_prefix() {
    let mut s = block(3);
    run(&mut s, 1, &[], &[]);
    run(&mut s, 2, &[], &[]);
    assert!(matches!(s.next(3), NextStep::Pull { idle: true }));
    run(&mut s, 0, &[], &[]);
    for txid in 0..3 {
        match s.next(3) {
            NextStep::Run(Task::Validation(v)) => assert_eq!(v, version(txid, 1)),
            other => panic!("{:?}", other),
        }
    }
}

#[test]
fn small_blocks_run_as_sequential_execution_alone() {
    for level in [None, Some(1), Some(100)] {
        let (mut planned, mut alone) = (block(3), block(3));
        assert_eq!(planned.parallel_execute(level, None, 8, false), ExecutionPlan::Sequential);
        for s in [&mut planned, &mut alone] {
            let mut sequential = s.fallback_sequential().unwrap();
            while let Some(txid) = sequential.next_tx() {
                s.sequential_executed(&mut sequential, txid as u32);
            }
            s.sequential_finished(sequential);
        }
        assert!(planned.report(0).contains(&(Metric::TotalTxCnt, 3)));
        assert_eq!(planned.take_result_and_state(), alone.take_result_and_state());
    }
}

#[test]
fn inaccurate_origin_counts_before_an_estimate() {
    let mut s = block(2);
    run(&mut s, 0, &[], &[1]);
    s.execution_task(1);
    let mut both = execution(&[], &[]);
    both.read_accurate_origin = false;
    both.blocking_txs = vec![0];
    s.execute(version(1, 1), 0, Ok(both));
    let samples = s.report(0);
    assert!(samples.contains(&(Metric::ConflictCnt, 1)));
    assert!(samples.contains(&(Metric::ConflictByMiner, 1)));
    assert!(samples.contains(&(Metric::ConflictByEstimate, 0)));
}
