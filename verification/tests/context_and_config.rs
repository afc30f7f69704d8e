use grevm::config::{async_commit_state, concurrency_level, parse_unsigned, stuck};
use grevm::context::SchedulerContext;
use grevm::counter::{accumulate, bump};
use grevm::metrics::{ExecuteMetricsCollector, Metric};

#[test]
fn new_context_stands_at_the_beginning() {
    let context = SchedulerContext::new(3);
    assert_eq!(context.validation_idx(), 0);
    assert_eq!(context.finality_idx(), 0);
    assert_eq!(context.commit_idx(), 0);
    assert_eq!(context.execution_idx(), 0);
    assert_eq!(context.reset_validation_idx_cnt(), 0);
    assert!(!context.finished());
    assert!(SchedulerContext::new(0).finished());
}

#[test]
fn timestamps_are_drawn_in_order() {
    let mut context = SchedulerContext::new(1);
    assert_eq!(context.logical_timestamp(), 1);
    assert_eq!(context.logical_timestamp(), 2);
    assert_eq!(context.logical_timestamp(), 3);
}

#[test]
fn validation_follows_the_executed_prefix() {
    let mut context = SchedulerContext::new(3);
    assert_eq!(context.next_validation_idx(3), None);
    context.executed(1);
    assert_eq!(context.next_validation_idx(3), None);
    context.executed(0);
    assert_eq!(context.execution_idx(), 2);
    assert_eq!(context.next_validation_idx(0), None);
    assert_eq!(context.next_validation_idx(3), Some(0));
    assert_eq!(context.next_validation_idx(1), None);
    assert_eq!(context.next_validation_idx(3), Some(1));
    assert_eq!(context.next_validation_idx(3), None);
    assert_eq!(context.validation_idx(), 2);
}

#[test]
fn rollback_moves_the_cursor_and_stamps_the_transaction() {
    let mut context = SchedulerContext::new(3);
    for i in 0..3 {
        context.executed(i);
    }
    for i in 0..3 {
        assert_eq!(context.next_validation_idx(3), Some(i));
    }
    context.reset_validation_idx(1);
    assert_eq!(context.validation_idx(), 1);
    assert_eq!(context.lower_ts(1), 1);
    assert_eq!(context.lower_ts(2), 0);
    assert_eq!(context.reset_validation_idx_cnt(), 1);
    // A rollback to a place behind the cursor stamps, but does not count.
    context.reset_validation_idx(2);
    assert_eq!(context.validation_idx(), 1);
    assert_eq!(context.lower_ts(2), 2);
    assert_eq!(context.reset_validation_idx_cnt(), 1);
    // A rollback beyond the block changes nothing.
    context.reset_validation_idx(3);
    assert_eq!(context.logical_timestamp(), 3);
}

#[test]
fn unconfirmed_keeps_the_latest_time() {
    let mut context = SchedulerContext::new(2);
    context.unconfirmed(1, 5);
    context.unconfirmed(1, 3);
    assert_eq!(context.unconfirmed_ts(1), 5);
    assert_eq!(context.unconfirmed_ts(0), 0);
}

#[test]
fn scheduling_is_due_while_something_is_left() {
    let mut context = SchedulerContext::new(2);
    assert!(context.should_schedule(0));
    assert!(context.should_schedule(1));
    assert!(!context.should_schedule(2));
    context.executed(0);
    assert!(context.should_schedule(2));
    assert_eq!(context.next_validation_idx(2), Some(0));
    assert!(!context.should_schedule(2));
}

#[test]
fn finality_and_commit_advance_one_by_one() {
    let mut context = SchedulerContext::new(2);
    context.advance_finality();
    context.advance_finality();
    context.advance_commit();
    assert_eq!((context.finality_idx(), context.commit_idx()), (2, 1));
    assert!(context.finished());
}

#[test]
fn counters_wrap_around() {
    assert_eq!(bump(41), 42);
    assert_eq!(bump(usize::MAX), 0);
    assert_eq!(accumulate(40, 2), 42);
    assert_eq!(accumulate(usize::MAX, 3), 2);
}

#[test]
fn report_lists_every_metric_in_order() {
    let metrics = ExecuteMetricsCollector {
        total_tx_cnt: 1,
        conflict_cnt: 2,
        validation_cnt: 3,
        execution_cnt: 4,
        reset_validation_idx_cnt: 5,
        useless_dependent_update: 6,
        conflict_by_miner: 7,
        conflict_by_error: 8,
        conflict_by_estimate: 9,
        conflict_by_version: 10,
        one_attempt_with_dependency: 11,
        more_attempts_with_dependency: 12,
        no_dependency_txs: 13,
        conflict_txs: 14,
        execution_time: 15,
        commit_time: 16,
        total_time: 17,
    };
    assert_eq!(
        metrics.report(),
        vec![
            (Metric::TotalTxCnt, 1),
            (Metric::ConflictCnt, 2),
            (Metric::ValidationCnt, 3),
            (Metric::ExecutionCnt, 4),
            (Metric::ResetValidationIdxCnt, 5),
            (Metric::UselessDependentUpdate, 6),
            (Metric::ConflictByMiner, 7),
            (Metric::ConflictByError, 8),
            (Metric::ConflictByEstimate, 9),
            (Metric::ConflictByVersion, 10),
            (Metric::OneAttemptWithDependency, 11),
            (Metric::MoreAttemptsWithDependency, 12),
            (Metric::NoDependencyTxs, 13),
            (Metric::ConflictTxs, 14),
            (Metric::ExecutionTime, 15),
            (Metric::CommitTime, 16),
            (Metric::TotalTime, 17),
        ]
    );
}

#[test]
fn report_leaves_out_an_execution_time_of_zero() {
    let metrics = ExecuteMetricsCollector { commit_time: 3, ..Default::default() };
    let samples = metrics.report();
    assert_eq!(samples.len(), 16);
    assert!(samples.iter().all(|sample| sample.0 != Metric::ExecutionTime));
    assert_eq!(samples[14], (Metric::CommitTime, 3));
}

#[test]
fn numbers_are_read_as_the_standard_library_reads_them() {
    let max = usize::MAX.to_string();
    let over = format!("{}0", max);
    let texts = [
        "0", "8", "+8", "0012", "", "+", "-1", " 8", "8 ", "1_000", "12a", "++1", "\u{663}", "1.5",
        max.as_str(), over.as_str(), "18446744073709551616",
    ];
    for text in texts {
        assert_eq!(parse_unsigned(text), text.parse::<usize>().ok(), "{:?}", text);
    }
    assert_eq!(parse_unsigned("128"), Some(128));
}

#[test]
fn caller_then_environment_then_default() {
    assert_eq!(concurrency_level(Some(3), Some("5"), 7), 3);
    assert_eq!(concurrency_level(None, Some("5"), 7), 5);
    assert_eq!(concurrency_level(None, Some("many"), 7), 7);
    assert_eq!(concurrency_level(None, None, 7), 7);
}

#[test]
fn outputs_are_committed_one_by_one_unless_told_otherwise() {
    assert!(async_commit_state(None));
    assert!(async_commit_state(Some("true".to_string())));
    assert!(async_commit_state(Some("abc".to_string())));
    assert!(async_commit_state(Some("False".to_string())));
    assert!(!async_commit_state(Some("false".to_string())));
}

#[test]
fn a_warning_is_due_after_eight_seconds() {
    assert!(!stuck(0));
    assert!(!stuck(8_000));
    assert!(stuck(8_001));
}

#[test]
fn stamps_lie_between_the_draws_around_them() {
    let mut context = SchedulerContext::new(3);
    let mut last = 0;
    for index in [2, 0, 1, 2, 2] {
        let before = context.logical_timestamp();
        assert!(last < before);
        let stamps: Vec<usize> = (0..3).map(|j| context.lower_ts(j)).collect();
        assert!(stamps.iter().all(|stamp| *stamp < before));
        context.reset_validation_idx(index);
        let stamp = context.lower_ts(index);
        last = context.logical_timestamp();
        assert!(before < stamp && stamp < last);
        for j in 0..3 {
            assert!(stamps[j] <= context.lower_ts(j));
        }
    }
}
