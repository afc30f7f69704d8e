//! Whole blocks, executed in many interleavings, against the same blocks executed one transaction
//! after the other.

use std::collections::HashMap;

use grevm::access::{ReadSet, WriteSet};
use grevm::location::{Address, LocationAndType};
use grevm::metrics::Metric;
use grevm::model::Dispatch;
use grevm::scheduler::{CommitStep, Execution, NextStep, PostExecute, Scheduler};
use grevm::types::{
    AbortReason, DependencyAction, ReadVersion, Task, TransactionStatus, TxId, TxVersion,
};

type Writes = Vec<(u64, u64)>;
type Block = Scheduler<(), Writes, Writes, &'static str>;

/// A small generator of pseudo-random numbers.
struct Dice(u64);

impl Dice {
    fn roll(&mut self, sides: usize) -> usize {
        self.0 = self.0.wrapping_mul(6364136223846793005).wrapping_add(1442695040888963407);
        (self.0 >> 33) as usize % sides
    }
}

fn location(key: u64) -> LocationAndType {
    LocationAndType::Basic(Address { high: 0, low: key as u128 })
}

/// The value at `key` before the block.
fn base(key: u64) -> u64 {
    if key < 100 { 0 } else { key }
}

/// Transaction `txid` of a block with `senders` senders: it checks and raises the nonce of its
/// sender, follows a value to a second location and moves an amount there.
fn transact(
    txid: TxId,
    senders: usize,
    read: &mut dyn FnMut(u64) -> u64,
) -> Result<Writes, &'static str> {
    let sender = (txid % senders) as u64;
    let nonce = read(sender);
    if nonce != (txid / senders) as u64 {
        return Err("nonce");
    }
    let from = 100 + (txid as u64 * 7) % 5;
    let amount = read(from);
    let to = 100 + amount % 6;
    let mut writes = vec![(sender, nonce + 1)];
    if to != from {
        let there = read(to);
        writes.push((from, amount.wrapping_mul(3) + 1));
        if txid % 3 == 0 {
            writes.push((to, there + amount % 11));
        }
    }
    Ok(writes)
}

fn sequentially(num_txs: usize, senders: usize) -> Vec<Writes> {
    let mut state: HashMap<u64, u64> = HashMap::new();
    let mut outputs = vec![];
    for txid in 0..num_txs {
        let writes = transact(txid, senders, &mut |key| *state.get(&key).unwrap_or(&base(key)));
        let writes = writes.unwrap();
        state.extend(writes.iter().copied());
        outputs.push(writes);
    }
    outputs
}

/// An execution that has read and has not yet been taken in.
struct Flight {
    version: TxVersion,
    commit_idx: TxId,
    outcome: Result<Execution<Writes>, &'static str>,
}

struct Driver {
    block: Block,
    senders: usize,
    values: HashMap<(TxVersion, u64), u64>,
    flights: Vec<Flight>,
    validations: Vec<TxVersion>,
    committed: Vec<Writes>,
}

impl Driver {
    fn dispatch(&mut self, step: Dispatch) {
        match step {
            Dispatch::Run(Task::Execution(version)) => self.take_off(version),
            Dispatch::Run(Task::Validation(version)) => self.validations.push(version),
            Dispatch::Idle | Dispatch::Dependency(_) => {}
        }
    }

    fn take_off(&mut self, version: TxVersion) {
        let Some(commit_idx) = self.block.start_execute(version) else { return };
        let mut read_set = ReadSet::new();
        let mut blocking_txs = vec![];
        let (memory, values) = (self.block.memory(), &self.values);
        let outcome = transact(version.txid, self.senders, &mut |key| {
            match memory.latest(&location(key).key(), version.txid) {
                Some((writer, entry)) => {
                    if entry.estimate {
                        blocking_txs.push(writer);
                    }
                    let seen = TxVersion { txid: writer, incarnation: entry.incarnation };
                    read_set.insert(&location(key), ReadVersion::MvMemory(seen));
                    values[&(seen, key)]
                }
                None => {
                    read_set.insert(&location(key), ReadVersion::Storage);
                    base(key)
                }
            }
        });
        let outcome = outcome.map(|output| {
            let mut write_set = WriteSet::new();
            for (key, value) in &output {
                write_set.insert(&location(*key));
                self.values.insert((version, *key), *value);
            }
            Execution { read_accurate_origin: true, blocking_txs, read_set, write_set, output }
        });
        self.flights.push(Flight { version, commit_idx, outcome });
    }

    fn land(&mut self, dice: &mut Dice) {
        if self.flights.is_empty() {
            return;
        }
        let at = dice.roll(self.flights.len());
        let flight = self.flights.swap_remove(at);
        let executed = self.block.execute(flight.version, flight.commit_idx, flight.outcome);
        let follower = flight.version.txid + 1;
        let next = match executed.dependency {
            DependencyAction::Remove(_, true)
                if follower < self.block.block_size() && dice.roll(2) == 0 =>
            {
                Some(follower)
            }
            _ => None,
        };
        let step = self.block.after_execute(executed, next);
        self.dispatch(step);
    }

    fn step(&mut self, dice: &mut Dice) {
        let num_txs = self.block.block_size();
        match dice.roll(6) {
            0 => {
                let txid = dice.roll(num_txs);
                let status = self.block.tx_state(txid).status;
                if matches!(status, TransactionStatus::Initial | TransactionStatus::Conflict) {
                    let step = self.block.execution_task(txid);
                    self.dispatch(step);
                }
            }
            1 => self.land(dice),
            2 => {
                if let NextStep::Run(Task::Validation(version)) = self.block.next(num_txs) {
                    self.validations.push(version);
                }
            }
            3 => {
                if !self.validations.is_empty() {
                    let at = dice.roll(self.validations.len());
                    let version = self.validations.swap_remove(at);
                    self.block.validate(version);
                }
            }
            4 => {
                self.block.async_finality();
            }
            _ => {
                if let Some(CommitStep::Apply(txid, output)) = self.block.async_commit(true) {
                    assert_eq!(txid, self.committed.len());
                    self.committed.push(output);
                    self.block.commit_finished(true, 1);
                }
            }
        }
    }
}

fn may_follow(from: TransactionStatus, to: TransactionStatus) -> bool {
    from == to
        || matches!(
            (from, to),
            (TransactionStatus::Initial, TransactionStatus::Executing)
                | (TransactionStatus::Conflict, TransactionStatus::Executing)
                | (TransactionStatus::Executing, TransactionStatus::Conflict)
                | (TransactionStatus::Executing, TransactionStatus::Executed)
                | (TransactionStatus::Executing, TransactionStatus::Validating)
                | (TransactionStatus::Executed, TransactionStatus::Validating)
                | (TransactionStatus::Validating, TransactionStatus::Executed)
                | (TransactionStatus::Validating, TransactionStatus::Unconfirmed)
                | (TransactionStatus::Validating, TransactionStatus::Conflict)
                | (TransactionStatus::Unconfirmed, TransactionStatus::Validating)
                | (TransactionStatus::Unconfirmed, TransactionStatus::Finality)
        )
}

fn driver(num_txs: usize, senders: usize) -> Driver {
    Driver {
        block: Scheduler::new(num_txs, ()),
        senders,
        values: HashMap::new(),
        flights: vec![],
        validations: vec![],
        committed: vec![],
    }
}

#[test]
fn every_interleaving_gives_the_sequential_outputs() {
    for seed in 0..60 {
        let (num_txs, senders) = (24, 1 + seed as usize % 5);
        let mut dice = Dice(seed);
        let mut d = driver(num_txs, senders);
        while d.block.commit_running() {
            d.step(&mut dice);
        }
        assert!(!d.block.aborted());
        assert_eq!(d.committed, sequentially(num_txs, senders), "seed {}", seed);
        assert!(d.block.join(Ok(d.committed)).is_ok());
        assert!(matches!(d.block.post_execute(), PostExecute::Done));
        assert_eq!(d.block.take_result_and_state().0, sequentially(num_txs, senders));
    }
}

#[test]
fn every_step_moves_on() {
    for seed in 100..110 {
        let num_txs = 16;
        let mut dice = Dice(seed);
        let mut d = driver(num_txs, 3);
        while d.block.commit_running() {
            let before: Vec<_> = (0..num_txs).map(|txid| d.block.tx_state(txid)).collect();
            let cursors = (d.block.context().finality_idx(), d.block.context().commit_idx());
            d.step(&mut dice);
            for txid in 0..num_txs {
                let after = d.block.tx_state(txid);
                assert!(may_follow(before[txid].status, after.status), "{:?}", after);
                assert!(before[txid].incarnation <= after.incarnation);
                if txid < cursors.0 {
                    assert_eq!(before[txid], after);
                }
            }
            assert!(cursors.0 <= d.block.context().finality_idx());
            assert!(cursors.1 <= d.block.context().commit_idx());
        }
    }
}

#[test]
fn failure_that_sequential_execution_has_too_is_reported() {
    // Transaction 5 fails however often it runs, also once all before it are committed.
    for seed in 200..210 {
        let num_txs = 8;
        let mut dice = Dice(seed);
        let mut d = driver(num_txs, 1);
        while d.block.commit_running() {
            for flight in d.flights.iter_mut() {
                if flight.version.txid == 5 {
                    flight.outcome = Err("broken");
                }
            }
            d.step(&mut dice);
        }
        assert!(d.block.aborted());
        assert!(d.block.abort_is_explained());
        let reference = sequentially(num_txs, 1);
        assert_eq!(d.committed, reference[..5].to_vec());
        match d.block.post_execute() {
            PostExecute::Failed(failure) => {
                assert_eq!((failure.txid, failure.error), (5, "broken"));
            }
            _ => panic!("no failure"),
        }
    }
}

#[test]
fn every_conflict_is_counted_under_its_cause() {
    let mut conflicts = 0;
    for seed in 300..320 {
        let mut dice = Dice(seed);
        let mut d = driver(16, 2);
        let mut executions = 0;
        while d.block.commit_running() {
            d.step(&mut dice);
        }
        for txid in 0..16 {
            executions += d.block.tx_state(txid).incarnation;
        }
        let samples = d.block.report(0);
        let count = |metric| samples.iter().find(|sample| sample.0 == metric).unwrap().1;
        assert_eq!(
            count(Metric::ConflictCnt),
            count(Metric::ConflictByMiner)
                + count(Metric::ConflictByError)
                + count(Metric::ConflictByEstimate)
                + count(Metric::ConflictByVersion)
        );
        assert_eq!(count(Metric::ExecutionCnt), executions);
        assert_eq!(count(Metric::ConflictCnt), executions - 16);
        conflicts += count(Metric::ConflictCnt);
    }
    assert!(conflicts > 0);
}

#[test]
fn values_in_memory_are_those_of_sequential_execution() {
    for seed in 400..410 {
        let (num_txs, senders) = (20, 3);
        let mut dice = Dice(seed);
        let mut d = driver(num_txs, senders);
        while d.block.commit_running() {
            d.step(&mut dice);
        }
        let mut state: HashMap<u64, u64> = HashMap::new();
        for (txid, writes) in sequentially(num_txs, senders).iter().enumerate() {
            for key in (0..3).chain(100..106) {
                let seen = match d.block.memory().latest(&location(key).key(), txid) {
                    Some((writer, entry)) => {
                        assert!(!entry.estimate);
                        let version = TxVersion { txid: writer, incarnation: entry.incarnation };
                        d.values[&(version, key)]
                    }
                    None => base(key),
                };
                assert_eq!(seen, *state.get(&key).unwrap_or(&base(key)));
            }
            state.extend(writes.iter().copied());
        }
    }
}

#[test]
fn sequential_execution_goes_on_where_parallel_execution_was_given_up() {
    for seed in 500..510 {
        let (num_txs, senders) = (20, 2);
        let reference = sequentially(num_txs, senders);
        let mut dice = Dice(seed);
        let mut d = driver(num_txs, senders);
        while d.block.context().commit_idx() < 7 {
            d.step(&mut dice);
        }
        d.block.abort(AbortReason::FallbackSequential);
        let mut state: HashMap<u64, u64> = d.committed.iter().flatten().copied().collect();
        let committed = d.committed.len();
        assert!(d.block.join(Ok(d.committed)).is_ok());
        assert!(matches!(d.block.post_execute(), PostExecute::Sequential));
        let mut run = d.block.fallback_sequential().unwrap();
        assert_eq!(run.next_tx(), Some(committed));
        while let Some(txid) = run.next_tx() {
            let writes = transact(txid, senders, &mut |key| *state.get(&key).unwrap_or(&base(key)));
            let writes = writes.unwrap();
            state.extend(writes.iter().copied());
            d.block.sequential_executed(&mut run, writes);
        }
        d.block.sequential_finished(run);
        assert_eq!(d.block.take_result_and_state().0, reference);
    }
}
