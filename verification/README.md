# Grevm

The scheduler of Grevm executes the transactions of a block in parallel and gives the results of
executing them one after the other. Transactions run optimistically on multi-version memory, are
validated against it, run again where they conflict, and become final and are committed in block
order. A graph of dependencies drives execution; logical timestamps tell stale validations from
current ones.

- `src/` is the scheduler, written and proved in Verus. `scheduler.rs` holds the operations,
  `model.rs` what each of them does to the state, `consistency.rs` and `serial.rs` what all of them
  keep. `laws.rs`, `progress.rs`, `equivalence.rs` and `counting.rs` state what follows: every read
  of a final transaction saw the last write before it, what is final never changes, and every
  conflict is counted once, under its cause. `history.rs` puts it together for whole runs: whatever
  steps are taken in whatever order, the outputs that are committed, the values in memory and the
  failure that is reported are those of sequential execution.
- `app/` runs it: threads, the virtual machine, the environment, metrics and warnings.
- `tests/` exercises single operations, and whole blocks in many interleavings.

`collections.rs` states what is taken on trust of `ahash` and `dashmap`.
