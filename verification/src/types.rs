//! The values that the scheduler passes around.

use vstd::prelude::*;

use crate::access::{ReadSet, WriteSet};

verus! {

/// Position of a transaction in its block.
pub type TxId = usize;

/// One incarnation (execution attempt) of a transaction.
#[derive(Clone, Copy, Debug, PartialEq, Eq, Hash, Structural)]
pub struct TxVersion {
    pub txid: TxId,
    pub incarnation: usize,
}

/// Where a read took its value from.
#[derive(Clone, Copy, Debug, PartialEq, Eq, Structural)]
pub enum ReadVersion {
    /// Written by the given incarnation of an earlier transaction of the block.
    MvMemory(TxVersion),
    /// Not written by any earlier transaction: taken from the state before the block.
    Storage,
}

/// What multi-version memory records of one write of one transaction.
#[derive(Clone, Copy, Debug, PartialEq, Eq, Structural)]
pub struct MemoryEntry {
    /// The incarnation that wrote.
    pub incarnation: usize,
    /// Set when the writer is known to run again, so that the value may change.
    pub estimate: bool,
}

/// Where a transaction stands.
#[derive(Clone, Copy, Debug, PartialEq, Eq, Structural)]
pub enum TransactionStatus {
    /// Never executed.
    Initial,
    /// A worker executes it.
    Executing,
    /// Executed, to be validated.
    Executed,
    /// A worker validates it.
    Validating,
    /// Validated, not yet final.
    Unconfirmed,
    /// To be executed again.
    Conflict,
    /// Never touched again but to be committed.
    Finality,
}

/// The scheduling state of one transaction.
#[derive(Clone, Copy, Debug, PartialEq, Eq, Structural)]
pub struct TxState {
    pub status: TransactionStatus,
    /// How often it has been handed out for execution.
    pub incarnation: usize,
    /// The last transaction before it that wrote something it read, as of its last validation.
    pub dependency: Option<TxId>,
}

/// Work for a worker.
#[derive(Clone, Copy, Debug, PartialEq, Eq, Structural)]
pub enum Task {
    Execution(TxVersion),
    Validation(TxVersion),
}

/// Why parallel execution was given up.
#[derive(Clone, Copy, Debug, PartialEq, Eq, Structural)]
pub enum AbortReason {
    /// A transaction failed although everything before it was committed, or its commit failed.
    EvmError,
    /// An account was destructed.
    SelfDestructed,
    /// The rest of the block is to be executed sequentially.
    FallbackSequential,
}

/// An error together with the transaction that it belongs to.
#[derive(Debug)]
pub struct GrevmError<E> {
    pub txid: TxId,
    pub error: E,
}

/// What the last execution of a transaction left behind. `O` is what a successful execution
/// yields (result and state changes), `E` the error of a failed one.
pub struct TransactionResult<O, E> {
    pub read_set: ReadSet,
    pub write_set: WriteSet,
    pub execute_result: Result<O, E>,
}

/// A request to the graph of dependencies between transactions.
#[derive(Clone, Copy, Debug, PartialEq, Eq, Structural)]
pub enum DependencyAction {
    /// The transaction waits for all transactions before it.
    KeyTx(TxId),
    /// The transaction waits for the given one, or for none.
    Add(TxId, Option<TxId>),
    /// Nobody waits for the transaction any more. Where the flag is set, the transaction after it
    /// is handed back if it waited for nothing else.
    Remove(TxId, bool),
    /// The transaction has been committed.
    Commit(TxId),
}

impl TxState {
    /// The state of a transaction before anything has run.
    pub open spec fn initial() -> TxState {
        TxState { status: TransactionStatus::Initial, incarnation: 0, dependency: None }
    }
}

impl Default for TxState {
    fn default() -> (s: TxState)
        ensures
            s == TxState::initial(),
    {
        TxState { status: TransactionStatus::Initial, incarnation: 0, dependency: None }
    }
}

} // verus!
