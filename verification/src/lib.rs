//! The scheduler of Grevm, which executes the transactions of a block in parallel and gives the
//! results of executing them one after the other.
//!
//! Transactions run optimistically on multi-version memory, are validated against it, run again
//! where they conflict, and become final and are committed in block order. [`scheduler`] holds the
//! scheduler itself, [`model`] what each of its steps does, [`consistency`] and [`serial`] what
//! every step keeps. [`laws`], [`progress`], [`equivalence`] and [`counting`] state what follows, and
//! [`history`] puts it together for whole runs, from the first step to the last. [`basics`],
//! [`meaning`] and [`answers`] say what the parts, the steps and the operations are for.

pub mod access;
pub mod answers;
pub mod basics;
pub mod collections;
pub mod config;
pub mod consistency;
pub mod context;
pub mod counter;
pub mod counting;
pub mod detect_set;
pub mod equivalence;
pub mod history;
pub mod laws;
pub mod location;
pub mod meaning;
pub mod memory;
pub mod metrics;
pub mod model;
pub mod progress;
pub mod scheduler;
pub mod sequential;
pub mod serial;
pub mod types;
pub mod validation;
pub mod versions;
