//! The fatal conditions of a run.
use vstd::prelude::*;

verus! {

/// A condition that ends a run. Warnings are not errors: a run that meets
/// one goes on.
#[derive(Clone, Copy, Debug, PartialEq, Eq, Structural)]
pub enum EngineError {
    /// Every connection attempt failed.
    ConnectionExhausted,
    /// The advisory lock could not be taken.
    LockFailed,
    /// The server could not tell whether the target database exists.
    ExistenceCheckFailed,
    /// The target database is listed this many times, neither once nor never.
    DatabaseCount(i64),
    /// The target database could not be created.
    DatabaseCreationFailed,
    /// The bookkeeping schema could not be created.
    SchemaCreationFailed,
    /// The installed versions could not be loaded.
    LedgerLoadFailed,
    /// The file of this version could not be read.
    ReadFailed(i32),
    /// The SQL of this version failed.
    ApplyFailed(i32),
    /// This version ran but could not be recorded.
    RecordFailed(i32),
    /// The transaction of this version could not be committed.
    CommitFailed(i32),
}

} // verus!
