//! Applying the pending versions: which versions are pending, and how the
//! outcome of each step of a version is settled under the force policy.
use vstd::prelude::*;
use crate::catalog::{views, MigrationFile, MigrationView};
use crate::error::EngineError;
use crate::ledger::Ledger;

verus! {

/// The entries of a catalog that the ledger does not hold, in catalog order.
pub open spec fn pending_spec(catalog: Seq<MigrationView>, ledger: Set<i32>) -> Seq<MigrationView>
    decreases catalog.len(),
{
    if catalog.len() == 0 {
        Seq::empty()
    } else {
        let rest = pending_spec(catalog.drop_last(), ledger);
        if ledger.contains(catalog.last().0) {
            rest
        } else {
            rest.push(catalog.last())
        }
    }
}

/// The entries of the catalog whose versions are not installed, in catalog
/// order. Installed versions are left out whole: their files are neither
/// read nor run again.
pub fn pending(catalog: &Vec<MigrationFile>, ledger: &Ledger) -> (r: Vec<MigrationFile>)
    ensures
        views(r@) == pending_spec(views(catalog@), ledger@),
{
    let ghost all = views(catalog@);
    let mut out: Vec<MigrationFile> = Vec::new();
    let mut i: usize = 0;
    assert(views(out@) =~= pending_spec(all.take(0), ledger@));
    while i < catalog.len()
        invariant
            i <= catalog.len(),
            all == views(catalog@),
            views(out@) == pending_spec(all.take(i as int), ledger@),
        decreases catalog.len() - i,
    {
        assert(all.take(i + 1).drop_last() =~= all.take(i as int));
        assert(all.take(i + 1).last() == catalog@[i as int]@);
        if !ledger.contains(catalog[i].version) {
            let ghost before = views(out@);
            out.push(catalog[i].duplicate());
            assert(views(out@) =~= before.push(catalog@[i as int]@));
        }
        i = i + 1;
    }
    assert(all.take(catalog.len() as int) =~= all);
    out
}

/// What follows a version's file being read, or failing to be read.
#[derive(Debug, PartialEq, Eq, Structural)]
pub enum ReadStep {
    /// Open a transaction and run the file.
    Execute,
    /// Leave the version unrecorded and go on with the next one.
    Skip,
}

/// What follows a version's SQL batch, run inside its transaction.
#[derive(Debug, PartialEq, Eq, Structural)]
pub enum ExecStep {
    /// Record the version in the same transaction, then commit.
    Record,
    /// Mark the transaction for rollback and go on with the next version.
    RollBack,
}

pub open spec fn read_step_spec(force: bool, version: i32, read_ok: bool) -> Result<
    ReadStep,
    EngineError,
> {
    if read_ok {
        Ok(ReadStep::Execute)
    } else if force {
        Ok(ReadStep::Skip)
    } else {
        Err(EngineError::ReadFailed(version))
    }
}

pub open spec fn exec_step_spec(force: bool, version: i32, exec_ok: bool) -> Result<
    ExecStep,
    EngineError,
> {
    if exec_ok {
        Ok(ExecStep::Record)
    } else if force {
        Ok(ExecStep::RollBack)
    } else {
        Err(EngineError::ApplyFailed(version))
    }
}

/// Settles the reading of a version's file: a read file is run; an unread
/// one is skipped under force and fatal otherwise.
pub fn after_read(force: bool, version: i32, read_ok: bool) -> (r: Result<ReadStep, EngineError>)
    ensures
        r == read_step_spec(force, version, read_ok),
{
    if read_ok {
        Ok(ReadStep::Execute)
    } else if force {
        Ok(ReadStep::Skip)
    } else {
        Err(EngineError::ReadFailed(version))
    }
}

/// Settles a version's SQL batch: on success the version is recorded; on
/// failure its transaction is rolled back under force, and the run ends
/// otherwise. A failed batch is never recorded.
pub fn after_execute(force: bool, version: i32, exec_ok: bool) -> (r: Result<ExecStep, EngineError>)
    ensures
        r == exec_step_spec(force, version, exec_ok),
        !exec_ok ==> r != Ok::<ExecStep, EngineError>(ExecStep::Record),
{
    if exec_ok {
        Ok(ExecStep::Record)
    } else if force {
        Ok(ExecStep::RollBack)
    } else {
        Err(EngineError::ApplyFailed(version))
    }
}

/// Settles the recording of a version that ran: a failure is fatal whatever
/// the force policy.
pub fn after_record(version: i32, record_ok: bool) -> (r: Result<(), EngineError>)
    ensures
        record_ok ==> r is Ok,
        !record_ok ==> r == Err::<(), EngineError>(EngineError::RecordFailed(version)),
{
    if record_ok {
        Ok(())
    } else {
        Err(EngineError::RecordFailed(version))
    }
}

/// Settles the commit of a version's transaction: a failure is fatal
/// whatever the force policy.
pub fn after_commit(version: i32, commit_ok: bool) -> (r: Result<(), EngineError>)
    ensures
        commit_ok ==> r is Ok,
        !commit_ok ==> r == Err::<(), EngineError>(EngineError::CommitFailed(version)),
{
    if commit_ok {
        Ok(())
    } else {
        Err(EngineError::CommitFailed(version))
    }
}

} // verus!
