//! A model of the application loop over the pending versions, built from the
//! settling steps of the applier, and the laws that a run obeys.
use vstd::prelude::*;
use crate::applier::{
    after_commit, after_execute, after_read, after_record, exec_step_spec, pending_spec,
    read_step_spec, ExecStep, ReadStep,
};
use crate::bootstrap::{database_action_spec, schema_action_spec, DatabaseAction, SchemaAction};
use crate::catalog::{sorted_by_version, strictly_ascending, views, MigrationFile, MigrationView};
use crate::error::EngineError;

verus! {

/// What the server and the file system answer for one pending version.
/// A later field matters only where the earlier ones succeeded.
#[derive(Clone, Copy, Debug, PartialEq, Eq, Structural)]
pub struct StepOutcomes {
    pub read_ok: bool,
    pub exec_ok: bool,
    pub record_ok: bool,
    pub commit_ok: bool,
}

/// Whether every step of a version succeeds.
pub open spec fn all_ok(o: StepOutcomes) -> bool {
    o.read_ok && o.exec_ok && o.record_ok && o.commit_ok
}

/// The result of one version: `Ok(true)` where it was committed together
/// with its record, `Ok(false)` where it was skipped with a warning.
pub open spec fn version_result(force: bool, version: i32, o: StepOutcomes) -> Result<
    bool,
    EngineError,
> {
    match read_step_spec(force, version, o.read_ok) {
        Err(e) => Err(e),
        Ok(ReadStep::Skip) => Ok(false),
        Ok(ReadStep::Execute) => match exec_step_spec(force, version, o.exec_ok) {
            Err(e) => Err(e),
            Ok(ExecStep::RollBack) => Ok(false),
            Ok(ExecStep::Record) => if !o.record_ok {
                Err(EngineError::RecordFailed(version))
            } else if !o.commit_ok {
                Err(EngineError::CommitFailed(version))
            } else {
                Ok(true)
            },
        },
    }
}

/// What a run leaves: the versions it recorded, in order, and the fatal
/// condition that ended it, if any.
pub struct RunModel {
    pub recorded: Seq<i32>,
    pub fatal: Option<EngineError>,
}

/// The run over the pending versions, the `i`th of which meets `outcomes[i]`.
/// The run stops at the first fatal condition; what it committed before
/// stays.
pub open spec fn run_spec(force: bool, pending: Seq<MigrationView>, outcomes: Seq<StepOutcomes>) -> RunModel
    decreases pending.len(),
{
    if pending.len() == 0 {
        RunModel { recorded: Seq::empty(), fatal: None }
    } else {
        let prev = run_spec(force, pending.drop_last(), outcomes);
        let v = pending.last().0;
        if prev.fatal is Some {
            prev
        } else {
            match version_result(force, v, outcomes[pending.len() - 1]) {
                Err(e) => RunModel { recorded: prev.recorded, fatal: Some(e) },
                Ok(true) => RunModel { recorded: prev.recorded.push(v), fatal: None },
                Ok(false) => prev,
            }
        }
    }
}

/// Settles one version from what its steps met: recorded (`Ok(true)`),
/// skipped with a warning (`Ok(false)`), or fatal.
pub fn settle_version(force: bool, version: i32, o: StepOutcomes) -> (r: Result<bool, EngineError>)
    ensures
        r == version_result(force, version, o),
{
    match after_read(force, version, o.read_ok) {
        Err(e) => Err(e),
        Ok(ReadStep::Skip) => Ok(false),
        Ok(ReadStep::Execute) => match after_execute(force, version, o.exec_ok) {
            Err(e) => Err(e),
            Ok(ExecStep::RollBack) => Ok(false),
            Ok(ExecStep::Record) => match after_record(version, o.record_ok) {
                Err(e) => Err(e),
                Ok(()) => match after_commit(version, o.commit_ok) {
                    Err(e) => Err(e),
                    Ok(()) => Ok(true),
                },
            },
        },
    }
}

/// The progress of a run through its pending versions: how many were
/// settled, which were recorded, and the fatal condition met, if any.
pub struct Progress {
    force: bool,
    pending: Vec<MigrationFile>,
    done: usize,
    recorded: Vec<i32>,
    fatal: Option<EngineError>,
    met: Ghost<Seq<StepOutcomes>>,
}

impl Progress {
    pub closed spec fn force_spec(&self) -> bool {
        self.force
    }

    /// The pending entries, in the order they are applied.
    pub closed spec fn pending_view(&self) -> Seq<MigrationView> {
        views(self.pending@)
    }

    /// How many pending versions were settled.
    pub closed spec fn done_spec(&self) -> nat {
        self.done as nat
    }

    /// What the settled versions met, in order.
    pub closed spec fn met_spec(&self) -> Seq<StepOutcomes> {
        self.met@
    }

    /// What the run has left so far.
    pub closed spec fn model(&self) -> RunModel {
        RunModel { recorded: self.recorded@, fatal: self.fatal }
    }

    pub closed spec fn wf(&self) -> bool {
        &&& self.done <= self.pending@.len()
        &&& self.met@.len() == self.done
        &&& self.model() == run_spec(
            self.force,
            views(self.pending@).take(self.done as int),
            self.met@,
        )
    }

    /// A run that is about to apply `pending` under the given force policy.
    pub fn new(force: bool, pending: Vec<MigrationFile>) -> (r: Progress)
        ensures
            r.wf(),
            r.force_spec() == force,
            r.pending_view() == views(pending@),
            r.done_spec() == 0,
            r.model() == (RunModel { recorded: Seq::empty(), fatal: None }),
    {
        let r = Progress {
            force,
            pending,
            done: 0,
            recorded: Vec::new(),
            fatal: None,
            met: Ghost(Seq::empty()),
        };
        assert(views(r.pending@).take(0) =~= Seq::<MigrationView>::empty());
        r
    }

    /// The next version to apply, or `None` when the run is over: every
    /// pending version was settled, or one was fatal.
    pub fn next(&self) -> (r: Option<&MigrationFile>)
        requires
            self.wf(),
        ensures
            self.done_spec() < self.pending_view().len() && self.model().fatal is None
                ==> r is Some && r->0@ == self.pending_view()[self.done_spec() as int],
            !(self.done_spec() < self.pending_view().len() && self.model().fatal is None)
                ==> r is None,
    {
        if self.done < self.pending.len() && self.fatal.is_none() {
            Some(&self.pending[self.done])
        } else {
            None
        }
    }

    /// Settles the next version from what its steps met, and says how it
    /// ended. The run's state stays that of the model run over the versions
    /// settled so far.
    pub fn settle(&mut self, o: StepOutcomes) -> (r: Result<bool, EngineError>)
        requires
            old(self).wf(),
            old(self).done_spec() < old(self).pending_view().len(),
            old(self).model().fatal is None,
        ensures
            final(self).wf(),
            final(self).force_spec() == old(self).force_spec(),
            final(self).pending_view() == old(self).pending_view(),
            final(self).done_spec() == old(self).done_spec() + 1,
            final(self).met_spec() == old(self).met_spec().push(o),
            final(self).model() == run_spec(
                final(self).force_spec(),
                final(self).pending_view().take(final(self).done_spec() as int),
                final(self).met_spec(),
            ),
            r == version_result(
                old(self).force_spec(),
                old(self).pending_view()[old(self).done_spec() as int].0,
                o,
            ),
    {
        let ghost all = views(self.pending@);
        let ghost i = self.done as int;
        let ghost met0 = self.met@;
        assert(all.len() == self.pending@.len());
        let d = self.done;
        assert(d < self.pending.len());
        let v = self.pending[d].version;
        let r = settle_version(self.force, v, o);
        match r {
            Err(e) => {
                self.fatal = Some(e);
            },
            Ok(true) => {
                self.recorded.push(v);
            },
            Ok(false) => {},
        }
        self.done = d + 1;
        self.met = Ghost(met0.push(o));
        proof {
            let t = all.take(i + 1);
            assert(t.drop_last() =~= all.take(i));
            assert(t.last() == all[i]);
            assert(all[i].0 == v);
            lemma_run_prefix(self.force, all.take(i), met0, o);
        }
        r
    }

    /// What the run has recorded so far, in order.
    pub fn recorded(&self) -> (r: &Vec<i32>)
        requires
            self.wf(),
        ensures
            r@ == self.model().recorded,
    {
        &self.recorded
    }
}

proof fn lemma_run_prefix(force: bool, pending: Seq<MigrationView>, met: Seq<StepOutcomes>, o: StepOutcomes)
    requires
        met.len() >= pending.len(),
    ensures
        run_spec(force, pending, met.push(o)) == run_spec(force, pending, met),
    decreases pending.len(),
{
    if pending.len() > 0 {
        lemma_run_prefix(force, pending.drop_last(), met, o);
        assert(met.push(o)[pending.len() - 1] == met[pending.len() - 1]);
    }
}

/// The versions of a sequence of entries.
pub open spec fn versions(s: Seq<MigrationView>) -> Seq<i32> {
    s.map_values(|m: MigrationView| m.0)
}

proof fn lemma_all_ok_run(force: bool, pending: Seq<MigrationView>, outcomes: Seq<StepOutcomes>)
    requires
        outcomes.len() >= pending.len(),
        forall|i: int| 0 <= i < pending.len() ==> all_ok(#[trigger] outcomes[i]),
    ensures
        run_spec(force, pending, outcomes) == (RunModel { recorded: versions(pending), fatal: None }),
    decreases pending.len(),
{
    if pending.len() > 0 {
        lemma_all_ok_run(force, pending.drop_last(), outcomes);
        assert(all_ok(outcomes[pending.len() - 1]));
        assert(versions(pending) =~= versions(pending.drop_last()).push(pending.last().0));
    } else {
        assert(versions(pending) =~= Seq::<i32>::empty());
    }
}

proof fn lemma_pending_from_catalog(catalog: Seq<MigrationView>, ledger: Set<i32>, x: MigrationView)
    requires
        pending_spec(catalog, ledger).contains(x),
    ensures
        catalog.contains(x),
        !ledger.contains(x.0),
    decreases catalog.len(),
{
    if catalog.len() > 0 {
        let rest = pending_spec(catalog.drop_last(), ledger);
        if rest.contains(x) {
            lemma_pending_from_catalog(catalog.drop_last(), ledger, x);
            let k = choose|k: int| 0 <= k < catalog.drop_last().len() && catalog.drop_last()[k] == x;
            assert(catalog[k] == x);
        } else {
            assert(x == catalog.last());
            assert(catalog[catalog.len() - 1] == x);
        }
    }
}

proof fn lemma_catalog_covered(catalog: Seq<MigrationView>, ledger: Set<i32>, i: int)
    requires
        0 <= i < catalog.len(),
    ensures
        ledger.contains(catalog[i].0) || pending_spec(catalog, ledger).contains(catalog[i]),
    decreases catalog.len(),
{
    let rest = pending_spec(catalog.drop_last(), ledger);
    if i < catalog.len() - 1 {
        lemma_catalog_covered(catalog.drop_last(), ledger, i);
        assert(catalog.drop_last()[i] == catalog[i]);
        if rest.contains(catalog[i]) {
            let k = choose|k: int| 0 <= k < rest.len() && rest[k] == catalog[i];
            if !ledger.contains(catalog.last().0) {
                assert(rest.push(catalog.last())[k] == catalog[i]);
            }
        }
    } else if !ledger.contains(catalog.last().0) {
        assert(rest.push(catalog.last())[rest.len() as int] == catalog[i]);
    }
}

proof fn lemma_nothing_pending(catalog: Seq<MigrationView>, ledger: Set<i32>)
    requires
        forall|i: int| 0 <= i < catalog.len() ==> ledger.contains(#[trigger] catalog[i].0),
    ensures
        pending_spec(catalog, ledger).len() == 0,
    decreases catalog.len(),
{
    if catalog.len() > 0 {
        assert(ledger.contains(catalog[catalog.len() - 1].0));
        assert forall|i: int| 0 <= i < catalog.drop_last().len() implies ledger.contains(
            #[trigger] catalog.drop_last()[i].0,
        ) by {
            assert(catalog.drop_last()[i] == catalog[i]);
        }
        lemma_nothing_pending(catalog.drop_last(), ledger);
    }
}

/// A second run finds nothing to do. After a run in which every pending
/// version was read, run, recorded and committed, the ledger holds every
/// version of the catalog, so the same catalog leaves nothing pending; and
/// the database and its bookkeeping schema, now present, are not created
/// again.
pub proof fn lemma_rerun_applies_nothing(
    force: bool,
    catalog: Seq<MigrationView>,
    ledger: Set<i32>,
    outcomes: Seq<StepOutcomes>,
    schema_rows: nat,
)
    requires
        outcomes.len() >= pending_spec(catalog, ledger).len(),
        forall|i: int|
            0 <= i < pending_spec(catalog, ledger).len() ==> all_ok(#[trigger] outcomes[i]),
        schema_rows >= 1,
    ensures
        ({
            let first = run_spec(force, pending_spec(catalog, ledger), outcomes);
            &&& first.fatal is None
            &&& pending_spec(catalog, ledger.union(first.recorded.to_set())).len() == 0
        }),
        database_action_spec(1) == Ok::<DatabaseAction, EngineError>(DatabaseAction::Present),
        schema_action_spec(schema_rows) == SchemaAction::Present,
{
    let p = pending_spec(catalog, ledger);
    lemma_all_ok_run(force, p, outcomes);
    let after = ledger.union(versions(p).to_set());
    assert forall|i: int| 0 <= i < catalog.len() implies after.contains(#[trigger] catalog[i].0) by {
        lemma_catalog_covered(catalog, ledger, i);
        if !ledger.contains(catalog[i].0) {
            let k = choose|k: int| 0 <= k < p.len() && p[k] == catalog[i];
            assert(versions(p)[k] == catalog[i].0);
            assert(versions(p).contains(catalog[i].0));
        }
    }
    lemma_nothing_pending(catalog, after);
}

/// Pending versions come in catalog order: from a catalog ordered by
/// version, lowest first, they come ordered the same way, and from a catalog
/// with no version twice, in strictly ascending order.
pub proof fn lemma_pending_in_order(catalog: Seq<MigrationView>, ledger: Set<i32>)
    ensures
        sorted_by_version(catalog) ==> sorted_by_version(pending_spec(catalog, ledger)),
        strictly_ascending(catalog) ==> strictly_ascending(pending_spec(catalog, ledger)),
    decreases catalog.len(),
{
    if catalog.len() > 0 {
        let init = catalog.drop_last();
        let rest = pending_spec(init, ledger);
        lemma_pending_in_order(init, ledger);
        assert forall|k: int| 0 <= k < rest.len() implies #[trigger] rest[k].0 <= catalog.last().0
            && (strictly_ascending(catalog) ==> rest[k].0 < catalog.last().0) || !sorted_by_version(
            catalog,
        ) by {
            assert(rest.contains(rest[k]));
            lemma_pending_from_catalog(init, ledger, rest[k]);
            let j = choose|j: int| 0 <= j < init.len() && init[j] == rest[k];
            assert(catalog[j] == rest[k]);
            assert(catalog[catalog.len() - 1] == catalog.last());
        }
        if sorted_by_version(catalog) {
            assert(sorted_by_version(init));
        }
        if strictly_ascending(catalog) {
            assert(strictly_ascending(init));
            assert(sorted_by_version(catalog));
        }
    }
}

proof fn lemma_fatal_persists(
    force: bool,
    pending: Seq<MigrationView>,
    outcomes: Seq<StepOutcomes>,
    i: int,
    k: int,
)
    requires
        0 <= i <= k <= pending.len(),
        run_spec(force, pending.take(i), outcomes).fatal is Some,
    ensures
        run_spec(force, pending.take(k), outcomes) == run_spec(force, pending.take(i), outcomes),
    decreases k - i,
{
    if k > i {
        lemma_fatal_persists(force, pending, outcomes, i, k - 1);
        assert(pending.take(k).drop_last() =~= pending.take(k - 1));
    }
}

proof fn lemma_recorded_from_pending(force: bool, pending: Seq<MigrationView>, outcomes: Seq<StepOutcomes>, x: i32)
    requires
        run_spec(force, pending, outcomes).recorded.contains(x),
    ensures
        exists|j: int| 0 <= j < pending.len() && pending[j].0 == x,
    decreases pending.len(),
{
    if pending.len() > 0 {
        let prev = run_spec(force, pending.drop_last(), outcomes);
        if prev.recorded.contains(x) {
            lemma_recorded_from_pending(force, pending.drop_last(), outcomes, x);
            let j = choose|j: int| 0 <= j < pending.drop_last().len() && pending.drop_last()[j].0 == x;
            assert(pending[j].0 == x);
        } else {
            assert(pending[pending.len() - 1].0 == x);
        }
    }
}

proof fn lemma_run_goes_on(
    pending: Seq<MigrationView>,
    outcomes: Seq<StepOutcomes>,
    i: int,
    k: int,
)
    requires
        0 <= i < k <= pending.len(),
        outcomes.len() >= pending.len(),
        run_spec(true, pending.take(i + 1), outcomes).fatal is None,
        forall|j: int| i < j < pending.len() ==> all_ok(#[trigger] outcomes[j]),
    ensures
        run_spec(true, pending.take(k), outcomes).fatal is None,
        forall|j: int|
            i < j < k ==> run_spec(true, pending.take(k), outcomes).recorded.contains(
                #[trigger] pending[j].0,
            ),
    decreases k - i,
{
    if k > i + 1 {
        lemma_run_goes_on(pending, outcomes, i, k - 1);
        let t = pending.take(k);
        assert(t.drop_last() =~= pending.take(k - 1));
        assert(all_ok(outcomes[k - 1]));
        let prev = run_spec(true, pending.take(k - 1), outcomes);
        assert(run_spec(true, t, outcomes).recorded == prev.recorded.push(pending[k - 1].0));
        assert forall|j: int| i < j < k implies run_spec(true, t, outcomes).recorded.contains(
            #[trigger] pending[j].0,
        ) by {
            if j < k - 1 {
                let r = prev.recorded;
                let m = choose|m: int| 0 <= m < r.len() && r[m] == pending[j].0;
                assert(r.push(pending[k - 1].0)[m] == pending[j].0);
            } else {
                assert(prev.recorded.push(pending[k - 1].0)[prev.recorded.len() as int] == pending[j].0);
            }
        }
    }
}

proof fn lemma_not_recorded_later(
    force: bool,
    pending: Seq<MigrationView>,
    outcomes: Seq<StepOutcomes>,
    i: int,
    k: int,
)
    requires
        0 <= i < k <= pending.len(),
        strictly_ascending(pending),
        !run_spec(force, pending.take(i + 1), outcomes).recorded.contains(pending[i].0),
    ensures
        !run_spec(force, pending.take(k), outcomes).recorded.contains(pending[i].0),
    decreases k - i,
{
    if k > i + 1 {
        lemma_not_recorded_later(force, pending, outcomes, i, k - 1);
        let t = pending.take(k);
        assert(t.drop_last() =~= pending.take(k - 1));
        assert(t.last().0 != pending[i].0);
        let prev = run_spec(force, pending.take(k - 1), outcomes);
        if run_spec(force, t, outcomes).recorded.contains(pending[i].0) {
            let r = prev.recorded;
            let m = choose|m: int|
                0 <= m < r.push(t.last().0).len() && r.push(t.last().0)[m] == pending[i].0;
            if m < r.len() {
                assert(r[m] == pending[i].0);
            }
        }
    }
}

/// The force policy on a version whose SQL fails, in a run that has reached
/// it. Without force the run ends there with that failure, and the version
/// stays unrecorded. With force the run goes on as if the version were not
/// there: nothing is recorded for it, and where every later version
/// succeeds, each of them is recorded.
pub proof fn lemma_force_policy(
    force: bool,
    pending: Seq<MigrationView>,
    outcomes: Seq<StepOutcomes>,
    i: int,
)
    requires
        0 <= i < pending.len(),
        outcomes.len() >= pending.len(),
        strictly_ascending(pending),
        run_spec(force, pending.take(i), outcomes).fatal is None,
        outcomes[i].read_ok,
        !outcomes[i].exec_ok,
    ensures
        !force ==> run_spec(force, pending, outcomes).fatal == Some(
            EngineError::ApplyFailed(pending[i].0),
        ),
        !run_spec(force, pending, outcomes).recorded.contains(pending[i].0),
        force ==> run_spec(force, pending.take(i + 1), outcomes) == run_spec(
            force,
            pending.take(i),
            outcomes,
        ),
        force && (forall|j: int| i < j < pending.len() ==> all_ok(#[trigger] outcomes[j]))
            ==> run_spec(force, pending, outcomes).fatal is None && (forall|j: int|
            i < j < pending.len() ==> run_spec(force, pending, outcomes).recorded.contains(
                #[trigger] pending[j].0,
            )),
{
    let v = pending[i].0;
    let t = pending.take(i + 1);
    assert(t.drop_last() =~= pending.take(i));
    assert(t.last() == pending[i]);
    assert(pending.take(pending.len() as int) =~= pending);
    if run_spec(force, pending.take(i), outcomes).recorded.contains(v) {
        lemma_recorded_from_pending(force, pending.take(i), outcomes, v);
        let j = choose|j: int| 0 <= j < pending.take(i).len() && pending.take(i)[j].0 == v;
        assert(pending[j].0 == v);
    }
    if !force {
        lemma_fatal_persists(force, pending, outcomes, i + 1, pending.len() as int);
    } else {
        if forall|j: int| i < j < pending.len() ==> all_ok(#[trigger] outcomes[j]) {
            if i + 1 < pending.len() {
                lemma_run_goes_on(pending, outcomes, i, pending.len() as int);
            }
        }
        lemma_not_recorded_later(force, pending, outcomes, i, pending.len() as int);
    }
}

} // verus!
