//! The ledger: the versions that a database has installed.
use std::collections::HashMap;
use vstd::prelude::*;

verus! {

broadcast use vstd::std_specs::hash::group_hash_axioms;

/// The set of installed versions, as loaded once at the start of a run.
pub struct Ledger {
    installed: HashMap<i32, bool>,
}

impl View for Ledger {
    type V = Set<i32>;

    closed spec fn view(&self) -> Set<i32> {
        self.installed@.dom()
    }
}

impl Ledger {
    /// The ledger of the versions read from the bookkeeping table.
    pub fn from_rows(rows: Vec<i32>) -> (r: Ledger)
        ensures
            r@ == rows@.to_set(),
    {
        let mut installed: HashMap<i32, bool> = HashMap::new();
        let mut i: usize = 0;
        while i < rows.len()
            invariant
                i <= rows.len(),
                installed@.dom() == rows@.take(i as int).to_set(),
            decreases rows.len() - i,
        {
            installed.insert(rows[i], true);
            assert(rows@.take(i + 1) =~= rows@.take(i as int).push(rows@[i as int]));
            assert(rows@.take(i + 1).to_set() =~= rows@.take(i as int).to_set().insert(rows@[i as int]))
                by {
                broadcast use vstd::seq_lib::group_seq_properties;

            }
            i = i + 1;
        }
        assert(rows@.take(rows.len() as int) =~= rows@);
        Ledger { installed }
    }

    /// Whether a version is installed.
    pub fn contains(&self, version: i32) -> (r: bool)
        ensures
            r == self@.contains(version),
    {
        self.installed.contains_key(&version)
    }
}

} // verus!
