//! The migration registry: an explicit, ordered sequence of migration
//! units.  Order is fixed at construction and encodes the dependency chain —
//! a unit may assume that everything registered before it has succeeded.
//! Identities are pairwise unique; a duplicate is refused at registration.

use vstd::prelude::*;

use crate::migration::Migration;
use crate::migration::MigrationUnit;
use crate::rollback::valid_rollback;

verus! {

/// The ordered collection of registered migration units.
pub struct Registry {
    units: Vec<MigrationUnit>,
}

impl View for Registry {
    type V = Seq<MigrationUnit>;

    closed spec fn view(&self) -> Seq<MigrationUnit> {
        self.units@
    }
}

impl Registry {
    /// Every registered unit is valid and no identity appears twice.
    pub open spec fn wf(&self) -> bool {
        &&& forall|i: int| 0 <= i < self@.len() ==> (#[trigger] self@[i]).inv()
        &&& forall|i: int, j: int|
            0 <= i < j < self@.len() ==> self@[i].spec_identity() != self@[j].spec_identity()
    }

    /// An empty registry.
    pub fn new() -> (r: Registry)
        ensures
            r@ == Seq::<MigrationUnit>::empty(),
            r.wf(),
    {
        Registry { units: Vec::new() }
    }

    /// How many units are registered.
    pub fn len(&self) -> (n: usize)
        ensures
            n == self@.len(),
    {
        self.units.len()
    }

    /// The unit at position `i` of the declared order.
    pub fn get(&self, i: usize) -> (u: &MigrationUnit)
        requires
            i < self@.len(),
        ensures
            *u == self@[i as int],
    {
        &self.units[i]
    }

    /// Append a unit to the declared order.  A unit whose identity is
    /// already registered is refused and nothing changes.
    pub fn register(&mut self, unit: MigrationUnit) -> (r: bool)
        requires
            old(self).wf(),
            unit.inv(),
        ensures
            final(self).wf(),
            r ==> final(self)@ == old(self)@.push(unit) && (forall|i: int|
                0 <= i < old(self)@.len() ==> (#[trigger] old(self)@[i]).spec_identity()
                    != unit.spec_identity()),
            !r ==> final(self)@ == old(self)@ && (exists|i: int|
                0 <= i < old(self)@.len() && (#[trigger] old(self)@[i]).spec_identity()
                    == unit.spec_identity()),
    {
        let new_name = unit.name();
        let n = self.units.len();
        let mut i: usize = 0;
        while i < n
            invariant
                n == self.units@.len(),
                i <= n,
                self.wf(),
                new_name@ == unit.spec_identity(),
                forall|j: int|
                    0 <= j < i ==> (#[trigger] self.units@[j]).spec_identity()
                        != unit.spec_identity(),
            decreases n - i,
        {
            let existing = self.units[i].name();
            if existing == new_name {
                return false;
            }
            i += 1;
        }
        self.units.push(unit);
        proof {
            assert(self@ == old(self)@.push(unit));
            assert(forall|j: int| 0 <= j < old(self)@.len() ==> self@[j] == old(self)@[j]);
            assert(self@[old(self)@.len() as int] == unit);
        }
        true
    }

    /// Every unit's rollback script, in registry order, for the release
    /// pipeline that checks and archives them.  Each script is handed out
    /// verbatim, and each splits into complete statements.
    pub fn rollback_scripts(&self) -> (r: Vec<String>)
        requires
            self.wf(),
        ensures
            r@.len() == self@.len(),
            forall|i: int|
                0 <= i < self@.len() ==> r@[i]@ == (#[trigger] self@[i]).spec_rollback(),
            forall|i: int| 0 <= i < self@.len() ==> valid_rollback(#[trigger] r@[i]@),
    {
        let n = self.units.len();
        let mut r: Vec<String> = Vec::new();
        let mut i: usize = 0;
        while i < n
            invariant
                n == self.units@.len(),
                i <= n,
                self.wf(),
                r@.len() == i,
                forall|j: int|
                    0 <= j < i ==> r@[j]@ == (#[trigger] self.units@[j]).spec_rollback(),
                forall|j: int| 0 <= j < i ==> valid_rollback(#[trigger] r@[j]@),
            decreases n - i,
        {
            proof {
                assert(self@[i as int].inv());
            }
            r.push(self.units[i].rollback_instructions());
            i += 1;
        }
        r
    }
}

/// Everything the registry holds is safe to roll back by hand: a well-formed
/// registry contains only units whose rollback scripts are valid.
pub proof fn lemma_registry_rollbacks_valid(reg: Registry)
    requires
        reg.wf(),
    ensures
        forall|i: int|
            0 <= i < reg@.len() ==> valid_rollback((#[trigger] reg@[i]).spec_rollback()),
{
    assert forall|i: int| 0 <= i < reg@.len() implies valid_rollback(
        (#[trigger] reg@[i]).spec_rollback(),
    ) by {
        crate::migration::lemma_inv_rollback_valid(reg@[i]);
    }
}

} // verus!
