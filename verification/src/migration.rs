//! Migration units and the interface the orchestrator drives them through.
//!
//! The `Migration` trait is the capability set of one schema change:
//! identity, precondition, execution gate, apply, rollback script, and the
//! idempotency check.  `MigrationUnit` is the registered implementation: it
//! describes a migration as data — the facts it depends on, the fact that
//! marks it as done, and its DDL steps for the fresh-provision and upgrade
//! paths — so every method is checked against the catalog model.

use vstd::prelude::*;

use crate::ddl::DdlOp;
use crate::ddl::Effect;
use crate::ddl::clone_effect;
use crate::ddl::effect_holds;
use crate::ddl::effect_present;
use crate::ddl::lemma_ops_establish;
use crate::ddl::lemma_ops_idempotent;
use crate::ddl::lemma_resume_after_partial_run;
use crate::ddl::op_establishes;
use crate::ddl::ops_landed;
use crate::ddl::ops_result;
use crate::ddl::run_ddl_ops;
use crate::errors::MigrationError;
use crate::rollback::valid_rollback;
use crate::rollback::validate_rollback_script;
use crate::store::Store;
use crate::store::TableView;
use crate::store::catalog_wf;

verus! {

/// The capability set of one schema change, as the orchestrator drives it:
/// a stable identity, a precondition, an execution gate, the apply itself,
/// a rollback script for manual use, and the idempotency check that reads
/// the store's live metadata.
pub trait Migration: Sized {
    /// The declared identity of the unit.
    spec fn spec_identity(&self) -> Seq<char>;

    /// Structural validity of the unit itself.
    spec fn inv(&self) -> bool;

    /// Has this unit's effect taken hold in the catalog `sv`?
    spec fn spec_succeeded(&self, sv: Seq<TableView>) -> bool;

    /// Is it structurally safe to attempt this unit against `sv`?
    spec fn spec_precondition(&self, sv: Seq<TableView>) -> bool;

    /// The unit's stable, non-empty, declared name.  Never derived from
    /// runtime type information: that breaks under refactoring.
    fn name(&self) -> (r: String)
        requires
            self.inv(),
        ensures
            r@ == self.spec_identity(),
            r@.len() > 0,
    ;

    /// Check whether it is structurally safe to attempt this unit.  A
    /// failure is fatal to the run and never retried.
    fn can_apply(&self, store: &Store) -> (r: Result<(), MigrationError>)
        requires
            self.inv(),
            store.wf(),
        ensures
            r is Ok <==> self.spec_precondition(store@),
    ;

    /// The execution gate: true exactly when the unit's effect is not yet
    /// present and its precondition holds.
    fn should_apply(&self, store: &Store) -> (r: Result<bool, MigrationError>)
        requires
            self.inv(),
            store.wf(),
        ensures
            r matches Ok(b) ==> b == (self.spec_precondition(store@) && !self.spec_succeeded(
                store@,
            )),
    ;

    /// Execute the schema change.  `clean_start` selects the fresh-provision
    /// path (create final-shape objects directly) over the upgrade path
    /// (alter existing objects in place).  Whatever happens, the catalog
    /// stays well formed and no already-established fact is erased.
    fn apply(&self, clean_start: bool, store: &mut Store) -> (r: Result<(), MigrationError>)
        requires
            self.inv(),
            old(store).wf(),
        ensures
            final(store).wf(),
            forall|e: Effect| effect_holds(old(store)@, e) ==> effect_holds(final(store)@, e),
    ;

    /// The rollback script: pure, and always a valid sequence of complete
    /// statements, because a release pipeline executes it split at every
    /// delimiter, statement by statement.
    fn rollback_instructions(&self) -> (r: String)
        requires
            self.inv(),
        ensures
            valid_rollback(r@),
    ;

    /// The idempotency check: read the store's live metadata and report
    /// whether this unit's effect is present.  This is the single source of
    /// truth for "already applied"; there is no ledger.
    fn has_succeeded(&self, store: &Store) -> (r: Result<bool, MigrationError>)
        requires
            self.inv(),
            store.wf(),
        ensures
            r matches Ok(b) ==> b == self.spec_succeeded(store@),
    ;
}

/// One registered schema change, described as data: the facts it requires,
/// the fact that marks it as done, its DDL steps for each apply path, and
/// its rollback script.
pub struct MigrationUnit {
    identity: String,
    prerequisites: Vec<Effect>,
    effect: Effect,
    fresh_ops: Vec<DdlOp>,
    upgrade_ops: Vec<DdlOp>,
    rollback: String,
}

impl MigrationUnit {
    /// The fact whose presence marks this unit as applied.
    pub closed spec fn spec_effect(&self) -> Effect {
        self.effect
    }

    /// The facts this unit's precondition demands.
    pub closed spec fn spec_prerequisites(&self) -> Seq<Effect> {
        self.prerequisites@
    }

    /// The DDL steps of the chosen apply path.
    pub closed spec fn spec_ops(&self, clean_start: bool) -> Seq<DdlOp> {
        if clean_start {
            self.fresh_ops@
        } else {
            self.upgrade_ops@
        }
    }

    /// The unit's rollback script.
    pub closed spec fn spec_rollback(&self) -> Seq<char> {
        self.rollback@
    }

    /// Build a unit, refusing an empty identity or a rollback script that
    /// does not split into complete statements.
    pub fn new(
        identity: String,
        prerequisites: Vec<Effect>,
        effect: Effect,
        fresh_ops: Vec<DdlOp>,
        upgrade_ops: Vec<DdlOp>,
        rollback: String,
    ) -> (r: Option<MigrationUnit>)
        ensures
            match r {
                Some(u) => {
                    &&& u.inv()
                    &&& u.spec_identity() == identity@
                    &&& u.spec_prerequisites() == prerequisites@
                    &&& u.spec_effect() == effect
                    &&& u.spec_ops(true) == fresh_ops@
                    &&& u.spec_ops(false) == upgrade_ops@
                    &&& u.spec_rollback() == rollback@
                },
                None => identity@.len() == 0 || !valid_rollback(rollback@),
            },
            r is Some <==> identity@.len() > 0 && valid_rollback(rollback@),
    {
        if identity.as_str().is_empty() {
            return None;
        }
        if !validate_rollback_script(rollback.as_str()) {
            return None;
        }
        Some(MigrationUnit { identity, prerequisites, effect, fresh_ops, upgrade_ops, rollback })
    }
}

impl Migration for MigrationUnit {
    closed spec fn spec_identity(&self) -> Seq<char> {
        self.identity@
    }

    closed spec fn inv(&self) -> bool {
        self.identity@.len() > 0 && valid_rollback(self.rollback@)
    }

    open spec fn spec_succeeded(&self, sv: Seq<TableView>) -> bool {
        effect_holds(sv, self.spec_effect())
    }

    open spec fn spec_precondition(&self, sv: Seq<TableView>) -> bool {
        forall|k: int|
            0 <= k < self.spec_prerequisites().len() ==> effect_holds(
                sv,
                #[trigger] self.spec_prerequisites()[k],
            )
    }

    fn name(&self) -> (r: String) {
        self.name()
    }

    fn can_apply(&self, store: &Store) -> (r: Result<(), MigrationError>) {
        self.can_apply(store)
    }

    fn should_apply(&self, store: &Store) -> (r: Result<bool, MigrationError>) {
        self.should_apply(store)
    }

    fn apply(&self, clean_start: bool, store: &mut Store) -> (r: Result<(), MigrationError>) {
        self.apply(clean_start, store)
    }

    fn rollback_instructions(&self) -> (r: String) {
        self.rollback_instructions()
    }

    fn has_succeeded(&self, store: &Store) -> (r: Result<bool, MigrationError>) {
        self.has_succeeded(store)
    }
}

impl MigrationUnit {
    /// The unit's declared name, exactly its identity.
    pub fn name(&self) -> (r: String)
        requires
            self.inv(),
        ensures
            r@ == self.spec_identity(),
            r@.len() > 0,
    {
        self.identity.clone()
    }

    /// Check every prerequisite against the live catalog.  Succeeds exactly
    /// when all of them hold; the error names a prerequisite that does not.
    pub fn can_apply(&self, store: &Store) -> (r: Result<(), MigrationError>)
        requires
            store.wf(),
        ensures
            r is Ok <==> self.spec_precondition(store@),
            r matches Err(e) ==> e matches MigrationError::MissingPrerequisite { needed }
                && self.spec_prerequisites().contains(needed) && !effect_holds(store@, needed),
    {
        let n = self.prerequisites.len();
        let mut k: usize = 0;
        while k < n
            invariant
                n == self.prerequisites@.len(),
                k <= n,
                store.wf(),
                forall|j: int|
                    0 <= j < k ==> effect_holds(store@, #[trigger] self.prerequisites@[j]),
            decreases n - k,
        {
            if !effect_present(store, &self.prerequisites[k]) {
                proof {
                    assert(!effect_holds(store@, self.spec_prerequisites()[k as int]));
                    assert(self.spec_prerequisites().contains(self.spec_prerequisites()[k as int]));
                }
                return Err(
                    MigrationError::MissingPrerequisite {
                        needed: clone_effect(&self.prerequisites[k]),
                    },
                );
            }
            k += 1;
        }
        Ok(())
    }

    /// The execution gate, answered from live metadata alone: apply exactly
    /// when the precondition holds and the effect is not yet present.
    pub fn should_apply(&self, store: &Store) -> (r: Result<bool, MigrationError>)
        requires
            store.wf(),
        ensures
            r is Ok,
            r matches Ok(b) ==> b == (self.spec_precondition(store@) && !self.spec_succeeded(
                store@,
            )),
    {
        match self.can_apply(store) {
            Err(_) => Ok(false),
            Ok(()) => {
                let done = effect_present(store, &self.effect);
                Ok(!done)
            },
        }
    }

    /// Execute the schema change along the chosen path.  On success the
    /// catalog is exactly the left-to-right result of that path's steps; on
    /// failure it is exactly what the steps landed before the first failure
    /// left behind, and the path still cannot run from there.  Either way
    /// the catalog stays well formed and no established fact is erased.
    pub fn apply(&self, clean_start: bool, store: &mut Store) -> (r: Result<(), MigrationError>)
        requires
            old(store).wf(),
        ensures
            final(store).wf(),
            forall|e: Effect| effect_holds(old(store)@, e) ==> effect_holds(final(store)@, e),
            match r {
                Ok(()) => Some(final(store)@) == ops_result(
                    old(store)@,
                    self.spec_ops(clean_start),
                ),
                Err(err) => {
                    &&& ops_result(old(store)@, self.spec_ops(clean_start)) is None
                    &&& final(store)@ == ops_landed(old(store)@, self.spec_ops(clean_start))
                    &&& ops_result(final(store)@, self.spec_ops(clean_start)) is None
                    &&& err matches MigrationError::TableNotFound { table: _ }
                },
            },
    {
        if clean_start {
            run_ddl_ops(store, &self.fresh_ops)
        } else {
            run_ddl_ops(store, &self.upgrade_ops)
        }
    }

    /// The unit's rollback script, exactly as declared, and always a valid
    /// sequence of complete statements.
    pub fn rollback_instructions(&self) -> (r: String)
        requires
            self.inv(),
        ensures
            r@ == self.spec_rollback(),
            valid_rollback(r@),
    {
        self.rollback.clone()
    }

    /// The idempotency check: is this unit's effect present in the live
    /// catalog?  In this model introspection always answers.
    pub fn has_succeeded(&self, store: &Store) -> (r: Result<bool, MigrationError>)
        requires
            store.wf(),
        ensures
            r is Ok,
            r matches Ok(b) ==> b == self.spec_succeeded(store@),
    {
        Ok(effect_present(store, &self.effect))
    }
}

/// A valid unit's rollback script always splits into one or more complete
/// statements with no comment spanning a statement boundary: units with any
/// other script cannot be built.
pub proof fn lemma_inv_rollback_valid(u: MigrationUnit)
    requires
        u.inv(),
    ensures
        valid_rollback(u.spec_rollback()),
        u.spec_identity().len() > 0,
{
}

/// A unit's identity is stable: any two reads of it agree, and neither is
/// empty.
pub proof fn lemma_identity_stable(u: MigrationUnit, r1: Seq<char>, r2: Seq<char>)
    requires
        u.inv(),
        r1 == u.spec_identity(),
        r2 == u.spec_identity(),
    ensures
        r1 == r2,
        r1.len() > 0,
{
}

/// The idempotency check is idempotent: two reads against the same catalog
/// state agree.
pub proof fn lemma_has_succeeded_idempotent(u: MigrationUnit, sv: Seq<TableView>, b1: bool, b2: bool)
    requires
        b1 == u.spec_succeeded(sv),
        b2 == u.spec_succeeded(sv),
    ensures
        b1 == b2,
{
}

/// An already-applied unit is skipped: whenever its effect is present and
/// its precondition holds, the execution gate answers false.
pub proof fn lemma_skip_when_succeeded(u: MigrationUnit, sv: Seq<TableView>, gate: bool)
    requires
        gate == (u.spec_precondition(sv) && !u.spec_succeeded(sv)),
        u.spec_succeeded(sv),
    ensures
        !gate,
{
}

/// After a successful apply whose chosen path holds a step that establishes
/// the unit's effect, the idempotency check reports success.
pub proof fn lemma_apply_establishes_effect(
    u: MigrationUnit,
    clean_start: bool,
    sv: Seq<TableView>,
    sv2: Seq<TableView>,
)
    requires
        catalog_wf(sv),
        ops_result(sv, u.spec_ops(clean_start)) == Some(sv2),
        exists|k: int|
            0 <= k < u.spec_ops(clean_start).len() && op_establishes(
                #[trigger] u.spec_ops(clean_start)[k],
                u.spec_effect(),
            ),
    ensures
        u.spec_succeeded(sv2),
{
    lemma_ops_establish(sv, u.spec_ops(clean_start), sv2, u.spec_effect());
}

/// Applying a unit twice in a row — a crashed run resumed from the top —
/// leaves the catalog exactly as one successful apply left it, so its
/// idempotency check keeps answering the same.
pub proof fn lemma_apply_twice_is_once(
    u: MigrationUnit,
    clean_start: bool,
    sv: Seq<TableView>,
    sv2: Seq<TableView>,
)
    requires
        catalog_wf(sv),
        ops_result(sv, u.spec_ops(clean_start)) == Some(sv2),
    ensures
        ops_result(sv2, u.spec_ops(clean_start)) == Some(sv2),
{
    lemma_ops_idempotent(sv, u.spec_ops(clean_start), sv2);
}

/// A unit whose apply crashed part-way through self-heals: rerunning the
/// whole path from the partially applied catalog ends exactly where an
/// uninterrupted apply would have ended, because every step that already
/// landed is detected and skipped.
pub proof fn lemma_apply_resumes_after_crash(
    u: MigrationUnit,
    clean_start: bool,
    sv: Seq<TableView>,
    k: int,
)
    requires
        catalog_wf(sv),
        0 <= k <= u.spec_ops(clean_start).len(),
        ops_result(sv, u.spec_ops(clean_start).take(k)) is Some,
    ensures
        ops_result(
            ops_result(sv, u.spec_ops(clean_start).take(k))->Some_0,
            u.spec_ops(clean_start),
        ) == ops_result(sv, u.spec_ops(clean_start)),
{
    lemma_resume_after_partial_run(sv, u.spec_ops(clean_start), k);
}

/// A unit whose precondition names another unit's effect cannot proceed
/// until that unit has succeeded.
pub proof fn lemma_dependent_precondition_fails(
    a: MigrationUnit,
    b: MigrationUnit,
    sv: Seq<TableView>,
)
    requires
        b.spec_prerequisites().contains(a.spec_effect()),
        !a.spec_succeeded(sv),
    ensures
        !b.spec_precondition(sv),
{
    let k = choose|k: int|
        0 <= k < b.spec_prerequisites().len() && b.spec_prerequisites()[k] == a.spec_effect();
    assert(b.spec_prerequisites()[k] == a.spec_effect());
}

} // verus!
