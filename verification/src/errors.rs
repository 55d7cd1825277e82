//! The failures a migration run can surface.  Every failure is fatal to the
//! run that hit it: nothing is retried, and the first failure is reported
//! with the identity of the failing unit and the phase that failed.

use vstd::prelude::*;

use crate::ddl::Effect;

verus! {

/// Why a single migration unit refused or failed.
#[derive(Debug)]
pub enum MigrationError {
    /// The unit's precondition does not hold: a fact it depends on — normally
    /// an effect of an earlier unit — is not present in the catalog.
    MissingPrerequisite { needed: Effect },
    /// A DDL step tried to alter a table that does not exist.
    TableNotFound { table: String },
}

/// The phase of the per-unit protocol in which a run failed.
#[derive(Clone, Copy, PartialEq, Eq, Structural, Debug)]
pub enum Phase {
    /// `can_apply` refused: a prerequisite is missing.
    Precondition,
    /// An introspection query itself failed, as distinct from answering
    /// "not yet applied".
    Introspection,
    /// The unit's DDL failed part-way through.
    Apply,
    /// The unit's apply reported success, but the idempotency check still
    /// does not see the unit's effect: the unit's own logic is inconsistent.
    Verification,
}

/// The first fatal error of a run: which unit failed, in which phase, and
/// the unit-level cause where there is one.
#[derive(Debug)]
pub struct RunError {
    pub identity: String,
    pub phase: Phase,
    pub cause: Option<MigrationError>,
}

} // verus!
