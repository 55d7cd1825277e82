//! Schema-migration orchestration for a column-oriented, non-transactional
//! analytics store.
//!
//! The store offers no transactional rollback, so every schema change must be
//! re-runnable: whether a migration has taken effect is decided by inspecting
//! the store's live metadata catalog, never a separate ledger.  This crate
//! models that catalog, describes each migration as data (its identity, its
//! precondition, the metadata fact that marks it as done, its DDL steps for
//! fresh and upgrading stores, and a hand-written rollback script), and proves
//! that the orchestrator's precondition / skip / apply / verify protocol
//! leaves the catalog with every migration's effect in place.

pub mod ddl;
pub mod errors;
pub mod migration;
pub mod registry;
pub mod rollback;
pub mod runner;
pub mod store;
