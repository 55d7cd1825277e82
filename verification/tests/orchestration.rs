//! Migration units, the registry, and the orchestrator, exercised on the
//! catalog model: first runs, reruns, crash-resume, and every failure phase.

use schema_migrations::ddl::DdlOp;
use schema_migrations::ddl::Effect;
use schema_migrations::errors::MigrationError;
use schema_migrations::errors::Phase;
use schema_migrations::migration::MigrationUnit;
use schema_migrations::registry::Registry;
use schema_migrations::runner::run;
use schema_migrations::store::Store;

fn s(x: &str) -> String {
    x.to_string()
}

/// Unit A: adds column `foo` to table `t`.  Fresh path creates `t` in its
/// final shape directly; upgrade path alters the existing `t`.
fn unit_a() -> MigrationUnit {
    MigrationUnit::new(
        s("add_foo_to_t"),
        vec![],
        Effect::ColumnExists { table: s("t"), column: s("foo") },
        vec![DdlOp::CreateTableIfAbsent {
            table: s("t"),
            engine: s("MergeTree"),
            columns: vec![s("id"), s("foo")],
        }],
        vec![DdlOp::AddColumnIfAbsent { table: s("t"), column: s("foo") }],
        s("ALTER TABLE t DROP COLUMN foo;"),
    )
    .unwrap()
}

/// Unit B: creates table `u`; its precondition requires unit A's effect.
fn unit_b() -> MigrationUnit {
    MigrationUnit::new(
        s("create_u"),
        vec![Effect::ColumnExists { table: s("t"), column: s("foo") }],
        Effect::TableExists { table: s("u") },
        vec![DdlOp::CreateTableIfAbsent {
            table: s("u"),
            engine: s("MergeTree"),
            columns: vec![s("id")],
        }],
        vec![DdlOp::CreateTableIfAbsent {
            table: s("u"),
            engine: s("MergeTree"),
            columns: vec![s("id")],
        }],
        s("DROP TABLE u;"),
    )
    .unwrap()
}

/// A store that already holds table `t` without the `foo` column.
fn store_with_bare_t() -> Store {
    let mut store = Store::new();
    store.create_table_if_absent(&s("t"), &s("MergeTree"), &vec![s("id")]);
    store
}

#[test]
fn identity_is_nonempty_and_stable() {
    let a = unit_a();
    let first = a.name();
    let second = a.name();
    assert!(!first.is_empty());
    assert_eq!(first, second);
    assert_eq!(first, s("add_foo_to_t"));
}

#[test]
fn constructor_rejects_empty_identity() {
    let r = MigrationUnit::new(
        s(""),
        vec![],
        Effect::TableExists { table: s("t") },
        vec![],
        vec![],
        s("DROP TABLE t;"),
    );
    assert!(r.is_none());
}

#[test]
fn constructor_rejects_invalid_rollback_script() {
    let r = MigrationUnit::new(
        s("broken_rollback"),
        vec![],
        Effect::TableExists { table: s("t") },
        vec![],
        vec![],
        s("DROP TABLE t -- and then; some more\nDROP TABLE u;"),
    );
    assert!(r.is_none());
}

#[test]
fn has_succeeded_is_idempotent() {
    let a = unit_a();
    let mut store = store_with_bare_t();
    let before_1 = a.has_succeeded(&store).unwrap();
    let before_2 = a.has_succeeded(&store).unwrap();
    assert_eq!(before_1, before_2);
    assert!(!before_1);
    a.apply(false, &mut store).unwrap();
    let after_1 = a.has_succeeded(&store).unwrap();
    let after_2 = a.has_succeeded(&store).unwrap();
    assert_eq!(after_1, after_2);
    assert!(after_1);
}

#[test]
fn apply_establishes_the_effect() {
    let a = unit_a();
    let mut store = store_with_bare_t();
    a.apply(false, &mut store).unwrap();
    assert!(a.has_succeeded(&store).unwrap());
    assert!(store.column_exists(&s("t"), &s("foo")));
}

#[test]
fn apply_twice_equals_apply_once() {
    let a = unit_a();
    let mut store = store_with_bare_t();
    a.apply(false, &mut store).unwrap();
    let columns_once = store.column_count(&s("t")).unwrap();
    // Resume after a simulated crash: the same apply runs again from the top.
    a.apply(false, &mut store).unwrap();
    assert_eq!(store.column_count(&s("t")).unwrap(), columns_once);
    assert_eq!(store.table_count(), 1);
    assert!(a.has_succeeded(&store).unwrap());
}

#[test]
fn should_apply_is_false_once_succeeded() {
    let a = unit_a();
    let mut store = store_with_bare_t();
    assert!(a.should_apply(&store).unwrap());
    a.apply(false, &mut store).unwrap();
    assert!(a.can_apply(&store).is_ok());
    assert!(!a.should_apply(&store).unwrap());
}

#[test]
fn rollback_instructions_are_valid_and_verbatim() {
    let a = unit_a();
    let script = a.rollback_instructions();
    assert_eq!(script, s("ALTER TABLE t DROP COLUMN foo;"));
    assert!(schema_migrations::rollback::validate_rollback_script(script.as_str()));
}

#[test]
fn dependent_precondition_fails_until_dependency_succeeds() {
    let a = unit_a();
    let b = unit_b();
    let mut store = store_with_bare_t();
    assert!(!a.has_succeeded(&store).unwrap());
    let refused = b.can_apply(&store);
    assert!(matches!(
        refused,
        Err(MigrationError::MissingPrerequisite { needed: Effect::ColumnExists { .. } })
    ));
    assert!(!b.should_apply(&store).unwrap());
    a.apply(false, &mut store).unwrap();
    assert!(b.can_apply(&store).is_ok());
    assert!(b.should_apply(&store).unwrap());
}

#[test]
fn scenario_upgrade_run_then_noop_rerun() {
    // Registry = [A].  The store predates A: table t exists without foo.
    let mut registry = Registry::new();
    assert!(registry.register(unit_a()));
    let mut store = store_with_bare_t();
    assert!(!unit_a().has_succeeded(&store).unwrap());
    assert!(unit_a().should_apply(&store).unwrap());

    run(&registry, false, &mut store).unwrap();
    assert!(unit_a().has_succeeded(&store).unwrap());
    assert!(store.column_exists(&s("t"), &s("foo")));
    let columns_after_first = store.column_count(&s("t")).unwrap();

    // A repeated run skips the unit and leaves the schema as it was.
    assert!(!unit_a().should_apply(&store).unwrap());
    run(&registry, false, &mut store).unwrap();
    assert_eq!(store.column_count(&s("t")).unwrap(), columns_after_first);
    assert_eq!(store.table_count(), 1);
}

#[test]
fn scenario_clean_start_creates_final_shape_directly() {
    // Same unit A, but the store is freshly provisioned: no table t at all.
    let mut registry = Registry::new();
    assert!(registry.register(unit_a()));
    let mut store = Store::new();

    run(&registry, true, &mut store).unwrap();
    assert!(store.table_exists(&s("t")));
    assert!(store.table_has_engine(&s("t"), &s("MergeTree")));
    assert!(store.column_exists(&s("t"), &s("id")));
    assert!(store.column_exists(&s("t"), &s("foo")));
    // The final shape was created in one step, not by an incremental alter:
    // t holds exactly its two declared columns.
    assert_eq!(store.column_count(&s("t")).unwrap(), 2);
}

#[test]
fn scenario_apply_failure_halts_run_before_later_units() {
    // Registry = [A, B]; B's precondition requires A's effect.  The store is
    // empty and the run is an upgrade, so A's alter hits a missing table.
    let mut registry = Registry::new();
    assert!(registry.register(unit_a()));
    assert!(registry.register(unit_b()));
    let mut store = Store::new();

    let err = run(&registry, false, &mut store).unwrap_err();
    assert_eq!(err.identity, s("add_foo_to_t"));
    assert_eq!(err.phase, Phase::Apply);
    assert!(matches!(err.cause, Some(MigrationError::TableNotFound { .. })));
    // B was never attempted.
    assert!(!store.table_exists(&s("u")));

    // The operator fixes the fault (provisions table t) and restarts: A's
    // gate re-evaluates, A lands, and B proceeds once A has succeeded.
    store.create_table_if_absent(&s("t"), &s("MergeTree"), &vec![s("id")]);
    run(&registry, false, &mut store).unwrap();
    assert!(store.column_exists(&s("t"), &s("foo")));
    assert!(store.table_exists(&s("u")));
}

#[test]
fn precondition_failure_aborts_run() {
    // B alone, with its dependency nowhere in sight.
    let mut registry = Registry::new();
    assert!(registry.register(unit_b()));
    let mut store = Store::new();

    let err = run(&registry, false, &mut store).unwrap_err();
    assert_eq!(err.identity, s("create_u"));
    assert_eq!(err.phase, Phase::Precondition);
    assert!(matches!(err.cause, Some(MigrationError::MissingPrerequisite { .. })));
    assert!(!store.table_exists(&s("u")));
}

#[test]
fn verification_failure_is_reported_distinctly() {
    // A unit whose apply does nothing at all, so its claimed effect never
    // appears: the defensive re-check after apply must catch it.
    let hollow = MigrationUnit::new(
        s("hollow_unit"),
        vec![],
        Effect::ColumnExists { table: s("t"), column: s("foo") },
        vec![],
        vec![],
        s("SELECT 1;"),
    )
    .unwrap();
    let mut registry = Registry::new();
    assert!(registry.register(hollow));
    let mut store = store_with_bare_t();

    let err = run(&registry, false, &mut store).unwrap_err();
    assert_eq!(err.identity, s("hollow_unit"));
    assert_eq!(err.phase, Phase::Verification);
    assert!(err.cause.is_none());
}

#[test]
fn failed_apply_keeps_landed_steps() {
    // A two-step upgrade path whose second step hits a missing table: the
    // first step lands and stays; nothing else is written.
    let unit = MigrationUnit::new(
        s("two_phase"),
        vec![],
        Effect::ColumnExists { table: s("t"), column: s("foo") },
        vec![],
        vec![
            DdlOp::CreateTableIfAbsent {
                table: s("aux"),
                engine: s("Log"),
                columns: vec![s("id")],
            },
            DdlOp::AddColumnIfAbsent { table: s("t"), column: s("foo") },
        ],
        s("DROP TABLE aux;"),
    )
    .unwrap();
    let mut store = Store::new();
    let err = unit.apply(false, &mut store).unwrap_err();
    assert!(matches!(err, MigrationError::TableNotFound { .. }));
    assert!(store.table_exists(&s("aux")));
    assert!(!store.table_exists(&s("t")));
    // Provision t and rerun the whole path: the landed step is skipped and
    // the rest completes.
    store.create_table_if_absent(&s("t"), &s("MergeTree"), &vec![s("id")]);
    unit.apply(false, &mut store).unwrap();
    assert!(store.column_exists(&s("t"), &s("foo")));
    assert_eq!(store.table_count(), 2);
}

#[test]
fn resuming_a_half_landed_apply_self_heals() {
    // A two-step fresh path: create t, then add foo.
    let two_step = MigrationUnit::new(
        s("provision_t"),
        vec![],
        Effect::ColumnExists { table: s("t"), column: s("foo") },
        vec![
            DdlOp::CreateTableIfAbsent {
                table: s("t"),
                engine: s("MergeTree"),
                columns: vec![s("id")],
            },
            DdlOp::AddColumnIfAbsent { table: s("t"), column: s("foo") },
        ],
        vec![DdlOp::AddColumnIfAbsent { table: s("t"), column: s("foo") }],
        s("DROP TABLE t;"),
    )
    .unwrap();

    // The uninterrupted run, for comparison.
    let mut full = Store::new();
    two_step.apply(true, &mut full).unwrap();

    // A run that stopped after the first step: only the create landed.
    // Restarting re-runs the whole path; the landed step is skipped.
    let mut resumed = store_with_bare_t();
    two_step.apply(true, &mut resumed).unwrap();

    for store in [&full, &resumed] {
        assert_eq!(store.table_count(), 1);
        assert_eq!(store.column_count(&s("t")).unwrap(), 2);
        assert!(store.column_exists(&s("t"), &s("id")));
        assert!(store.column_exists(&s("t"), &s("foo")));
    }
}

#[test]
fn registry_refuses_duplicate_identities() {
    let mut registry = Registry::new();
    assert!(registry.register(unit_a()));
    assert!(!registry.register(unit_a()));
    assert_eq!(registry.len(), 1);
    assert!(registry.register(unit_b()));
    assert_eq!(registry.len(), 2);
}

#[test]
fn registry_hands_out_every_rollback_script_verbatim() {
    let mut registry = Registry::new();
    assert!(registry.register(unit_a()));
    assert!(registry.register(unit_b()));
    let scripts = registry.rollback_scripts();
    assert_eq!(scripts.len(), 2);
    assert_eq!(scripts[0], s("ALTER TABLE t DROP COLUMN foo;"));
    assert_eq!(scripts[1], s("DROP TABLE u;"));
    for script in &scripts {
        assert!(schema_migrations::rollback::validate_rollback_script(script.as_str()));
    }
}

#[test]
fn empty_registry_run_is_a_successful_noop() {
    let registry = Registry::new();
    let mut store = store_with_bare_t();
    run(&registry, false, &mut store).unwrap();
    assert_eq!(store.table_count(), 1);
    assert!(!store.column_exists(&s("t"), &s("foo")));
}

#[test]
fn introspection_tolerates_missing_objects() {
    let store = Store::new();
    assert!(!store.table_exists(&s("t")));
    assert!(!store.column_exists(&s("t"), &s("foo")));
    assert!(!store.table_has_engine(&s("t"), &s("MergeTree")));
    assert!(store.column_count(&s("t")).is_none());
}

#[test]
fn ddl_primitives_are_guarded_on_existence() {
    let mut store = Store::new();
    // Altering a missing table is the one DDL failure.
    assert!(!store.add_column_if_absent(&s("t"), &s("foo")));
    store.create_table_if_absent(&s("t"), &s("MergeTree"), &vec![s("id")]);
    // Re-creating is a no-op, not a reshape.
    store.create_table_if_absent(&s("t"), &s("Log"), &vec![s("other")]);
    assert!(store.table_has_engine(&s("t"), &s("MergeTree")));
    assert_eq!(store.column_count(&s("t")).unwrap(), 1);
    // Adding a column is idempotent.
    assert!(store.add_column_if_absent(&s("t"), &s("foo")));
    assert!(store.add_column_if_absent(&s("t"), &s("foo")));
    assert_eq!(store.column_count(&s("t")).unwrap(), 2);
}
