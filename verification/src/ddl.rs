//! The DDL vocabulary of a migration: the metadata facts a migration can
//! depend on or promise (`Effect`) and the idempotent schema-change steps it
//! may issue (`DdlOp`), with their exact semantics over the catalog and the
//! lemmas the orchestrator's guarantees rest on: every step keeps the catalog
//! well formed, never erases an established effect, and re-running a list of
//! steps that already ran changes nothing.

use vstd::prelude::*;

use crate::store::Store;
use crate::store::TableView;
use crate::store::catalog_wf;
use crate::store::column_exists;
use crate::store::spec_add_column;
use crate::store::spec_create_table;
use crate::store::table_at;
use crate::store::table_exists;
use crate::errors::MigrationError;
use crate::store::with_column;

verus! {

/// A metadata fact about the catalog: what a migration requires of its
/// predecessors, and what marks its own success.
#[derive(Debug)]
pub enum Effect {
    TableExists { table: String },
    ColumnExists { table: String, column: String },
}

/// One idempotent schema-change step.  Each step is guarded on the current
/// catalog ("if absent"), so re-issuing it after a crash is harmless.
#[derive(Debug)]
pub enum DdlOp {
    CreateTableIfAbsent { table: String, engine: String, columns: Vec<String> },
    AddColumnIfAbsent { table: String, column: String },
}

/// Does the fact `e` hold of the catalog `sv`?
pub open spec fn effect_holds(sv: Seq<TableView>, e: Effect) -> bool {
    match e {
        Effect::TableExists { table } => table_exists(sv, table@),
        Effect::ColumnExists { table, column } => column_exists(sv, table@, column@),
    }
}

/// The catalog after one step, or `None` when the step fails (the one
/// failure: altering a table that does not exist).
pub open spec fn op_result(sv: Seq<TableView>, op: DdlOp) -> Option<Seq<TableView>> {
    match op {
        DdlOp::CreateTableIfAbsent { table, engine, columns } => Some(
            spec_create_table(sv, table@, engine@, columns.deep_view()),
        ),
        DdlOp::AddColumnIfAbsent { table, column } => if table_exists(sv, table@) {
            Some(spec_add_column(sv, table@, column@))
        } else {
            None
        },
    }
}

/// The catalog after a list of steps, run left to right, or `None` as soon as
/// one fails.
pub open spec fn ops_result(sv: Seq<TableView>, ops: Seq<DdlOp>) -> Option<Seq<TableView>>
    decreases ops.len(),
{
    if ops.len() == 0 {
        Some(sv)
    } else {
        match op_result(sv, ops[0]) {
            None => None,
            Some(sv2) => ops_result(sv2, ops.drop_first()),
        }
    }
}

/// The catalog after the steps that land before the first failure: the list
/// is run left to right, and the state reached when a step fails (or the
/// list ends) is kept.  On a list that runs to completion this is the same
/// catalog `ops_result` yields.
pub open spec fn ops_landed(sv: Seq<TableView>, ops: Seq<DdlOp>) -> Seq<TableView>
    decreases ops.len(),
{
    if ops.len() == 0 {
        sv
    } else {
        match op_result(sv, ops[0]) {
            None => sv,
            Some(sv2) => ops_landed(sv2, ops.drop_first()),
        }
    }
}

/// Does the step `op`, whenever it succeeds, leave the fact `e` established?
pub open spec fn op_establishes(op: DdlOp, e: Effect) -> bool {
    match (op, e) {
        (
            DdlOp::CreateTableIfAbsent { table: t, engine: _, columns: _ },
            Effect::TableExists { table },
        ) => t@ == table@,
        (
            DdlOp::AddColumnIfAbsent { table: t, column: c },
            Effect::ColumnExists { table, column },
        ) => t@ == table@ && c@ == column@,
        _ => false,
    }
}

/// Is the step `op` already reflected in the catalog `sv`, so that
/// re-issuing it would change nothing?
pub open spec fn op_satisfied(sv: Seq<TableView>, op: DdlOp) -> bool {
    match op {
        DdlOp::CreateTableIfAbsent { table, engine: _, columns: _ } => table_exists(sv, table@),
        DdlOp::AddColumnIfAbsent { table, column } => table_exists(sv, table@)
            && column_exists(sv, table@, column@),
    }
}

/// One successful step keeps the catalog well formed, erases no established
/// fact, and leaves no already-satisfied step unsatisfied; afterwards the
/// step itself is satisfied.
pub proof fn lemma_op_step(sv: Seq<TableView>, op: DdlOp, sv2: Seq<TableView>)
    requires
        catalog_wf(sv),
        op_result(sv, op) == Some(sv2),
    ensures
        catalog_wf(sv2),
        forall|e: Effect| effect_holds(sv, e) ==> effect_holds(sv2, e),
        forall|o: DdlOp| op_satisfied(sv, o) ==> op_satisfied(sv2, o),
        op_satisfied(sv2, op),
{
    match op {
        DdlOp::CreateTableIfAbsent { table, engine, columns } => {
            if table_exists(sv, table@) {
                assert(sv2 == sv);
            } else {
                assert(sv2 == sv.push(
                    TableView { name: table@, engine: engine@, columns: columns.deep_view() },
                ));
                assert(forall|j: int| 0 <= j < sv.len() ==> sv2[j] == sv[j]);
                assert(sv2[sv.len() as int].name == table@);
                assert(catalog_wf(sv2)) by {
                    assert(forall|j: int| 0 <= j < sv.len() ==> sv[j].name != table@);
                }
                lemma_grow_preserves_facts(sv, sv2);
            }
        },
        DdlOp::AddColumnIfAbsent { table, column } => {
            assert(table_exists(sv, table@));
            if column_exists(sv, table@, column@) {
                assert(sv2 == sv);
            } else {
                let i = table_at(sv, table@);
                assert(0 <= i < sv.len() && sv[i].name == table@);
                assert(sv2 == sv.update(i, with_column(sv[i], column@)));
                assert(forall|j: int| 0 <= j < sv.len() && j != i ==> sv2[j] == sv[j]);
                assert(sv2[i].name == sv[i].name);
                assert(catalog_wf(sv2)) by {
                    assert(forall|j: int| 0 <= j < sv2.len() ==> sv2[j].name == sv[j].name);
                }
                assert(forall|c: Seq<char>| #[trigger] sv[i].columns.contains(c)
                    ==> sv2[i].columns.contains(c)) by {
                    assert(forall|k: int| 0 <= k < sv[i].columns.len()
                        ==> sv2[i].columns[k] == sv[i].columns[k]);
                }
                assert(sv2[i].columns[sv[i].columns.len() as int] == column@);
                assert(sv2[i].columns.contains(column@));
                lemma_grow_preserves_facts(sv, sv2);
            }
        },
    }
}

/// Facts only ever accumulate: when every table of `sv` is still present in
/// `sv2` with the same name and at least its old columns, every established
/// fact and every satisfied step carries over.
proof fn lemma_grow_preserves_facts(sv: Seq<TableView>, sv2: Seq<TableView>)
    requires
        sv2.len() >= sv.len(),
        forall|j: int| 0 <= j < sv.len() ==> sv2[j].name == sv[j].name,
        forall|j: int, c: Seq<char>| 0 <= j < sv.len() && #[trigger] sv[j].columns.contains(c)
            ==> sv2[j].columns.contains(c),
    ensures
        forall|e: Effect| effect_holds(sv, e) ==> effect_holds(sv2, e),
        forall|o: DdlOp| op_satisfied(sv, o) ==> op_satisfied(sv2, o),
{
    assert forall|n: Seq<char>| table_exists(sv, n) implies table_exists(sv2, n) by {
        let j = choose|j: int| 0 <= j < sv.len() && sv[j].name == n;
        assert(sv2[j].name == n);
    }
    assert forall|t: Seq<char>, c: Seq<char>| column_exists(sv, t, c) implies column_exists(
        sv2,
        t,
        c,
    ) by {
        let j = choose|j: int| 0 <= j < sv.len() && sv[j].name == t && sv[j].columns.contains(c);
        assert(sv2[j].name == t && sv2[j].columns.contains(c));
    }
    assert forall|e: Effect| effect_holds(sv, e) implies effect_holds(sv2, e) by {
        match e {
            Effect::TableExists { table } => {
                assert(table_exists(sv2, table@));
            },
            Effect::ColumnExists { table, column } => {
                assert(column_exists(sv2, table@, column@));
            },
        }
    }
    assert forall|o: DdlOp| op_satisfied(sv, o) implies op_satisfied(sv2, o) by {
        match o {
            DdlOp::CreateTableIfAbsent { table, engine: _, columns: _ } => {
                assert(table_exists(sv2, table@));
            },
            DdlOp::AddColumnIfAbsent { table, column } => {
                assert(table_exists(sv2, table@));
                assert(column_exists(sv2, table@, column@));
            },
        }
    }
}

/// A successful list of steps keeps the catalog well formed, erases no
/// established fact and no satisfied step, and leaves each of its own steps
/// satisfied.
pub proof fn lemma_ops_run(sv: Seq<TableView>, ops: Seq<DdlOp>, sv2: Seq<TableView>)
    requires
        catalog_wf(sv),
        ops_result(sv, ops) == Some(sv2),
    ensures
        catalog_wf(sv2),
        forall|e: Effect| effect_holds(sv, e) ==> effect_holds(sv2, e),
        forall|o: DdlOp| op_satisfied(sv, o) ==> op_satisfied(sv2, o),
        forall|k: int| 0 <= k < ops.len() ==> op_satisfied(sv2, ops[k]),
    decreases ops.len(),
{
    if ops.len() == 0 {
        assert(sv2 == sv);
    } else {
        let sv1 = op_result(sv, ops[0])->Some_0;
        lemma_op_step(sv, ops[0], sv1);
        lemma_ops_run(sv1, ops.drop_first(), sv2);
        assert(op_satisfied(sv1, ops[0]));
        assert forall|k: int| 0 <= k < ops.len() implies op_satisfied(sv2, ops[k]) by {
            if k == 0 {
                assert(op_satisfied(sv2, ops[0]));
            } else {
                assert(ops.drop_first()[k - 1] == ops[k]);
            }
        }
    }
}

/// When some step of a successful list establishes the fact `e` whenever it
/// succeeds, the fact holds once the whole list has run.
pub proof fn lemma_ops_establish(sv: Seq<TableView>, ops: Seq<DdlOp>, sv2: Seq<TableView>, e: Effect)
    requires
        catalog_wf(sv),
        ops_result(sv, ops) == Some(sv2),
        exists|k: int| 0 <= k < ops.len() && op_establishes(ops[k], e),
    ensures
        effect_holds(sv2, e),
    decreases ops.len(),
{
    let k = choose|k: int| 0 <= k < ops.len() && op_establishes(ops[k], e);
    let sv1 = op_result(sv, ops[0])->Some_0;
    lemma_op_step(sv, ops[0], sv1);
    if k == 0 {
        match ops[0] {
            DdlOp::CreateTableIfAbsent { table, engine: _, columns: _ } => {
                assert(table_exists(sv1, table@));
            },
            DdlOp::AddColumnIfAbsent { table, column } => {
                assert(column_exists(sv1, table@, column@));
            },
        }
        lemma_ops_run(sv1, ops.drop_first(), sv2);
    } else {
        assert(ops.drop_first()[k - 1] == ops[k]);
        lemma_ops_establish(sv1, ops.drop_first(), sv2, e);
    }
}

/// Re-running a list of steps that has already run to completion succeeds
/// again and changes nothing: this is what makes a crashed run safe to
/// restart from the top.
pub proof fn lemma_ops_idempotent(sv: Seq<TableView>, ops: Seq<DdlOp>, sv2: Seq<TableView>)
    requires
        catalog_wf(sv),
        ops_result(sv, ops) == Some(sv2),
    ensures
        ops_result(sv2, ops) == Some(sv2),
{
    lemma_ops_run(sv, ops, sv2);
    lemma_satisfied_ops_noop(sv2, ops);
}

/// A step that is already satisfied runs as a no-op.
proof fn lemma_satisfied_op_noop(sv: Seq<TableView>, op: DdlOp)
    requires
        op_satisfied(sv, op),
    ensures
        op_result(sv, op) == Some(sv),
{
    match op {
        DdlOp::CreateTableIfAbsent { table, engine: _, columns: _ } => {
            assert(op_result(sv, op) == Some(sv));
        },
        DdlOp::AddColumnIfAbsent { table, column } => {
            assert(op_result(sv, op) == Some(sv));
        },
    }
}

/// A list of steps that are each already satisfied runs as a no-op.
proof fn lemma_satisfied_ops_noop(sv: Seq<TableView>, ops: Seq<DdlOp>)
    requires
        forall|k: int| 0 <= k < ops.len() ==> op_satisfied(sv, ops[k]),
    ensures
        ops_result(sv, ops) == Some(sv),
    decreases ops.len(),
{
    if ops.len() > 0 {
        assert(op_satisfied(sv, ops[0]));
        lemma_satisfied_op_noop(sv, ops[0]);
        assert(forall|k: int| 0 <= k < ops.drop_first().len()
            ==> ops.drop_first()[k] == ops[k + 1]);
        lemma_satisfied_ops_noop(sv, ops.drop_first());
    }
}

/// A run that stopped after some prefix of the steps self-heals: rerunning
/// the whole list from the partially applied catalog ends exactly where an
/// uninterrupted run from the original catalog would have ended — the steps
/// that already landed are detected and skipped.
pub proof fn lemma_resume_after_partial_run(sv: Seq<TableView>, ops: Seq<DdlOp>, k: int)
    requires
        catalog_wf(sv),
        0 <= k <= ops.len(),
        ops_result(sv, ops.take(k)) is Some,
    ensures
        ops_result(ops_result(sv, ops.take(k))->Some_0, ops) == ops_result(sv, ops),
    decreases k,
{
    let sv2 = ops_result(sv, ops.take(k))->Some_0;
    if k == 0 {
        assert(ops.take(0) =~= Seq::<DdlOp>::empty());
    } else {
        assert(ops.take(k)[0] == ops[0]);
        let r0 = op_result(sv, ops[0]);
        assert(r0 is Some);
        let sv1 = r0->Some_0;
        lemma_op_step(sv, ops[0], sv1);
        assert(ops.take(k).drop_first() =~= ops.drop_first().take(k - 1));
        assert(ops_result(sv1, ops.drop_first().take(k - 1)) == Some(sv2));
        lemma_resume_after_partial_run(sv1, ops.drop_first(), k - 1);
        lemma_ops_run(sv1, ops.drop_first().take(k - 1), sv2);
        assert(op_satisfied(sv2, ops[0]));
        lemma_satisfied_op_noop(sv2, ops[0]);
        assert(ops_result(sv2, ops) == ops_result(sv2, ops.drop_first()));
        assert(ops_result(sv, ops) == ops_result(sv1, ops.drop_first()));
    }
}

/// Introspect the store for one metadata fact.  A missing table means the
/// fact does not hold; it is never an error.
pub fn effect_present(store: &Store, e: &Effect) -> (r: bool)
    requires
        store.wf(),
    ensures
        r == effect_holds(store@, *e),
{
    match e {
        Effect::TableExists { table } => store.table_exists(table),
        Effect::ColumnExists { table, column } => store.column_exists(table, column),
    }
}

/// An exact copy of a metadata fact.
pub fn clone_effect(e: &Effect) -> (r: Effect)
    ensures
        r == *e,
{
    match e {
        Effect::TableExists { table } => Effect::TableExists { table: table.clone() },
        Effect::ColumnExists { table, column } => Effect::ColumnExists {
            table: table.clone(),
            column: column.clone(),
        },
    }
}

/// The catalog a failed run leaves behind — the landed prefix's result — is
/// well formed, keeps every established fact, and rerunning the whole list
/// from it ends exactly where rerunning from the original catalog would:
/// the landed steps are detected and skipped.
pub proof fn lemma_landed_run(sv: Seq<TableView>, ops: Seq<DdlOp>)
    requires
        catalog_wf(sv),
    ensures
        catalog_wf(ops_landed(sv, ops)),
        forall|e: Effect| effect_holds(sv, e) ==> effect_holds(ops_landed(sv, ops), e),
        ops_result(ops_landed(sv, ops), ops) == ops_result(sv, ops),
    decreases ops.len(),
{
    if ops.len() == 0 {
    } else {
        match op_result(sv, ops[0]) {
            None => {},
            Some(sv1) => {
                lemma_op_step(sv, ops[0], sv1);
                lemma_landed_run(sv1, ops.drop_first());
                let landed = ops_landed(sv1, ops.drop_first());
                assert(ops_landed(sv, ops) == landed);
                lemma_landed_monotone(sv1, ops.drop_first());
                assert(op_satisfied(landed, ops[0]));
                lemma_satisfied_op_noop(landed, ops[0]);
                assert(ops_result(landed, ops) == ops_result(landed, ops.drop_first()));
                assert(ops_result(sv, ops) == ops_result(sv1, ops.drop_first()));
                assert forall|e: Effect| effect_holds(sv, e) implies effect_holds(
                    landed,
                    e,
                ) by {
                    assert(effect_holds(sv1, e));
                }
            },
        }
    }
}

/// Landing a prefix of steps erases no established fact and leaves no
/// satisfied step unsatisfied.
proof fn lemma_landed_monotone(sv: Seq<TableView>, ops: Seq<DdlOp>)
    requires
        catalog_wf(sv),
    ensures
        forall|e: Effect| effect_holds(sv, e) ==> effect_holds(ops_landed(sv, ops), e),
        forall|o: DdlOp| op_satisfied(sv, o) ==> op_satisfied(ops_landed(sv, ops), o),
    decreases ops.len(),
{
    if ops.len() > 0 {
        match op_result(sv, ops[0]) {
            None => {},
            Some(sv1) => {
                lemma_op_step(sv, ops[0], sv1);
                lemma_landed_monotone(sv1, ops.drop_first());
                let landed = ops_landed(sv1, ops.drop_first());
                assert forall|e: Effect| effect_holds(sv, e) implies effect_holds(
                    landed,
                    e,
                ) by {
                    assert(effect_holds(sv1, e));
                }
                assert forall|o: DdlOp| op_satisfied(sv, o) implies op_satisfied(
                    landed,
                    o,
                ) by {
                    assert(op_satisfied(sv1, o));
                }
            },
        }
    }
}

/// Issue one step against the store.  Returns whether it succeeded; a failed
/// step leaves the catalog unchanged.
pub fn apply_ddl_op(store: &mut Store, op: &DdlOp) -> (r: bool)
    requires
        old(store).wf(),
    ensures
        final(store).wf(),
        match op_result(old(store)@, *op) {
            Some(sv2) => r && final(store)@ == sv2,
            None => !r && final(store)@ == old(store)@,
        },
{
    match op {
        DdlOp::CreateTableIfAbsent { table, engine, columns } => {
            store.create_table_if_absent(table, engine, columns);
            true
        },
        DdlOp::AddColumnIfAbsent { table, column } => store.add_column_if_absent(table, column),
    }
}

/// Issue a list of steps against the store, left to right, stopping at the
/// first failure.  On failure the catalog keeps every step that had already
/// landed, which is exactly what makes a rerun after a crash safe.
pub fn run_ddl_ops(store: &mut Store, ops: &Vec<DdlOp>) -> (r: Result<(), MigrationError>)
    requires
        old(store).wf(),
    ensures
        final(store).wf(),
        forall|e: Effect| effect_holds(old(store)@, e) ==> effect_holds(final(store)@, e),
        match r {
            Ok(()) => Some(final(store)@) == ops_result(old(store)@, ops@),
            Err(err) => {
                &&& ops_result(old(store)@, ops@) is None
                &&& final(store)@ == ops_landed(old(store)@, ops@)
                &&& ops_result(final(store)@, ops@) is None
                &&& err matches MigrationError::TableNotFound { table: _ }
            },
        },
{
    let n = ops.len();
    let mut k: usize = 0;
    proof {
        assert(ops@.skip(0) =~= ops@);
    }
    while k < n
        invariant
            n == ops@.len(),
            k <= n,
            old(store).wf(),
            store.wf(),
            forall|e: Effect| effect_holds(old(store)@, e) ==> effect_holds(store@, e),
            ops_result(old(store)@, ops@) == ops_result(store@, ops@.skip(k as int)),
            ops_landed(old(store)@, ops@) == ops_landed(store@, ops@.skip(k as int)),
        decreases n - k,
    {
        let ghost pre = store@;
        let ghost kv = k as int;
        let ok = apply_ddl_op(store, &ops[k]);
        proof {
            assert(ops@.skip(kv)[0] == ops@[kv]);
            assert(ops@.skip(kv).len() > 0);
        }
        if !ok {
            proof {
                assert(op_result(pre, ops@[kv]) is None);
                assert(ops_result(pre, ops@.skip(kv)) is None);
                assert(ops_landed(pre, ops@.skip(kv)) == pre);
                lemma_landed_run(old(store)@, ops@);
            }
            let table_name = match &ops[k] {
                DdlOp::AddColumnIfAbsent { table, column: _ } => table.clone(),
                DdlOp::CreateTableIfAbsent { table, engine: _, columns: _ } => table.clone(),
            };
            return Err(MigrationError::TableNotFound { table: table_name });
        }
        proof {
            assert(op_result(pre, ops@[kv]) == Some(store@));
            lemma_op_step(pre, ops@[kv], store@);
            assert(ops@.skip(kv).drop_first() =~= ops@.skip(kv + 1));
            assert(ops_result(pre, ops@.skip(kv)) == ops_result(store@, ops@.skip(kv + 1)));
            assert(ops_landed(pre, ops@.skip(kv)) == ops_landed(store@, ops@.skip(kv + 1)));
            assert forall|e: Effect| effect_holds(old(store)@, e) implies effect_holds(
                store@,
                e,
            ) by {
                assert(effect_holds(pre, e));
            }
        }
        k += 1;
    }
    proof {
        assert(ops@.skip(n as int).len() == 0);
        assert(ops_result(store@, ops@.skip(n as int)) == Some(store@));
    }
    Ok(())
}

} // verus!
