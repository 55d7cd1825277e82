//! The orchestrator: one blocking entry point that walks the registry in its
//! declared order and drives each unit through precondition, execution gate,
//! apply, and a defensive re-check of the idempotency check.  The first
//! failure aborts the whole run — later units may assume their predecessors
//! succeeded — and is reported with the failing unit's identity and phase.
//!
//! The protocol itself is written down once, as the spec function
//! `spec_run_from`, and `run` is proved to return exactly its verdict and to
//! leave the store in exactly its catalog: which units run, which are
//! skipped, where the run stops and what it has written are all determined
//! by the registry, the `clean_start` flag and the starting catalog alone.

use vstd::prelude::*;

use crate::ddl::Effect;
use crate::ddl::effect_holds;
use crate::ddl::lemma_ops_idempotent;
use crate::ddl::ops_landed;
use crate::ddl::ops_result;
use crate::errors::MigrationError;
use crate::errors::Phase;
use crate::errors::RunError;
use crate::migration::Migration;
use crate::migration::MigrationUnit;
use crate::registry::Registry;
use crate::store::Store;
use crate::store::TableView;

verus! {

/// Every registered unit's effect is present in the catalog `sv`.
pub open spec fn all_effects_hold(reg: Seq<MigrationUnit>, sv: Seq<TableView>) -> bool {
    forall|i: int| 0 <= i < reg.len() ==> effect_holds(sv, (#[trigger] reg[i]).spec_effect())
}

/// Every registered unit's effect is present in `sv` and every unit's
/// precondition holds of `sv`: the catalog of a fully migrated store.
pub open spec fn fully_migrated(reg: Seq<MigrationUnit>, sv: Seq<TableView>) -> bool {
    forall|i: int|
        0 <= i < reg.len() ==> effect_holds(sv, (#[trigger] reg[i]).spec_effect())
            && reg[i].spec_precondition(sv)
}

/// The migration protocol, written once as mathematics: walk the registry
/// from position `i` over the catalog `sv`.  A unit whose precondition fails
/// stops the run in the precondition phase; a unit whose effect is already
/// present is skipped; otherwise its chosen DDL path runs — a path that
/// cannot finish stops the run in the apply phase leaving exactly the steps
/// that landed, and a path that finishes without making the effect visible
/// stops it in the verification phase.  The result is the final catalog and
/// either success or the first failing position with its phase.
pub open spec fn spec_run_from(
    reg: Seq<MigrationUnit>,
    clean_start: bool,
    sv: Seq<TableView>,
    i: int,
) -> (Seq<TableView>, Option<(int, Phase)>)
    decreases reg.len() - i,
{
    if !(0 <= i < reg.len()) {
        (sv, None)
    } else if !reg[i].spec_precondition(sv) {
        (sv, Some((i, Phase::Precondition)))
    } else if reg[i].spec_succeeded(sv) {
        spec_run_from(reg, clean_start, sv, i + 1)
    } else {
        match ops_result(sv, reg[i].spec_ops(clean_start)) {
            None => (ops_landed(sv, reg[i].spec_ops(clean_start)), Some((i, Phase::Apply))),
            Some(sv2) => if reg[i].spec_succeeded(sv2) {
                spec_run_from(reg, clean_start, sv2, i + 1)
            } else {
                (sv2, Some((i, Phase::Verification)))
            },
        }
    }
}

/// A unit's precondition only ever asks for metadata facts, so whatever
/// preserves established facts preserves the precondition.
proof fn lemma_precondition_monotone(u: MigrationUnit, sv: Seq<TableView>, sv2: Seq<TableView>)
    requires
        u.spec_precondition(sv),
        forall|e: Effect| effect_holds(sv, e) ==> effect_holds(sv2, e),
    ensures
        u.spec_precondition(sv2),
{
    assert forall|k: int| 0 <= k < u.spec_prerequisites().len() implies effect_holds(
        sv2,
        #[trigger] u.spec_prerequisites()[k],
    ) by {
        assert(effect_holds(sv, u.spec_prerequisites()[k]));
    }
}

/// Run every registered migration, in order, against the store.
///
/// The result and the final catalog are exactly those of the protocol
/// `spec_run_from`: success comes precisely when every unit is confirmed or
/// skipped, and an error names the first failing unit, the phase that
/// failed, and the underlying cause for that phase.  Every earlier unit's
/// effect is in place when a run fails, a store that already carries every
/// effect is never written at all, and a fully migrated store makes the run
/// succeed: the whole run is safe to repeat.
pub fn run(registry: &Registry, clean_start: bool, store: &mut Store) -> (r: Result<(), RunError>)
    requires
        registry.wf(),
        old(store).wf(),
    ensures
        final(store).wf(),
        forall|e: Effect| effect_holds(old(store)@, e) ==> effect_holds(final(store)@, e),
        all_effects_hold(registry@, old(store)@) ==> final(store)@ == old(store)@,
        fully_migrated(registry@, old(store)@) ==> r is Ok,
        ({
            let protocol = spec_run_from(registry@, clean_start, old(store)@, 0);
            &&& final(store)@ == protocol.0
            &&& match r {
                Ok(()) => protocol.1 is None,
                Err(err) => protocol.1 matches Some((i, phase)) && err.phase == phase && 0 <= i
                    < registry@.len() && err.identity@ == registry@[i].spec_identity(),
            }
        }),
        match r {
            Ok(()) => fully_migrated(registry@, final(store)@),
            Err(err) => exists|i: int|
                0 <= i < registry@.len() && err.identity@ == (
                #[trigger] registry@[i]).spec_identity() && (forall|j: int|
                    0 <= j < i ==> effect_holds(
                        final(store)@,
                        (#[trigger] registry@[j]).spec_effect(),
                    )) && (match err.phase {
                    Phase::Precondition => !registry@[i].spec_precondition(final(store)@) && (
                    err.cause matches Some(MigrationError::MissingPrerequisite { needed })
                        && registry@[i].spec_prerequisites().contains(needed) && !effect_holds(
                        final(store)@,
                        needed,
                    )),
                    Phase::Introspection => false,
                    Phase::Apply => registry@[i].spec_precondition(final(store)@) && ops_result(
                        final(store)@,
                        registry@[i].spec_ops(clean_start),
                    ) is None && (err.cause matches Some(
                        MigrationError::TableNotFound { table: _ },
                    )),
                    Phase::Verification => !registry@[i].spec_succeeded(final(store)@)
                        && ops_result(final(store)@, registry@[i].spec_ops(clean_start)) == Some(
                        final(store)@,
                    ) && err.cause is None,
                }),
        },
{
    let n = registry.len();
    let mut idx: usize = 0;
    while idx < n
        invariant
            registry.wf(),
            n == registry@.len(),
            idx <= n,
            old(store).wf(),
            store.wf(),
            forall|e: Effect| effect_holds(old(store)@, e) ==> effect_holds(store@, e),
            forall|j: int|
                0 <= j < idx ==> effect_holds(store@, (#[trigger] registry@[j]).spec_effect()),
            forall|j: int| 0 <= j < idx ==> (#[trigger] registry@[j]).spec_precondition(store@),
            all_effects_hold(registry@, old(store)@) ==> store@ == old(store)@,
            spec_run_from(registry@, clean_start, old(store)@, 0) == spec_run_from(
                registry@,
                clean_start,
                store@,
                idx as int,
            ),
        decreases n - idx,
    {
        let ghost iv = idx as int;
        let unit = registry.get(idx);
        match unit.can_apply(store) {
            Err(cause) => {
                proof {
                    assert(spec_run_from(registry@, clean_start, store@, iv) == (
                        store@,
                        Some((iv, Phase::Precondition)),
                    ));
                    if fully_migrated(registry@, old(store)@) {
                        assert(all_effects_hold(registry@, old(store)@)) by {
                            assert forall|i: int| 0 <= i < registry@.len() implies effect_holds(
                                old(store)@,
                                (#[trigger] registry@[i]).spec_effect(),
                            ) by {
                                assert(registry@[i].spec_precondition(old(store)@));
                            }
                        }
                        assert(store@ == old(store)@);
                        assert(registry@[iv].spec_precondition(store@));
                        assert(false);
                    }
                }
                return Err(
                    RunError {
                        identity: unit.name(),
                        phase: Phase::Precondition,
                        cause: Some(cause),
                    },
                );
            },
            Ok(()) => {},
        }
        let gate = match unit.should_apply(store) {
            Ok(b) => b,
            Err(cause) => {
                return Err(
                    RunError {
                        identity: unit.name(),
                        phase: Phase::Introspection,
                        cause: Some(cause),
                    },
                );
            },
        };
        if gate {
            proof {
                if all_effects_hold(registry@, old(store)@) {
                    assert(effect_holds(old(store)@, registry@[iv].spec_effect()));
                    assert(store@ == old(store)@);
                    assert(registry@[iv].spec_succeeded(store@));
                    assert(false);
                }
                if fully_migrated(registry@, old(store)@) {
                    assert(effect_holds(old(store)@, registry@[iv].spec_effect()));
                    assert(all_effects_hold(registry@, old(store)@)) by {
                        assert forall|i: int| 0 <= i < registry@.len() implies effect_holds(
                            old(store)@,
                            (#[trigger] registry@[i]).spec_effect(),
                        ) by {
                            assert(registry@[i].spec_precondition(old(store)@));
                        }
                    }
                    assert(false);
                }
            }
            let ghost pre_apply = store@;
            match unit.apply(clean_start, store) {
                Err(cause) => {
                    proof {
                        assert(spec_run_from(registry@, clean_start, pre_apply, iv) == (
                            ops_landed(pre_apply, registry@[iv].spec_ops(clean_start)),
                            Some((iv, Phase::Apply)),
                        ));
                        assert forall|j: int| 0 <= j < iv implies effect_holds(
                            store@,
                            (#[trigger] registry@[j]).spec_effect(),
                        ) by {
                            assert(effect_holds(pre_apply, registry@[j].spec_effect()));
                        }
                        lemma_precondition_monotone(registry@[iv], pre_apply, store@);
                    }
                    return Err(
                        RunError { identity: unit.name(), phase: Phase::Apply, cause: Some(cause) },
                    );
                },
                Ok(()) => {},
            }
            let confirmed = match unit.has_succeeded(store) {
                Ok(b) => b,
                Err(cause) => {
                    return Err(
                        RunError {
                            identity: unit.name(),
                            phase: Phase::Introspection,
                            cause: Some(cause),
                        },
                    );
                },
            };
            proof {
                assert forall|j: int| 0 <= j < iv implies effect_holds(
                    store@,
                    (#[trigger] registry@[j]).spec_effect(),
                ) by {
                    assert(effect_holds(pre_apply, registry@[j].spec_effect()));
                }
            }
            if !confirmed {
                proof {
                    assert(spec_run_from(registry@, clean_start, pre_apply, iv) == (
                        store@,
                        Some((iv, Phase::Verification)),
                    ));
                    lemma_ops_idempotent(
                        pre_apply,
                        registry@[iv].spec_ops(clean_start),
                        store@,
                    );
                }
                return Err(
                    RunError { identity: unit.name(), phase: Phase::Verification, cause: None },
                );
            }
            proof {
                assert(spec_run_from(registry@, clean_start, pre_apply, iv) == spec_run_from(
                    registry@,
                    clean_start,
                    store@,
                    iv + 1,
                ));
                assert forall|j: int| 0 <= j < iv + 1 implies (
                #[trigger] registry@[j]).spec_precondition(store@) by {
                    lemma_precondition_monotone(registry@[j], pre_apply, store@);
                }
                assert forall|e: Effect| effect_holds(old(store)@, e) implies effect_holds(
                    store@,
                    e,
                ) by {
                    assert(effect_holds(pre_apply, e));
                }
            }
        } else {
            proof {
                assert(registry@[iv].spec_succeeded(store@));
                assert(spec_run_from(registry@, clean_start, store@, iv) == spec_run_from(
                    registry@,
                    clean_start,
                    store@,
                    iv + 1,
                ));
            }
        }
        idx += 1;
    }
    proof {
        assert(spec_run_from(registry@, clean_start, store@, n as int) == (
            store@,
            None::<(int, Phase)>,
        ));
    }
    Ok(())
}

} // verus!
