//! Laws of the lifecycle operations, proved once and for all registries.

use vstd::prelude::*;
use crate::ident::IdentModel;
use crate::ident::ident_matches;
use crate::lifecycle::kill_survivors_spec;
use crate::lifecycle::live_records_spec;
use crate::lifecycle::records_of;
use crate::lifecycle::reconcile_spec;
use crate::lifecycle::reload_result_spec;
use crate::record::EntryModel;
use crate::record::RecordModel;
use crate::store::entry_wf;
use crate::store::record_wf;
use crate::store::registry_wf;

verus! {

/// The record rows that survive reconciliation are exactly the records the
/// probe reported alive, in order.
pub proof fn lemma_records_of_reconcile(reg: Seq<EntryModel>, alive: Seq<bool>)
    requires
        alive.len() == reg.len(),
    ensures
        records_of(reconcile_spec(reg, alive)) == live_records_spec(reg, alive),
    decreases reg.len(),
{
    if reg.len() > 0 {
        lemma_records_of_reconcile(reg.drop_last(), alive.drop_last());
        let rest = reconcile_spec(reg.drop_last(), alive.drop_last());
        match reg.last() {
            EntryModel::Opaque(_) => {
                assert(rest.push(reg.last()).drop_last() =~= rest);
            },
            EntryModel::Record(r) => {
                if alive[reg.len() - 1] {
                    assert(rest.push(reg.last()).drop_last() =~= rest);
                }
            },
        }
    }
}

/// Reconciling a registry whose records are all alive changes nothing, and
/// lists exactly its records.
pub proof fn lemma_reconcile_all_alive(reg: Seq<EntryModel>, alive: Seq<bool>)
    requires
        alive.len() == reg.len(),
        forall|i: int| 0 <= i < reg.len() ==> (#[trigger] reg[i] is Record ==> alive[i]),
    ensures
        reconcile_spec(reg, alive) == reg,
        live_records_spec(reg, alive) == records_of(reg),
    decreases reg.len(),
{
    if reg.len() > 0 {
        assert forall|i: int| 0 <= i < reg.drop_last().len() implies (#[trigger] reg.drop_last()[i]
            is Record ==> alive.drop_last()[i]) by {
            assert(reg.drop_last()[i] == reg[i]);
        }
        lemma_reconcile_all_alive(reg.drop_last(), alive.drop_last());
        assert(reg[reg.len() - 1] is Record ==> alive[reg.len() - 1]);
        assert(reg.drop_last().push(reg.last()) =~= reg);
    }
}

/// Reconciliation is idempotent: a second list over the registry the first
/// one persisted — with no intervening process exits, so everything the
/// first list kept is still alive — persists it unchanged and reports the
/// same records.
pub proof fn lemma_list_idempotent(reg: Seq<EntryModel>, alive: Seq<bool>, alive2: Seq<bool>)
    requires
        alive.len() == reg.len(),
        alive2.len() == reconcile_spec(reg, alive).len(),
        forall|i: int| 0 <= i < alive2.len() ==> (#[trigger] reconcile_spec(reg, alive)[i]
            is Record ==> alive2[i]),
    ensures
        reconcile_spec(reconcile_spec(reg, alive), alive2) == reconcile_spec(reg, alive),
        live_records_spec(reconcile_spec(reg, alive), alive2) == live_records_spec(reg, alive),
{
    lemma_reconcile_all_alive(reconcile_spec(reg, alive), alive2);
    lemma_records_of_reconcile(reg, alive);
}

/// No record matching the kill identifier survives a kill — whatever the
/// termination requests themselves reported.
pub proof fn lemma_kill_leaves_no_match(reg: Seq<EntryModel>, alive: Seq<bool>, id: IdentModel)
    ensures
        forall|j: int| 0 <= j < kill_survivors_spec(reg, alive, id).len() ==> match #[trigger] kill_survivors_spec(
            reg,
            alive,
            id,
        )[j] {
            EntryModel::Record(r) => !ident_matches(id, r),
            EntryModel::Opaque(_) => true,
        },
    decreases reg.len(),
{
    if reg.len() > 0 {
        lemma_kill_leaves_no_match(reg.drop_last(), alive.drop_last(), id);
    }
}

/// Killing by PID leaves no record with that PID in the registry.
pub proof fn lemma_kill_by_pid(reg: Seq<EntryModel>, alive: Seq<bool>, id: IdentModel, p: u64)
    requires
        id.is_pid,
        id.numeric == Some(p),
    ensures
        forall|j: int| 0 <= j < kill_survivors_spec(reg, alive, id).len() ==> match #[trigger] kill_survivors_spec(
            reg,
            alive,
            id,
        )[j] {
            EntryModel::Record(r) => r.pid != p,
            EntryModel::Opaque(_) => true,
        },
{
    lemma_kill_leaves_no_match(reg, alive, id);
}

/// Does some row of `reg` carry the same identity — name and command — as
/// `e`?  Opaque rows count only for byte-identical opaque rows.
pub open spec fn identity_comes_from(reg: Seq<EntryModel>, e: EntryModel) -> bool {
    match e {
        EntryModel::Record(r) => exists|i: int|
            {
                &&& 0 <= i < reg.len()
                &&& (#[trigger] reg[i]) matches EntryModel::Record(r0)
                &&& r0.name == r.name
                &&& r0.command == r.command
            },
        EntryModel::Opaque(s) => exists|i: int|
            0 <= i < reg.len() && #[trigger] reg[i] == EntryModel::Opaque(s),
    }
}

/// Reload preserves identity fields: every row it writes back has the name
/// and command of a row that was already tracked; a successful relaunch
/// changes the PID alone.
pub proof fn lemma_reload_preserves_identity(
    reg: Seq<EntryModel>,
    alive: Seq<bool>,
    target: Option<IdentModel>,
    spawn: Seq<Option<u64>>,
)
    ensures
        forall|j: int| 0 <= j < reload_result_spec(reg, alive, target, spawn).len()
            ==> identity_comes_from(
            reg,
            #[trigger] reload_result_spec(reg, alive, target, spawn)[j],
        ),
    decreases reg.len(),
{
    if reg.len() > 0 {
        lemma_reload_preserves_identity(reg.drop_last(), alive.drop_last(), target, spawn.drop_last());
        let result = reload_result_spec(reg, alive, target, spawn);
        let rest = reload_result_spec(reg.drop_last(), alive.drop_last(), target, spawn.drop_last());
        assert forall|j: int| 0 <= j < result.len() implies identity_comes_from(
            reg,
            #[trigger] result[j],
        ) by {
            if j < rest.len() {
                assert(result[j] == rest[j]);
                assert(identity_comes_from(reg.drop_last(), rest[j]));
                lemma_identity_extends(reg, rest[j]);
            } else {
                let last = reg.len() - 1;
                assert(reg[last] == reg.last());
                match result[j] {
                    EntryModel::Record(r) => {
                        assert({
                            &&& reg[last] matches EntryModel::Record(r0)
                            &&& r0.name == r.name
                            &&& r0.command == r.command
                        });
                    },
                    EntryModel::Opaque(s) => {
                        assert(reg[last] == EntryModel::Opaque(s));
                    },
                }
            }
        }
    }
}

/// A row whose identity comes from a prefix of the registry has it come
/// from the whole registry too.
proof fn lemma_identity_extends(reg: Seq<EntryModel>, e: EntryModel)
    requires
        reg.len() > 0,
        identity_comes_from(reg.drop_last(), e),
    ensures
        identity_comes_from(reg, e),
{
    match e {
        EntryModel::Record(r) => {
            let i = choose|i: int|
                {
                    &&& 0 <= i < reg.drop_last().len()
                    &&& (#[trigger] reg.drop_last()[i]) matches EntryModel::Record(r0)
                    &&& r0.name == r.name
                    &&& r0.command == r.command
                };
            assert(reg[i] == reg.drop_last()[i]);
        },
        EntryModel::Opaque(s) => {
            let i = choose|i: int|
                0 <= i < reg.drop_last().len() && #[trigger] reg.drop_last()[i]
                    == EntryModel::Opaque(s);
            assert(reg[i] == reg.drop_last()[i]);
        },
    }
}

/// Start followed immediately by list: the report is the previous report
/// plus exactly one new row, the record start appended — same PID, name
/// and command.
pub proof fn lemma_start_then_list(
    reg: Seq<EntryModel>,
    alive: Seq<bool>,
    rec: RecordModel,
    alive2: Seq<bool>,
)
    requires
        alive.len() == reg.len(),
        alive2.len() == reconcile_spec(reg, alive).len() + 1,
        forall|i: int| 0 <= i < alive2.len() ==> (#[trigger] reconcile_spec(reg, alive).push(
            EntryModel::Record(rec),
        )[i] is Record ==> alive2[i]),
    ensures
        live_records_spec(reconcile_spec(reg, alive).push(EntryModel::Record(rec)), alive2)
            == live_records_spec(reg, alive).push(rec),
{
    let started = reconcile_spec(reg, alive).push(EntryModel::Record(rec));
    lemma_reconcile_all_alive(started, alive2);
    assert(started.drop_last() =~= reconcile_spec(reg, alive));
    lemma_records_of_reconcile(reg, alive);
}


/// Dropping the last row keeps a registry well formed.
proof fn lemma_wf_drop_last(reg: Seq<EntryModel>)
    requires
        reg.len() > 0,
        registry_wf(reg),
    ensures
        registry_wf(reg.drop_last()),
{
    assert forall|i: int| 0 <= i < reg.drop_last().len() implies entry_wf(
        #[trigger] reg.drop_last()[i],
    ) by {
        assert(reg.drop_last()[i] == reg[i]);
    }
}

/// Appending a well-formed row keeps a registry well formed.
proof fn lemma_wf_push(reg: Seq<EntryModel>, e: EntryModel)
    requires
        registry_wf(reg),
        entry_wf(e),
    ensures
        registry_wf(reg.push(e)),
{
    assert forall|i: int| 0 <= i < reg.push(e).len() implies entry_wf(
        #[trigger] reg.push(e)[i],
    ) by {
        if i < reg.len() {
            assert(reg.push(e)[i] == reg[i]);
        }
    }
}

/// Reconciliation writes back only rows it was given: a well-formed
/// registry stays well formed, so the store can round-trip what list and
/// start persist.
pub proof fn lemma_reconcile_preserves_wf(reg: Seq<EntryModel>, alive: Seq<bool>)
    requires
        registry_wf(reg),
    ensures
        registry_wf(reconcile_spec(reg, alive)),
    decreases reg.len(),
{
    if reg.len() > 0 {
        lemma_wf_drop_last(reg);
        lemma_reconcile_preserves_wf(reg.drop_last(), alive.drop_last());
        lemma_wf_push(reconcile_spec(reg.drop_last(), alive.drop_last()), reg.last());
    }
}

/// Start appends one well-formed record to a reconciled registry: what it
/// persists is well formed.
pub proof fn lemma_start_preserves_wf(reg: Seq<EntryModel>, alive: Seq<bool>, rec: RecordModel)
    requires
        registry_wf(reg),
        record_wf(rec),
    ensures
        registry_wf(reconcile_spec(reg, alive).push(EntryModel::Record(rec))),
{
    lemma_reconcile_preserves_wf(reg, alive);
    lemma_wf_push(reconcile_spec(reg, alive), EntryModel::Record(rec));
}

/// Kill writes back only rows it was given: a well-formed registry stays
/// well formed.
pub proof fn lemma_kill_preserves_wf(reg: Seq<EntryModel>, alive: Seq<bool>, id: IdentModel)
    requires
        registry_wf(reg),
    ensures
        registry_wf(kill_survivors_spec(reg, alive, id)),
    decreases reg.len(),
{
    if reg.len() > 0 {
        lemma_wf_drop_last(reg);
        lemma_kill_preserves_wf(reg.drop_last(), alive.drop_last(), id);
        lemma_wf_push(kill_survivors_spec(reg.drop_last(), alive.drop_last(), id), reg.last());
    }
}

/// Reload writes back rows it was given, or copies of them with only the
/// PID replaced — and a record's well-formedness rests on its name and
/// command alone.  A well-formed registry stays well formed.
pub proof fn lemma_reload_preserves_wf(
    reg: Seq<EntryModel>,
    alive: Seq<bool>,
    target: Option<IdentModel>,
    spawn: Seq<Option<u64>>,
)
    requires
        registry_wf(reg),
    ensures
        registry_wf(reload_result_spec(reg, alive, target, spawn)),
    decreases reg.len(),
{
    if reg.len() > 0 {
        lemma_wf_drop_last(reg);
        lemma_reload_preserves_wf(reg.drop_last(), alive.drop_last(), target, spawn.drop_last());
        let rest = reload_result_spec(reg.drop_last(), alive.drop_last(), target, spawn.drop_last());
        match reg.last() {
            EntryModel::Record(r) => {
                lemma_wf_push(rest, reg.last());
                if spawn[reg.len() - 1] is Some {
                    let p = spawn[reg.len() - 1]->Some_0;
                    lemma_wf_push(
                        rest,
                        EntryModel::Record(RecordModel { pid: p, name: r.name, command: r.command }),
                    );
                }
            },
            EntryModel::Opaque(_) => {
                lemma_wf_push(rest, reg.last());
            },
        }
    }
}

} // verus!
