//! The four supervisor operations as pure functions.
//!
//! Every invocation of the supervisor loads the registry, reconciles it
//! against the OS process table (dead records are dropped, opaque rows kept),
//! applies its own mutation, and rewrites the store.  The OS is the sole
//! source of liveness truth, so each function here takes the probe's
//! verdicts — one `bool` per row, meaningful only for record rows — as an
//! argument, parallel to the registry; the caller performs the probing,
//! spawning and terminating and feeds the outcomes in.

use vstd::prelude::*;
use crate::errors::ErrorModel;
use crate::errors::SupervisorError;
use crate::ident::Ident;
use crate::ident::IdentModel;
use crate::ident::contains_seq;
use crate::ident::contains_sub;
use crate::ident::ident_matches;
use crate::ident::split_tokens;
use crate::ident::split_tokens_spec;
use crate::ident::str_eq;
use crate::record::Entry;
use crate::record::EntryModel;
use crate::record::ProcessRecord;
use crate::record::RecordModel;
use crate::record::entry_pid;

verus! {

/// Does reconciliation keep this row?  Opaque rows always stay; a record
/// stays only while the OS reports its PID alive.
pub open spec fn keep_after_probe(e: EntryModel, alive: bool) -> bool {
    match e {
        EntryModel::Opaque(_) => true,
        EntryModel::Record(_) => alive,
    }
}

/// The registry after reconciliation: rows confirmed dead are deleted, all
/// others kept in order.
pub open spec fn reconcile_spec(reg: Seq<EntryModel>, alive: Seq<bool>) -> Seq<EntryModel>
    decreases reg.len(),
{
    if reg.len() == 0 {
        Seq::empty()
    } else {
        let rest = reconcile_spec(reg.drop_last(), alive.drop_last());
        if keep_after_probe(reg.last(), alive[reg.len() - 1]) {
            rest.push(reg.last())
        } else {
            rest
        }
    }
}

/// All record rows of a registry, in order.
pub open spec fn records_of(reg: Seq<EntryModel>) -> Seq<RecordModel>
    decreases reg.len(),
{
    if reg.len() == 0 {
        Seq::empty()
    } else {
        let rest = records_of(reg.drop_last());
        match reg.last() {
            EntryModel::Record(r) => rest.push(r),
            EntryModel::Opaque(_) => rest,
        }
    }
}

/// The records confirmed alive, in registry order: what list reports.
pub open spec fn live_records_spec(reg: Seq<EntryModel>, alive: Seq<bool>) -> Seq<RecordModel>
    decreases reg.len(),
{
    if reg.len() == 0 {
        Seq::empty()
    } else {
        let rest = live_records_spec(reg.drop_last(), alive.drop_last());
        match reg.last() {
            EntryModel::Record(r) => if alive[reg.len() - 1] {
                rest.push(r)
            } else {
                rest
            },
            EntryModel::Opaque(_) => rest,
        }
    }
}

/// The records an identifier picks out, dead or alive.
pub open spec fn matching_records(reg: Seq<EntryModel>, id: IdentModel) -> Seq<RecordModel>
    decreases reg.len(),
{
    if reg.len() == 0 {
        Seq::empty()
    } else {
        let rest = matching_records(reg.drop_last(), id);
        match reg.last() {
            EntryModel::Record(r) => if ident_matches(id, r) {
                rest.push(r)
            } else {
                rest
            },
            EntryModel::Opaque(_) => rest,
        }
    }
}

/// The registry after a kill: every matching record is dropped — whether
/// its termination request succeeds or not — and non-matching records pass
/// through ordinary reconciliation.
pub open spec fn kill_survivors_spec(
    reg: Seq<EntryModel>,
    alive: Seq<bool>,
    id: IdentModel,
) -> Seq<EntryModel>
    decreases reg.len(),
{
    if reg.len() == 0 {
        Seq::empty()
    } else {
        let rest = kill_survivors_spec(reg.drop_last(), alive.drop_last(), id);
        match reg.last() {
            EntryModel::Record(r) => if !ident_matches(id, r) && alive[reg.len() - 1] {
                rest.push(reg.last())
            } else {
                rest
            },
            EntryModel::Opaque(_) => rest.push(reg.last()),
        }
    }
}

/// The matching records that are still alive: kill sends each of these a
/// termination request.
pub open spec fn kill_targets_spec(
    reg: Seq<EntryModel>,
    alive: Seq<bool>,
    id: IdentModel,
) -> Seq<RecordModel>
    decreases reg.len(),
{
    if reg.len() == 0 {
        Seq::empty()
    } else {
        let rest = kill_targets_spec(reg.drop_last(), alive.drop_last(), id);
        match reg.last() {
            EntryModel::Record(r) => if ident_matches(id, r) && alive[reg.len() - 1] {
                rest.push(r)
            } else {
                rest
            },
            EntryModel::Opaque(_) => rest,
        }
    }
}

/// The matching records already dead: kill reports these as already
/// stopped — a success, not an error.
pub open spec fn kill_dead_spec(
    reg: Seq<EntryModel>,
    alive: Seq<bool>,
    id: IdentModel,
) -> Seq<RecordModel>
    decreases reg.len(),
{
    if reg.len() == 0 {
        Seq::empty()
    } else {
        let rest = kill_dead_spec(reg.drop_last(), alive.drop_last(), id);
        match reg.last() {
            EntryModel::Record(r) => if ident_matches(id, r) && !alive[reg.len() - 1] {
                rest.push(r)
            } else {
                rest
            },
            EntryModel::Opaque(_) => rest,
        }
    }
}

/// Is this row selected for reload?  With no identifier every record is;
/// with one, the records it matches.  Opaque rows are never selected.
pub open spec fn reload_selected(e: EntryModel, target: Option<IdentModel>) -> bool {
    match e {
        EntryModel::Opaque(_) => false,
        EntryModel::Record(r) => match target {
            None => true,
            Some(id) => ident_matches(id, r),
        },
    }
}

/// The registry after a reload.  A selected record whose relaunch succeeded
/// keeps its name and command and takes the fresh PID; one whose relaunch
/// failed is dropped.  Unselected records pass through ordinary
/// reconciliation, opaque rows are kept.
pub open spec fn reload_result_spec(
    reg: Seq<EntryModel>,
    alive: Seq<bool>,
    target: Option<IdentModel>,
    spawn: Seq<Option<u64>>,
) -> Seq<EntryModel>
    decreases reg.len(),
{
    if reg.len() == 0 {
        Seq::empty()
    } else {
        let rest = reload_result_spec(reg.drop_last(), alive.drop_last(), target, spawn.drop_last());
        match reg.last() {
            EntryModel::Opaque(_) => rest.push(reg.last()),
            EntryModel::Record(r) => if reload_selected(reg.last(), target) {
                match spawn[reg.len() - 1] {
                    Some(p) => rest.push(
                        EntryModel::Record(RecordModel { pid: p, name: r.name, command: r.command }),
                    ),
                    None => rest,
                }
            } else if alive[reg.len() - 1] {
                rest.push(reg.last())
            } else {
                rest
            },
        }
    }
}

/// How many selected records were relaunched successfully.
pub open spec fn reload_count_spec(
    reg: Seq<EntryModel>,
    target: Option<IdentModel>,
    spawn: Seq<Option<u64>>,
) -> int
    decreases reg.len(),
{
    if reg.len() == 0 {
        0
    } else {
        let rest = reload_count_spec(reg.drop_last(), target, spawn.drop_last());
        if reload_selected(reg.last(), target) && spawn[reg.len() - 1] is Some {
            rest + 1
        } else {
            rest
        }
    }
}

/// How many rows of the registry are records.
pub open spec fn record_count(reg: Seq<EntryModel>) -> nat
    decreases reg.len(),
{
    if reg.len() == 0 {
        0
    } else {
        record_count(reg.drop_last()) + match reg.last() {
            EntryModel::Record(_) => 1nat,
            EntryModel::Opaque(_) => 0nat,
        }
    }
}

/// The name a started process is tracked under: the explicit name when one
/// was given, else the bare command token.
pub open spec fn effective_name_spec(explicit: Option<Seq<char>>, program: Seq<char>) -> Seq<char> {
    match explicit {
        Some(n) => n,
        None => program,
    }
}

/// Resolve the name a started process is tracked under.
pub fn effective_name(explicit: &Option<String>, program: &str) -> (name: String)
    ensures
        name@ == effective_name_spec(explicit.deep_view(), program@),
{
    match explicit {
        Some(n) => n.clone(),
        None => program.to_owned(),
    }
}

/// Does the identifier pick out this record?
pub fn matches_record(id: &Ident, r: &ProcessRecord) -> (b: bool)
    ensures
        b == ident_matches(id@, r@),
{
    if id.is_pid {
        match id.numeric {
            Some(p) => p == r.pid,
            None => false,
        }
    } else {
        str_eq(id.text.as_str(), r.name.as_str())
    }
}

/// Is this record selected by a reload of `target`?
pub fn reload_selects(target: &Option<Ident>, r: &ProcessRecord) -> (b: bool)
    ensures
        b == reload_selected(EntryModel::Record(r@), target.deep_view()),
{
    match target {
        None => true,
        Some(id) => matches_record(id, r),
    }
}

/// The PID of each row, in order: what the caller must probe for liveness.
/// Opaque rows have none and are never probed.
pub fn probe_pids(reg: &Vec<Entry>) -> (r: Vec<Option<u64>>)
    ensures
        r@.len() == reg@.len(),
        forall|i: int| 0 <= i < reg@.len() ==> r@[i] == entry_pid(reg.deep_view()[i]),
{
    let mut r: Vec<Option<u64>> = Vec::new();
    let mut i: usize = 0;
    while i < reg.len()
        invariant
            0 <= i <= reg@.len(),
            r@.len() == i,
            forall|k: int| 0 <= k < i ==> r@[k] == entry_pid(reg.deep_view()[k]),
        decreases reg@.len() - i,
    {
        match &reg[i] {
            Entry::Record(rec) => r.push(Some(rec.pid)),
            Entry::Opaque(_) => r.push(None),
        }
        i = i + 1;
    }
    r
}

/// The reconciled registry: drop the rows the probe reported dead.
fn reconcile_entries(reg: &Vec<Entry>, alive: &Vec<bool>) -> (out: Vec<Entry>)
    requires
        alive@.len() == reg@.len(),
    ensures
        out.deep_view() == reconcile_spec(reg.deep_view(), alive@),
{
    let ghost d = reg.deep_view();
    let mut out: Vec<Entry> = Vec::new();
    let mut i: usize = 0;
    proof {
        assert(d.take(0) =~= Seq::<EntryModel>::empty());
        assert(alive@.take(0) =~= Seq::<bool>::empty());
        assert(out.deep_view() =~= Seq::<EntryModel>::empty());
    }
    while i < reg.len()
        invariant
            0 <= i <= reg@.len(),
            alive@.len() == reg@.len(),
            d == reg.deep_view(),
            out.deep_view() == reconcile_spec(d.take(i as int), alive@.take(i as int)),
        decreases reg@.len() - i,
    {
        let ghost old_out = out.deep_view();
        proof {
            assert(d.take(i as int + 1).drop_last() =~= d.take(i as int));
            assert(alive@.take(i as int + 1).drop_last() =~= alive@.take(i as int));
            assert(d.take(i as int + 1).last() == d[i as int]);
        }
        let keep = match &reg[i] {
            Entry::Record(_) => alive[i],
            Entry::Opaque(_) => true,
        };
        if keep {
            out.push(reg[i].clone());
            proof {
                assert(out.deep_view() =~= old_out.push(d[i as int]));
            }
        }
        i = i + 1;
    }
    proof {
        assert(d.take(reg@.len() as int) =~= d);
        assert(alive@.take(reg@.len() as int) =~= alive@);
    }
    out
}

/// The live records, in registry order.
fn live_records(reg: &Vec<Entry>, alive: &Vec<bool>) -> (out: Vec<ProcessRecord>)
    requires
        alive@.len() == reg@.len(),
    ensures
        out.deep_view() == live_records_spec(reg.deep_view(), alive@),
{
    let ghost d = reg.deep_view();
    let mut out: Vec<ProcessRecord> = Vec::new();
    let mut i: usize = 0;
    proof {
        assert(d.take(0) =~= Seq::<EntryModel>::empty());
        assert(alive@.take(0) =~= Seq::<bool>::empty());
        assert(out.deep_view() =~= Seq::<RecordModel>::empty());
    }
    while i < reg.len()
        invariant
            0 <= i <= reg@.len(),
            alive@.len() == reg@.len(),
            d == reg.deep_view(),
            out.deep_view() == live_records_spec(d.take(i as int), alive@.take(i as int)),
        decreases reg@.len() - i,
    {
        let ghost old_out = out.deep_view();
        proof {
            assert(d.take(i as int + 1).drop_last() =~= d.take(i as int));
            assert(alive@.take(i as int + 1).drop_last() =~= alive@.take(i as int));
            assert(d.take(i as int + 1).last() == d[i as int]);
        }
        match &reg[i] {
            Entry::Record(rec) => {
                if alive[i] {
                    out.push(rec.clone());
                    proof {
                        assert(out.deep_view() =~= old_out.push(d[i as int]->Record_0));
                    }
                }
            },
            Entry::Opaque(_) => {},
        }
        i = i + 1;
    }
    proof {
        assert(d.take(reg@.len() as int) =~= d);
        assert(alive@.take(reg@.len() as int) =~= alive@);
    }
    out
}

/// What a list operation yields: the reconciled registry to persist, and
/// the live records to report.
#[derive(Debug)]
pub struct ListOutcome {
    pub registry: Vec<Entry>,
    pub live: Vec<ProcessRecord>,
}

/// List: reconcile the registry against the probe's verdicts.  Records
/// confirmed dead are deleted from the persisted registry and excluded from
/// the report; the live ones are reported in registry order.
pub fn list_apply(reg: &Vec<Entry>, alive: &Vec<bool>) -> (out: ListOutcome)
    requires
        alive@.len() == reg@.len(),
    ensures
        out.registry.deep_view() == reconcile_spec(reg.deep_view(), alive@),
        out.live.deep_view() == live_records_spec(reg.deep_view(), alive@),
{
    ListOutcome { registry: reconcile_entries(reg, alive), live: live_records(reg, alive) }
}

/// Start: reconcile, then append the record of the just-spawned process.
/// The caller has already resolved the name, launched the process and
/// obtained its PID; launch failure never reaches this function, so a start
/// that fails to spawn leaves the registry untouched.
pub fn start_apply(reg: &Vec<Entry>, alive: &Vec<bool>, record: ProcessRecord) -> (out: Vec<Entry>)
    requires
        alive@.len() == reg@.len(),
    ensures
        out.deep_view() == reconcile_spec(reg.deep_view(), alive@).push(
            EntryModel::Record(record@),
        ),
{
    let mut out = reconcile_entries(reg, alive);
    let ghost before = out.deep_view();
    out.push(Entry::Record(record));
    proof {
        assert(out.deep_view() =~= before.push(out@.last()@));
    }
    out
}

/// What a kill operation yields: the surviving registry to persist, the
/// matching live records to send a termination request to, and the matching
/// records found already dead, to report as already stopped.
#[derive(Debug)]
pub struct KillOutcome {
    pub registry: Vec<Entry>,
    pub terminate: Vec<ProcessRecord>,
    pub already_dead: Vec<ProcessRecord>,
}

/// Kill: drop every record the identifier matches — the termination
/// request's own outcome does not bring a dropped record back — and
/// reconcile the rest.  Fails with `NoSuchProcess` exactly when the
/// identifier matches zero records; a match that was already dead is a
/// success, reported as already stopped.
pub fn kill_apply(reg: &Vec<Entry>, alive: &Vec<bool>, id: &Ident) -> (out: Result<
    KillOutcome,
    SupervisorError,
>)
    requires
        alive@.len() == reg@.len(),
    ensures
        match out {
            Ok(o) => {
                &&& matching_records(reg.deep_view(), id@).len() > 0
                &&& o.registry.deep_view() == kill_survivors_spec(reg.deep_view(), alive@, id@)
                &&& o.terminate.deep_view() == kill_targets_spec(reg.deep_view(), alive@, id@)
                &&& o.already_dead.deep_view() == kill_dead_spec(reg.deep_view(), alive@, id@)
            },
            Err(e) => {
                &&& matching_records(reg.deep_view(), id@).len() == 0
                &&& e@ == ErrorModel::NoSuchProcess(id@)
            },
        },
{
    let ghost d = reg.deep_view();
    let mut registry: Vec<Entry> = Vec::new();
    let mut terminate: Vec<ProcessRecord> = Vec::new();
    let mut already_dead: Vec<ProcessRecord> = Vec::new();
    let mut found = false;
    let mut i: usize = 0;
    proof {
        assert(d.take(0) =~= Seq::<EntryModel>::empty());
        assert(alive@.take(0) =~= Seq::<bool>::empty());
        assert(registry.deep_view() =~= Seq::<EntryModel>::empty());
        assert(terminate.deep_view() =~= Seq::<RecordModel>::empty());
        assert(already_dead.deep_view() =~= Seq::<RecordModel>::empty());
    }
    while i < reg.len()
        invariant
            0 <= i <= reg@.len(),
            alive@.len() == reg@.len(),
            d == reg.deep_view(),
            registry.deep_view() == kill_survivors_spec(d.take(i as int), alive@.take(i as int), id@),
            terminate.deep_view() == kill_targets_spec(d.take(i as int), alive@.take(i as int), id@),
            already_dead.deep_view() == kill_dead_spec(d.take(i as int), alive@.take(i as int), id@),
            found == (matching_records(d.take(i as int), id@).len() > 0),
        decreases reg@.len() - i,
    {
        let ghost old_registry = registry.deep_view();
        let ghost old_terminate = terminate.deep_view();
        let ghost old_already_dead = already_dead.deep_view();
        proof {
            assert(d.take(i as int + 1).drop_last() =~= d.take(i as int));
            assert(alive@.take(i as int + 1).drop_last() =~= alive@.take(i as int));
            assert(d.take(i as int + 1).last() == d[i as int]);
            assert(matching_records(d.take(i as int), id@).len() <= matching_records(
                d.take(i as int + 1),
                id@,
            ).len());
        }
        match &reg[i] {
            Entry::Record(rec) => {
                if matches_record(id, rec) {
                    found = true;
                    if alive[i] {
                        terminate.push(rec.clone());
                        proof {
                            assert(terminate.deep_view() =~= old_terminate.push(
                                d[i as int]->Record_0,
                            ));
                        }
                    } else {
                        already_dead.push(rec.clone());
                        proof {
                            assert(already_dead.deep_view() =~= old_already_dead.push(
                                d[i as int]->Record_0,
                            ));
                        }
                    }
                } else {
                    if alive[i] {
                        registry.push(reg[i].clone());
                        proof {
                            assert(registry.deep_view() =~= old_registry.push(d[i as int]));
                        }
                    }
                }
            },
            Entry::Opaque(_) => {
                registry.push(reg[i].clone());
                proof {
                    assert(registry.deep_view() =~= old_registry.push(d[i as int]));
                }
            },
        }
        i = i + 1;
    }
    proof {
        assert(d.take(reg@.len() as int) =~= d);
        assert(alive@.take(reg@.len() as int) =~= alive@);
    }
    if found {
        Ok(KillOutcome { registry, terminate, already_dead })
    } else {
        Err(SupervisorError::NoSuchProcess(id.clone()))
    }
}

/// What a reload operation yields: the rewritten registry and the count of
/// records relaunched successfully.
#[derive(Debug)]
pub struct ReloadOutcome {
    pub registry: Vec<Entry>,
    pub reloaded: usize,
}

/// The check a reload makes before any process is touched: an explicit
/// identifier must match at least one record, and a reload of everything
/// needs at least one record to exist.
pub fn reload_check(reg: &Vec<Entry>, target: &Option<Ident>) -> (out: Result<
    (),
    SupervisorError,
>)
    ensures
        match out {
            Ok(()) => match target.deep_view() {
                Some(id) => matching_records(reg.deep_view(), id).len() > 0,
                None => record_count(reg.deep_view()) > 0,
            },
            Err(e) => match target.deep_view() {
                Some(id) => matching_records(reg.deep_view(), id).len() == 0 && e@
                    == ErrorModel::NoSuchTarget(id),
                None => record_count(reg.deep_view()) == 0 && e@ == ErrorModel::NothingToReload,
            },
        },
{
    let ghost d = reg.deep_view();
    let mut found = false;
    let mut i: usize = 0;
    while i < reg.len()
        invariant
            0 <= i <= reg@.len(),
            d == reg.deep_view(),
            match target.deep_view() {
                Some(id) => found == (matching_records(d.take(i as int), id).len() > 0),
                None => found == (record_count(d.take(i as int)) > 0),
            },
        decreases reg@.len() - i,
    {
        proof {
            assert(d.take(i as int + 1).drop_last() =~= d.take(i as int));
            assert(d.take(i as int + 1).last() == d[i as int]);
            if target.deep_view() is Some {
                let id = target.deep_view()->Some_0;
                assert(matching_records(d.take(i as int), id).len() <= matching_records(
                    d.take(i as int + 1),
                    id,
                ).len());
            } else {
                assert(record_count(d.take(i as int)) <= record_count(d.take(i as int + 1)));
            }
        }
        match &reg[i] {
            Entry::Record(rec) => {
                proof {
                    assert(d[i as int] == EntryModel::Record(rec@));
                }
                match target {
                    Some(id) => {
                        proof {
                            assert(target.deep_view() == Some(id@));
                        }
                        if matches_record(id, rec) {
                            found = true;
                        }
                    },
                    None => {
                        proof {
                            assert(target.deep_view() is None);
                        }
                        found = true;
                    },
                }
            },
            Entry::Opaque(s) => {
                proof {
                    assert(d[i as int] == EntryModel::Opaque(s@));
                }
            },
        }
        i = i + 1;
    }
    proof {
        assert(d.take(reg@.len() as int) =~= d);
    }
    if found {
        Ok(())
    } else {
        match target {
            Some(id) => Err(SupervisorError::NoSuchTarget(id.clone())),
            None => Err(SupervisorError::NothingToReload),
        }
    }
}

/// Reload: replace each selected record's PID with the fresh one its
/// relaunch produced — name and command stay byte for byte — and drop the
/// selected records whose relaunch failed; one record's failure never
/// aborts the others.  Unselected records pass through reconciliation.
/// `spawn` is parallel to the registry: the relaunch outcome for each
/// selected row, ignored elsewhere.  Fails with `NoSuchTarget` exactly when
/// an explicit identifier matched nothing, and with `NothingToReload`
/// exactly when everything was asked for but no record is tracked.
pub fn reload_apply(
    reg: &Vec<Entry>,
    alive: &Vec<bool>,
    target: &Option<Ident>,
    spawn: &Vec<Option<u64>>,
) -> (out: Result<ReloadOutcome, SupervisorError>)
    requires
        alive@.len() == reg@.len(),
        spawn@.len() == reg@.len(),
    ensures
        match out {
            Ok(o) => {
                &&& match target.deep_view() {
                    Some(id) => matching_records(reg.deep_view(), id).len() > 0,
                    None => record_count(reg.deep_view()) > 0,
                }
                &&& o.registry.deep_view() == reload_result_spec(
                    reg.deep_view(),
                    alive@,
                    target.deep_view(),
                    spawn@,
                )
                &&& o.reloaded == reload_count_spec(reg.deep_view(), target.deep_view(), spawn@)
            },
            Err(e) => match target.deep_view() {
                Some(id) => matching_records(reg.deep_view(), id).len() == 0 && e@
                    == ErrorModel::NoSuchTarget(id),
                None => record_count(reg.deep_view()) == 0 && e@ == ErrorModel::NothingToReload,
            },
        },
{
    let check = reload_check(reg, target);
    match check {
        Err(e) => {
            return Err(e);
        },
        Ok(()) => {},
    }
    let ghost d = reg.deep_view();
    let mut registry: Vec<Entry> = Vec::new();
    let mut reloaded: usize = 0;
    let mut i: usize = 0;
    proof {
        assert(d.take(0) =~= Seq::<EntryModel>::empty());
        assert(alive@.take(0) =~= Seq::<bool>::empty());
        assert(spawn@.take(0) =~= Seq::<Option<u64>>::empty());
        assert(registry.deep_view() =~= Seq::<EntryModel>::empty());
    }
    while i < reg.len()
        invariant
            0 <= i <= reg@.len(),
            alive@.len() == reg@.len(),
            spawn@.len() == reg@.len(),
            d == reg.deep_view(),
            registry.deep_view() == reload_result_spec(
                d.take(i as int),
                alive@.take(i as int),
                target.deep_view(),
                spawn@.take(i as int),
            ),
            reloaded == reload_count_spec(d.take(i as int), target.deep_view(), spawn@.take(i as int)),
            reloaded <= i,
        decreases reg@.len() - i,
    {
        let ghost old_registry = registry.deep_view();
        proof {
            assert(d.take(i as int + 1).drop_last() =~= d.take(i as int));
            assert(alive@.take(i as int + 1).drop_last() =~= alive@.take(i as int));
            assert(spawn@.take(i as int + 1).drop_last() =~= spawn@.take(i as int));
            assert(d.take(i as int + 1).last() == d[i as int]);
        }
        match &reg[i] {
            Entry::Record(rec) => {
                if reload_selects(target, rec) {
                    match spawn[i] {
                        Some(p) => {
                            let fresh = rec.with_pid(p);
                            registry.push(Entry::Record(fresh));
                            reloaded = reloaded + 1;
                            proof {
                                assert(registry.deep_view() =~= old_registry.push(
                                    EntryModel::Record(
                                        RecordModel {
                                            pid: p,
                                            name: d[i as int]->Record_0.name,
                                            command: d[i as int]->Record_0.command,
                                        },
                                    ),
                                ));
                            }
                        },
                        None => {},
                    }
                } else {
                    if alive[i] {
                        registry.push(reg[i].clone());
                        proof {
                            assert(registry.deep_view() =~= old_registry.push(d[i as int]));
                        }
                    }
                }
            },
            Entry::Opaque(_) => {
                registry.push(reg[i].clone());
                proof {
                    assert(registry.deep_view() =~= old_registry.push(d[i as int]));
                }
            },
        }
        i = i + 1;
    }
    proof {
        assert(d.take(reg@.len() as int) =~= d);
        assert(alive@.take(reg@.len() as int) =~= alive@);
        assert(spawn@.take(reg@.len() as int) =~= spawn@);
    }
    Ok(ReloadOutcome { registry, reloaded })
}


/// The CPU and memory utilization the probe reports for one live process.
#[derive(Debug)]
pub struct Usage {
    pub cpu: String,
    pub mem: String,
}

/// The mathematical value of a `Usage`.
#[verifier::ext_equal]
pub ghost struct UsageModel {
    pub cpu: Seq<char>,
    pub mem: Seq<char>,
}

impl View for Usage {
    type V = UsageModel;

    open spec fn view(&self) -> UsageModel {
        UsageModel { cpu: self.cpu@, mem: self.mem@ }
    }
}

impl DeepView for Usage {
    type V = UsageModel;

    open spec fn deep_view(&self) -> UsageModel {
        self@
    }
}

/// One row of the list report: identifier, name, the two utilization
/// percentages, and the command.
#[derive(Debug)]
pub struct ListRow {
    pub pid: u64,
    pub name: String,
    pub cpu: String,
    pub mem: String,
    pub command: String,
}

/// The mathematical value of a `ListRow`.
#[verifier::ext_equal]
pub ghost struct RowModel {
    pub pid: u64,
    pub name: Seq<char>,
    pub cpu: Seq<char>,
    pub mem: Seq<char>,
    pub command: Seq<char>,
}

impl View for ListRow {
    type V = RowModel;

    open spec fn view(&self) -> RowModel {
        RowModel {
            pid: self.pid,
            name: self.name@,
            cpu: self.cpu@,
            mem: self.mem@,
            command: self.command@,
        }
    }
}

impl DeepView for ListRow {
    type V = RowModel;

    open spec fn deep_view(&self) -> RowModel {
        self@
    }
}

/// The row a live record yields: its identity fields, enriched with the
/// usage the probe reported, or the defined fallback value where the usage
/// query failed (a failed usage query never drops a live row).
pub open spec fn row_spec(r: RecordModel, u: Option<UsageModel>) -> RowModel {
    match u {
        Some(u) => RowModel { pid: r.pid, name: r.name, cpu: u.cpu, mem: u.mem, command: r.command },
        None => RowModel {
            pid: r.pid,
            name: r.name,
            cpu: "0.0"@,
            mem: "0.0"@,
            command: r.command,
        },
    }
}

/// Enrich the live records with the usage answers, one per record.
pub fn make_rows(live: &Vec<ProcessRecord>, usage: &Vec<Option<Usage>>) -> (rows: Vec<ListRow>)
    requires
        usage@.len() == live@.len(),
    ensures
        rows@.len() == live@.len(),
        forall|i: int| 0 <= i < live@.len() ==> rows.deep_view()[i] == row_spec(
            live.deep_view()[i],
            usage.deep_view()[i],
        ),
{
    let mut rows: Vec<ListRow> = Vec::new();
    let mut i: usize = 0;
    while i < live.len()
        invariant
            0 <= i <= live@.len(),
            usage@.len() == live@.len(),
            rows@.len() == i,
            forall|k: int| 0 <= k < i ==> rows.deep_view()[k] == row_spec(
                live.deep_view()[k],
                usage.deep_view()[k],
            ),
        decreases live@.len() - i,
    {
        let r = &live[i];
        proof {
            assert(live.deep_view()[i as int] == r@);
        }
        let row = match &usage[i] {
            Some(u) => {
                proof {
                    assert(usage.deep_view()[i as int] == Some(u@));
                }
                ListRow {
                    pid: r.pid,
                    name: r.name.clone(),
                    cpu: u.cpu.clone(),
                    mem: u.mem.clone(),
                    command: r.command.clone(),
                }
            },
            None => {
                proof {
                    assert(usage.deep_view()[i as int] is None);
                }
                ListRow {
                    pid: r.pid,
                    name: r.name.clone(),
                    cpu: "0.0".to_owned(),
                    mem: "0.0".to_owned(),
                    command: r.command.clone(),
                }
            },
        };
        let ghost expect = row_spec(live.deep_view()[i as int], usage.deep_view()[i as int]);
        let ghost old_rows = rows.deep_view();
        proof {
            assert(row@ =~= expect);
        }
        rows.push(row);
        proof {
            assert(rows.deep_view() =~= old_rows.push(expect));
        }
        i = i + 1;
    }
    rows
}


/// What the usage probe's raw report means: its whitespace-separated
/// fields, with the header row skipped when one is present, give the CPU
/// and memory percentages; a report with fewer fields is unusable.
pub open spec fn usage_report_spec(text: Seq<char>) -> Option<UsageModel> {
    let tokens = split_tokens_spec(text);
    let start: int = if tokens.len() >= 2 && (contains_seq(tokens[0], "CPU"@) || contains_seq(
        tokens[0],
        "pcpu"@,
    )) {
        2
    } else {
        0
    };
    if tokens.len() > start + 1 {
        Some(UsageModel { cpu: tokens[start], mem: tokens[start + 1] })
    } else {
        None
    }
}

/// Read the CPU and memory percentages out of the usage probe's report.
pub fn parse_usage(text: &str) -> (r: Option<Usage>)
    ensures
        r.deep_view() == usage_report_spec(text@),
{
    let tokens = split_tokens(text);
    proof {
        assert(tokens.deep_view() == split_tokens_spec(text@));
        if tokens@.len() >= 1 {
            assert(tokens.deep_view()[0] == tokens@[0]@);
        }
    }
    let start: usize = if tokens.len() >= 2 && (contains_sub(tokens[0].as_str(), "CPU")
        || contains_sub(tokens[0].as_str(), "pcpu")) {
        2
    } else {
        0
    };
    if tokens.len() > start + 1 {
        proof {
            assert(tokens.deep_view()[start as int] == tokens@[start as int]@);
            assert(tokens.deep_view()[start as int + 1] == tokens@[start as int + 1]@);
        }
        Some(Usage { cpu: tokens[start].clone(), mem: tokens[start + 1].clone() })
    } else {
        None
    }
}

} // verus!
