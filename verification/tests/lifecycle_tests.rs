use harissa::ident::parse_identifier;
use harissa::lifecycle::Usage;
use harissa::lifecycle::effective_name;
use harissa::lifecycle::kill_apply;
use harissa::lifecycle::list_apply;
use harissa::lifecycle::make_rows;
use harissa::lifecycle::probe_pids;
use harissa::lifecycle::reload_apply;
use harissa::lifecycle::reload_check;
use harissa::lifecycle::start_apply;
use harissa::record::Entry;
use harissa::record::ProcessRecord;
use harissa::errors::SupervisorError;

fn rec(pid: u64, name: &str, command: &str) -> ProcessRecord {
    ProcessRecord { pid, name: name.to_string(), command: command.to_string() }
}

fn ident(tokens: &[&str]) -> harissa::Ident {
    parse_identifier(&tokens.iter().map(|t| t.to_string()).collect())
}

#[test]
fn list_drops_dead_records_and_reports_live_ones() {
    let reg = vec![
        Entry::Record(rec(1, "a", "cmd-a")),
        Entry::Record(rec(2, "b", "cmd-b")),
        Entry::Opaque("junk".to_string()),
    ];
    let out = list_apply(&reg, &vec![true, false, false]);
    assert_eq!(out.registry.len(), 2);
    assert!(matches!(&out.registry[0], Entry::Record(r) if r.pid == 1));
    assert!(matches!(&out.registry[1], Entry::Opaque(s) if s == "junk"));
    assert_eq!(out.live.len(), 1);
    assert_eq!(out.live[0].pid, 1);
}

#[test]
fn list_twice_is_idempotent() {
    let reg = vec![
        Entry::Record(rec(1, "a", "cmd-a")),
        Entry::Record(rec(2, "b", "cmd-b")),
        Entry::Opaque("junk".to_string()),
        Entry::Record(rec(3, "c", "cmd-c")),
    ];
    let first = list_apply(&reg, &vec![true, false, false, true]);
    // No process exits in between: everything the first list kept is still
    // alive on the second probe.
    let alive2: Vec<bool> = first
        .registry
        .iter()
        .map(|e| matches!(e, Entry::Record(_)))
        .collect();
    let second = list_apply(&first.registry, &alive2);
    assert_eq!(second.registry.len(), first.registry.len());
    for (a, b) in first.registry.iter().zip(second.registry.iter()) {
        match (a, b) {
            (Entry::Record(x), Entry::Record(y)) => {
                assert_eq!(x.pid, y.pid);
                assert_eq!(x.name, y.name);
                assert_eq!(x.command, y.command);
            }
            (Entry::Opaque(x), Entry::Opaque(y)) => assert_eq!(x, y),
            _ => panic!("rows changed shape"),
        }
    }
    assert_eq!(second.live.len(), first.live.len());
    for (a, b) in first.live.iter().zip(second.live.iter()) {
        assert_eq!(a.pid, b.pid);
        assert_eq!(a.name, b.name);
        assert_eq!(a.command, b.command);
    }
}

#[test]
fn kill_by_pid_leaves_no_record_with_that_pid() {
    let reg = vec![
        Entry::Record(rec(7, "a", "cmd-a")),
        Entry::Record(rec(8, "b", "cmd-b")),
        Entry::Record(rec(7, "stale", "cmd-old")),
    ];
    let out = kill_apply(&reg, &vec![true, true, false], &ident(&["7"])).unwrap();
    for e in &out.registry {
        if let Entry::Record(r) = e {
            assert_ne!(r.pid, 7);
        }
    }
    // The live match gets a termination request; the dead one is reported
    // as already stopped; both are dropped regardless.
    assert_eq!(out.terminate.len(), 1);
    assert_eq!(out.terminate[0].name, "a");
    assert_eq!(out.already_dead.len(), 1);
    assert_eq!(out.already_dead[0].name, "stale");
    assert_eq!(out.registry.len(), 1);
}

#[test]
fn kill_by_name_operates_on_all_matches() {
    let reg = vec![
        Entry::Record(rec(1, "web", "cmd-1")),
        Entry::Record(rec(2, "web", "cmd-2")),
        Entry::Record(rec(3, "db", "cmd-3")),
    ];
    let out = kill_apply(&reg, &vec![true, true, true], &ident(&["web"])).unwrap();
    assert_eq!(out.terminate.len(), 2);
    assert_eq!(out.registry.len(), 1);
    assert!(matches!(&out.registry[0], Entry::Record(r) if r.name == "db"));
}

#[test]
fn kill_reconciles_non_matching_records() {
    let reg = vec![
        Entry::Record(rec(1, "a", "cmd-a")),
        Entry::Record(rec(2, "b", "cmd-b")),
    ];
    let out = kill_apply(&reg, &vec![true, false], &ident(&["a"])).unwrap();
    // "b" was dead, so kill's reconciliation pass drops it too.
    assert_eq!(out.registry.len(), 0);
}

#[test]
fn kill_with_no_match_is_no_such_process() {
    let reg = vec![Entry::Record(rec(1, "a", "cmd-a"))];
    let err = kill_apply(&reg, &vec![true], &ident(&["nope"])).unwrap_err();
    assert!(matches!(&err, SupervisorError::NoSuchProcess(id) if id.text == "nope"));
    assert_eq!(
        err.message(),
        "No running application found with name 'nope'"
    );
}

#[test]
fn kill_pid_identifier_message_names_the_pid() {
    let reg = vec![Entry::Record(rec(1, "a", "cmd-a"))];
    let err = kill_apply(&reg, &vec![true], &ident(&["999"])).unwrap_err();
    assert_eq!(err.message(), "No running application found with PID '999'");
}

#[test]
fn kill_of_a_huge_digit_identifier_matches_nothing() {
    let reg = vec![Entry::Record(rec(1, "99999999999999999999999999", "cmd"))];
    // All digits, so it is a PID lookup even though a record carries that
    // name; it exceeds any possible PID and matches nothing.
    let err = kill_apply(&reg, &vec![true], &ident(&["99999999999999999999999999"])).unwrap_err();
    assert!(matches!(err, SupervisorError::NoSuchProcess(_)));
}

#[test]
fn dead_match_is_success_not_error() {
    // Registry [{pid:111,name:"web",command:"node app.js"}]; the probe
    // reports 111 dead.
    let reg = vec![Entry::Record(rec(111, "web", "node app.js"))];

    // List: zero rows, and the persisted registry is empty afterwards.
    let listed = list_apply(&reg, &vec![false]);
    assert_eq!(listed.live.len(), 0);
    assert_eq!(listed.registry.len(), 0);

    // Kill "web" on the same input: the match is found (success, not
    // NoSuchProcess), reported as already stopped, and the registry is
    // empty afterwards.
    let out = kill_apply(&reg, &vec![false], &ident(&["web"])).unwrap();
    assert_eq!(out.terminate.len(), 0);
    assert_eq!(out.already_dead.len(), 1);
    assert_eq!(out.already_dead[0].name, "web");
    assert_eq!(out.already_dead[0].pid, 111);
    assert_eq!(out.registry.len(), 0);
}

#[test]
fn start_name_defaults_to_the_command_token() {
    // Start "python server.py" with no explicit name: the tracked name is
    // exactly the command token.
    let name = effective_name(&None, "python");
    assert_eq!(name, "python");
    let explicit = effective_name(&Some("my app".to_string()), "python");
    assert_eq!(explicit, "my app");
}

#[test]
fn start_then_list_shows_exactly_the_new_row() {
    let reg = vec![
        Entry::Record(rec(1, "a", "cmd-a")),
        Entry::Record(rec(2, "b", "cmd-b")),
    ];
    let started = start_apply(&reg, &vec![true, false], rec(42, "python", "python server.py"));
    assert_eq!(started.len(), 2);
    let listed = list_apply(&started, &vec![true, true]);
    assert_eq!(listed.live.len(), 2);
    let row = &listed.live[1];
    assert_eq!(row.pid, 42);
    assert_eq!(row.name, "python");
    assert_eq!(row.command, "python server.py");
}

#[test]
fn reload_preserves_name_and_command() {
    let reg = vec![Entry::Record(rec(5, "web", "node app.js"))];
    let out = reload_apply(&reg, &vec![true], &None, &vec![Some(99)]).unwrap();
    assert_eq!(out.reloaded, 1);
    assert_eq!(out.registry.len(), 1);
    match &out.registry[0] {
        Entry::Record(r) => {
            assert_eq!(r.pid, 99);
            assert_eq!(r.name, "web");
            assert_eq!(r.command, "node app.js");
        }
        Entry::Opaque(_) => panic!("expected a record"),
    }
}

#[test]
fn reload_all_aggregates_partial_failure() {
    let reg = vec![
        Entry::Record(rec(1, "a", "cmd-a")),
        Entry::Record(rec(2, "b", "cmd-b")),
        Entry::Record(rec(3, "c", "cmd-c")),
    ];
    // The second relaunch fails; the other two succeed.
    let out = reload_apply(
        &reg,
        &vec![true, true, true],
        &None,
        &vec![Some(11), None, Some(33)],
    )
    .unwrap();
    assert_eq!(out.reloaded, 2);
    assert_eq!(out.registry.len(), 2);
    assert!(matches!(&out.registry[0], Entry::Record(r) if r.pid == 11 && r.name == "a"));
    assert!(matches!(&out.registry[1], Entry::Record(r) if r.pid == 33 && r.name == "c"));
}

#[test]
fn reload_with_identifier_touches_only_matches() {
    let reg = vec![
        Entry::Record(rec(1, "a", "cmd-a")),
        Entry::Record(rec(2, "b", "cmd-b")),
        Entry::Record(rec(3, "c", "cmd-c")),
    ];
    let out = reload_apply(
        &reg,
        &vec![true, true, false],
        &Some(ident(&["b"])),
        &vec![None, Some(22), None],
    )
    .unwrap();
    assert_eq!(out.reloaded, 1);
    // "a" passes through alive, "b" gets the fresh PID, dead "c" is
    // reconciled away.
    assert_eq!(out.registry.len(), 2);
    assert!(matches!(&out.registry[0], Entry::Record(r) if r.pid == 1));
    assert!(matches!(&out.registry[1], Entry::Record(r) if r.pid == 22 && r.name == "b"));
}

#[test]
fn reload_selected_records_relaunch_even_when_dead() {
    let reg = vec![Entry::Record(rec(1, "a", "cmd-a"))];
    let out = reload_apply(&reg, &vec![false], &None, &vec![Some(2)]).unwrap();
    assert_eq!(out.reloaded, 1);
    assert!(matches!(&out.registry[0], Entry::Record(r) if r.pid == 2));
}

#[test]
fn reload_unknown_identifier_is_no_such_target() {
    let reg = vec![Entry::Record(rec(1, "a", "cmd-a"))];
    let err = reload_apply(&reg, &vec![true], &Some(ident(&["nope"])), &vec![None::<u64>]).unwrap_err();
    assert!(matches!(&err, SupervisorError::NoSuchTarget(id) if id.text == "nope"));
    assert_eq!(reload_check(&reg, &Some(ident(&["nope"]))).is_err(), true);
}

#[test]
fn reload_all_of_an_untracked_registry_is_nothing_to_reload() {
    let reg = vec![Entry::Opaque("junk".to_string())];
    let err = reload_apply(&reg, &vec![false], &None, &vec![None::<u64>]).unwrap_err();
    assert!(matches!(err, SupervisorError::NothingToReload));
    assert_eq!(
        err.message(),
        "No running applications found to reload."
    );
    assert!(reload_check(&Vec::<Entry>::new(), &None).is_err());
}

#[test]
fn probe_pids_lists_record_pids_in_order() {
    let reg = vec![
        Entry::Record(rec(1, "a", "cmd-a")),
        Entry::Opaque("junk".to_string()),
        Entry::Record(rec(2, "b", "cmd-b")),
    ];
    assert_eq!(probe_pids(&reg), vec![Some(1), None, Some(2)]);
}

#[test]
fn make_rows_enriches_and_falls_back() {
    let live = vec![rec(1, "a", "cmd-a"), rec(2, "b", "cmd-b")];
    let usage = vec![
        Some(Usage { cpu: "1.5".to_string(), mem: "0.2".to_string() }),
        None,
    ];
    let rows = make_rows(&live, &usage);
    assert_eq!(rows.len(), 2);
    assert_eq!(rows[0].pid, 1);
    assert_eq!(rows[0].cpu, "1.5");
    assert_eq!(rows[0].mem, "0.2");
    assert_eq!(rows[1].pid, 2);
    assert_eq!(rows[1].cpu, "0.0");
    assert_eq!(rows[1].mem, "0.0");
    assert_eq!(rows[1].command, "cmd-b");
}
