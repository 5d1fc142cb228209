use harissa::CommandRegistry;
use harissa::export::startup_script;
use harissa::export::startup_script_now;
use harissa::ident::contains_sub;
use harissa::ident::join_spaces;
use harissa::ident::parse_identifier;
use harissa::ident::split_tokens;
use harissa::ident::str_eq;
use harissa::commands::CommandKind;
use harissa::errors::SupervisorError;
use harissa::lifecycle::parse_usage;
use harissa::record::ProcessRecord;

fn strings(tokens: &[&str]) -> Vec<String> {
    tokens.iter().map(|t| t.to_string()).collect()
}

#[test]
fn str_eq_compares_contents() {
    assert!(str_eq("abc", "abc"));
    assert!(!str_eq("abc", "abd"));
    assert!(!str_eq("abc", "ab"));
    assert!(str_eq("", ""));
}

#[test]
fn join_spaces_uses_single_spaces() {
    assert_eq!(join_spaces(&strings(&["my", "app"])), "my app");
    assert_eq!(join_spaces(&strings(&["solo"])), "solo");
    assert_eq!(join_spaces(&Vec::<String>::new()), "");
}

#[test]
fn split_tokens_splits_on_whitespace() {
    assert_eq!(split_tokens("node app.js"), strings(&["node", "app.js"]));
    assert_eq!(
        split_tokens("  python \t server.py  --port 80 "),
        strings(&["python", "server.py", "--port", "80"])
    );
    assert_eq!(split_tokens(""), Vec::<String>::new());
    assert_eq!(split_tokens("   "), Vec::<String>::new());
}

#[test]
fn digit_identifier_is_a_pid() {
    let id = parse_identifier(&strings(&["1234"]));
    assert!(id.is_pid);
    assert_eq!(id.numeric, Some(1234));
    assert_eq!(id.text, "1234");
}

#[test]
fn word_identifier_is_a_name() {
    let id = parse_identifier(&strings(&["web"]));
    assert!(!id.is_pid);
    assert_eq!(id.numeric, None);
    assert_eq!(id.text, "web");
}

#[test]
fn multi_token_identifier_joins_with_spaces() {
    let id = parse_identifier(&strings(&["my", "app"]));
    assert!(!id.is_pid);
    assert_eq!(id.text, "my app");
}

#[test]
fn two_digit_tokens_form_a_name_not_a_pid() {
    let id = parse_identifier(&strings(&["12", "34"]));
    assert!(!id.is_pid);
    assert_eq!(id.text, "12 34");
}

#[test]
fn oversized_digit_identifier_stays_pid_kind_without_a_value() {
    let id = parse_identifier(&strings(&["99999999999999999999999999"]));
    assert!(id.is_pid);
    assert_eq!(id.numeric, None);
}

#[test]
fn error_messages_are_exact() {
    assert_eq!(
        SupervisorError::StoreUnavailable("denied".to_string()).message(),
        "Failed to access the process registry: denied"
    );
    assert_eq!(
        SupervisorError::LaunchFailed("no such file".to_string()).message(),
        "Failed to start command: no such file"
    );
    assert_eq!(
        SupervisorError::NothingToReload.message(),
        "No running applications found to reload."
    );
    assert_eq!(
        SupervisorError::ProbeUnavailable.message(),
        "Failed to query process status."
    );
    assert_eq!(
        SupervisorError::NoSuchTarget(parse_identifier(&strings(&["web"]))).message(),
        "No running application found with name 'web'"
    );
}

#[test]
fn registry_offers_the_seven_commands() {
    let registry = CommandRegistry::new();
    assert_eq!(
        registry.get_command_names(),
        strings(&["help", "run", "start", "list", "kill", "reload", "startup"])
    );
}

#[test]
fn execute_resolves_commands_and_their_arguments() {
    let registry = CommandRegistry::new();
    let d = registry.execute(&strings(&["kill", "1234"])).unwrap();
    assert_eq!(d.kind, CommandKind::Kill);
    assert_eq!(d.args, strings(&["1234"]));
    let d = registry.execute(&strings(&["start", "node", "app.js", "-n", "web"])).unwrap();
    assert_eq!(d.kind, CommandKind::Start);
    assert_eq!(d.args, strings(&["node", "app.js", "-n", "web"]));
    let d = registry.execute(&strings(&["list"])).unwrap();
    assert_eq!(d.kind, CommandKind::List);
    assert_eq!(d.args.len(), 0);
}

#[test]
fn execute_with_no_arguments_asks_for_help() {
    let registry = CommandRegistry::new();
    let d = registry.execute(&Vec::<String>::new()).unwrap();
    assert_eq!(d.kind, CommandKind::Help);
    assert_eq!(d.args.len(), 0);
}

#[test]
fn execute_refuses_unknown_commands() {
    let registry = CommandRegistry::new();
    let err = registry.execute(&strings(&["frobnicate"])).unwrap_err();
    assert_eq!(err, "Unknown command: frobnicate");
}

#[test]
fn startup_script_lists_each_record() {
    let records = vec![
        ProcessRecord { pid: 1, name: "web".to_string(), command: "node app.js".to_string() },
        ProcessRecord { pid: 2, name: "db".to_string(), command: "postgres -D /data".to_string() },
    ];
    let script = startup_script(&records, "2024-01-02 03:04:05", "/usr/local/bin/harissa");
    let expected = "#!/bin/bash\n\n\
        # Startup script for harissa applications\n\
        # Written at: 2024-01-02 03:04:05\n\n\
        # Path to the harissa executable\n\
        HARISSA=\"/usr/local/bin/harissa\"\n\n\
        # Start web\n\
        $HARISSA start -n \"web\" node app.js\n\n\
        # Start db\n\
        $HARISSA start -n \"db\" postgres -D /data\n\n";
    assert_eq!(script, expected);
}

#[test]
fn startup_script_now_stamps_some_moment() {
    let records = vec![ProcessRecord {
        pid: 1,
        name: "web".to_string(),
        command: "node app.js".to_string(),
    }];
    let script = startup_script_now(&records, "/bin/harissa");
    assert!(script.starts_with("#!/bin/bash\n\n# Startup script for harissa applications\n# Written at: "));
    assert!(script.ends_with("# Start web\n$HARISSA start -n \"web\" node app.js\n\n"));
    assert!(script.contains("HARISSA=\"/bin/harissa\"\n"));
}

#[test]
fn contains_sub_finds_substrings() {
    assert!(contains_sub("%CPU %MEM", "CPU"));
    assert!(contains_sub("pcpu pmem", "pcpu"));
    assert!(!contains_sub("0.5 1.2", "CPU"));
    assert!(contains_sub("abc", ""));
    assert!(!contains_sub("ab", "abc"));
}

#[test]
fn parse_usage_skips_the_header_row() {
    let with_header = parse_usage("%CPU %MEM\n 1.5  0.2\n").unwrap();
    assert_eq!(with_header.cpu, "1.5");
    assert_eq!(with_header.mem, "0.2");
    let bare = parse_usage(" 3.0 4.5 ").unwrap();
    assert_eq!(bare.cpu, "3.0");
    assert_eq!(bare.mem, "4.5");
    assert!(parse_usage("%CPU %MEM\n").is_none());
    assert!(parse_usage("").is_none());
}
