use harissa::record::Entry;
use harissa::record::ProcessRecord;
use harissa::store::parse_line;
use harissa::store::parse_registry;
use harissa::store::render_entry;
use harissa::store::render_line;
use harissa::store::render_registry;
use harissa::u64_to_string;
use harissa::parse_u64;

fn rec(pid: u64, name: &str, command: &str) -> ProcessRecord {
    ProcessRecord { pid, name: name.to_string(), command: command.to_string() }
}

#[test]
fn u64_to_string_renders_decimal() {
    assert_eq!(u64_to_string(0), "0");
    assert_eq!(u64_to_string(7), "7");
    assert_eq!(u64_to_string(111), "111");
    assert_eq!(u64_to_string(18446744073709551615), "18446744073709551615");
}

#[test]
fn parse_u64_accepts_digit_strings() {
    assert_eq!(parse_u64("0"), Some(0));
    assert_eq!(parse_u64("1234"), Some(1234));
    assert_eq!(parse_u64("18446744073709551615"), Some(u64::MAX));
}

#[test]
fn parse_u64_rejects_bad_input() {
    assert_eq!(parse_u64(""), None);
    assert_eq!(parse_u64("12a4"), None);
    assert_eq!(parse_u64("-5"), None);
    assert_eq!(parse_u64("18446744073709551616"), None);
    assert_eq!(parse_u64("99999999999999999999999999"), None);
}

#[test]
fn parse_u64_round_trips_rendering() {
    for n in [0u64, 1, 9, 10, 99, 111, 4242, u64::MAX] {
        assert_eq!(parse_u64(&u64_to_string(n)), Some(n));
    }
}

#[test]
fn parse_line_reads_a_record() {
    match parse_line("111,web,node app.js") {
        Entry::Record(r) => {
            assert_eq!(r.pid, 111);
            assert_eq!(r.name, "web");
            assert_eq!(r.command, "node app.js");
        }
        Entry::Opaque(_) => panic!("expected a record"),
    }
}

#[test]
fn parse_line_rejoins_commas_in_the_command() {
    match parse_line("5,job,sh -c echo a,b,c") {
        Entry::Record(r) => {
            assert_eq!(r.pid, 5);
            assert_eq!(r.name, "job");
            assert_eq!(r.command, "sh -c echo a,b,c");
        }
        Entry::Opaque(_) => panic!("expected a record"),
    }
}

#[test]
fn parse_line_keeps_short_lines_opaque() {
    match parse_line("not a record") {
        Entry::Opaque(s) => assert_eq!(s, "not a record"),
        Entry::Record(_) => panic!("expected an opaque row"),
    }
    match parse_line("one,two") {
        Entry::Opaque(s) => assert_eq!(s, "one,two"),
        Entry::Record(_) => panic!("expected an opaque row"),
    }
}

#[test]
fn parse_line_keeps_bad_pid_lines_opaque() {
    match parse_line("abc,web,node app.js") {
        Entry::Opaque(s) => assert_eq!(s, "abc,web,node app.js"),
        Entry::Record(_) => panic!("expected an opaque row"),
    }
    match parse_line(",web,node app.js") {
        Entry::Opaque(_) => {}
        Entry::Record(_) => panic!("expected an opaque row"),
    }
}

#[test]
fn render_line_writes_the_three_fields() {
    assert_eq!(render_line(&rec(111, "web", "node app.js")), "111,web,node app.js");
}

#[test]
fn render_entry_keeps_opaque_rows_verbatim() {
    assert_eq!(render_entry(&Entry::Opaque("junk line".to_string())), "junk line");
}

#[test]
fn line_round_trip_on_a_rendered_record() {
    let r = rec(4242, "my app", "python server.py --port 80");
    match parse_line(&render_line(&r)) {
        Entry::Record(r2) => {
            assert_eq!(r2.pid, r.pid);
            assert_eq!(r2.name, r.name);
            assert_eq!(r2.command, r.command);
        }
        Entry::Opaque(_) => panic!("expected a record"),
    }
}

#[test]
fn parse_registry_reads_each_line() {
    let reg = parse_registry("111,web,node app.js\njunk\n9,db,postgres\n");
    assert_eq!(reg.len(), 3);
    assert!(matches!(&reg[0], Entry::Record(r) if r.pid == 111));
    assert!(matches!(&reg[1], Entry::Opaque(s) if s == "junk"));
    assert!(matches!(&reg[2], Entry::Record(r) if r.pid == 9));
}

#[test]
fn parse_registry_of_empty_text_is_empty() {
    assert_eq!(parse_registry("").len(), 0);
}

#[test]
fn parse_registry_accepts_a_final_unterminated_line() {
    let reg = parse_registry("111,web,node app.js");
    assert_eq!(reg.len(), 1);
    assert!(matches!(&reg[0], Entry::Record(r) if r.name == "web"));
}

#[test]
fn registry_round_trip() {
    let entries = vec![
        Entry::Record(rec(111, "web", "node app.js")),
        Entry::Opaque("junk".to_string()),
        Entry::Record(rec(9, "db", "postgres -D /data")),
    ];
    let text = render_registry(&entries);
    assert_eq!(text, "111,web,node app.js\njunk\n9,db,postgres -D /data\n");
    let back = parse_registry(&text);
    assert_eq!(back.len(), 3);
    assert!(matches!(&back[0], Entry::Record(r) if r.pid == 111 && r.name == "web"));
    assert!(matches!(&back[1], Entry::Opaque(s) if s == "junk"));
    assert!(matches!(&back[2], Entry::Record(r) if r.command == "postgres -D /data"));
}
