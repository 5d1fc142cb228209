//! The persisted form of the registry: one row per line, the first two
//! fields (PID and name) comma-delimited, everything after the second comma
//! taken verbatim as the command string.  A line without two commas, or
//! whose PID field is not a `u64` digit string, is an opaque row: it is kept
//! and re-emitted verbatim, but never matched or probed.

use vstd::prelude::*;
use vstd::string::StrSliceExecFns;
use vstd::string::StringExecFns;
use crate::digits::all_digits;
use crate::digits::is_digit;
use crate::digits::lemma_dec_digits;
use crate::digits::lemma_dec_val;
use crate::digits::parse_u64;
use crate::digits::parse_u64_spec;
use crate::digits::u64_dec_spec;
use crate::digits::u64_to_string;
use crate::record::Entry;
use crate::record::EntryModel;
use crate::record::ProcessRecord;
use crate::record::RecordModel;

verus! {

/// Index of the first occurrence of `c` in `s`.
pub open spec fn find_char(s: Seq<char>, c: char) -> Option<int>
    decreases s.len(),
{
    if s.len() == 0 {
        None
    } else if s[0] == c {
        Some(0)
    } else {
        match find_char(s.drop_first(), c) {
            None => None,
            Some(i) => Some(i + 1),
        }
    }
}

/// `find_char` returns the first index holding `c`, or nothing when `c`
/// does not occur.
pub proof fn lemma_find_char(s: Seq<char>, c: char)
    ensures
        match find_char(s, c) {
            Some(i) => 0 <= i < s.len() && s[i] == c && (forall|k: int| 0 <= k < i ==> s[k] != c),
            None => forall|k: int| 0 <= k < s.len() ==> s[k] != c,
        },
    decreases s.len(),
{
    if s.len() > 0 && s[0] != c {
        lemma_find_char(s.drop_first(), c);
        match find_char(s.drop_first(), c) {
            Some(i) => {
                assert forall|k: int| 0 <= k < i + 1 implies s[k] != c by {
                    if k > 0 {
                        assert(s.drop_first()[k - 1] != c);
                    }
                }
            },
            None => {
                assert forall|k: int| 0 <= k < s.len() implies s[k] != c by {
                    if k > 0 {
                        assert(s.drop_first()[k - 1] != c);
                    }
                }
            },
        }
    }
}

/// A position whose prefix is free of `c` and which holds `c` is exactly
/// where `find_char` points.
pub proof fn lemma_find_char_at(s: Seq<char>, c: char, i: int)
    requires
        0 <= i < s.len(),
        s[i] == c,
        forall|k: int| 0 <= k < i ==> s[k] != c,
    ensures
        find_char(s, c) == Some(i),
{
    lemma_find_char(s, c);
    match find_char(s, c) {
        Some(j) => {
            if j < i {
                assert(s[j] != c);
            }
            if j > i {
                assert(s[i] != c);
            }
        },
        None => {
            assert(s[i] != c);
        },
    }
}

/// First occurrence of `c` in `s`, as executable code.
fn find_char_exec(s: &str, c: char) -> (r: Option<usize>)
    ensures
        match r {
            Some(i) => find_char(s@, c) == Some(i as int),
            None => find_char(s@, c) is None,
        },
{
    let n = s.unicode_len();
    let mut i: usize = 0;
    while i < n
        invariant
            0 <= i <= n,
            n == s@.len(),
            forall|k: int| 0 <= k < i ==> s@[k] != c,
        decreases n - i,
    {
        if s.get_char(i) == c {
            proof {
                lemma_find_char_at(s@, c, i as int);
            }
            return Some(i);
        }
        i = i + 1;
    }
    proof {
        lemma_find_char(s@, c);
        if find_char(s@, c) is Some {
            let j = find_char(s@, c)->Some_0;
            assert(s@[j] != c);
        }
    }
    None
}

/// What one persisted line means: a record when it has at least two commas
/// and a digit-string PID field, otherwise the line itself, opaque.
pub open spec fn parse_line_spec(s: Seq<char>) -> EntryModel {
    match find_char(s, ',') {
        None => EntryModel::Opaque(s),
        Some(i) => {
            let rest = s.skip(i + 1);
            match find_char(rest, ',') {
                None => EntryModel::Opaque(s),
                Some(j) => match parse_u64_spec(s.take(i)) {
                    None => EntryModel::Opaque(s),
                    Some(pid) => EntryModel::Record(
                        RecordModel { pid, name: rest.take(j), command: rest.skip(j + 1) },
                    ),
                },
            }
        },
    }
}

/// Parse one persisted line.
pub fn parse_line(line: &str) -> (e: Entry)
    ensures
        e@ == parse_line_spec(line@),
{
    let n = line.unicode_len();
    let first = find_char_exec(line, ',');
    match first {
        None => Entry::Opaque(line.to_owned()),
        Some(i) => {
            proof {
                lemma_find_char(line@, ',');
            }
            let rest = line.substring_char(i + 1, n);
            proof {
                assert(rest@ =~= line@.skip(i as int + 1));
            }
            let second = find_char_exec(rest, ',');
            match second {
                None => Entry::Opaque(line.to_owned()),
                Some(j) => {
                    let pid_str = line.substring_char(0, i);
                    proof {
                        assert(pid_str@ =~= line@.take(i as int));
                    }
                    match parse_u64(pid_str) {
                        None => Entry::Opaque(line.to_owned()),
                        Some(pid) => {
                            proof {
                                lemma_find_char(rest@, ',');
                            }
                            let rest_n = rest.unicode_len();
                            let name = rest.substring_char(0, j).to_owned();
                            let command = rest.substring_char(j + 1, rest_n).to_owned();
                            proof {
                                assert(name@ =~= rest@.take(j as int));
                                assert(command@ =~= rest@.skip(j as int + 1));
                            }
                            Entry::Record(ProcessRecord { pid, name, command })
                        },
                    }
                },
            }
        },
    }
}

/// The persisted form of a record: `pid,name,command`.
pub open spec fn render_line_spec(r: RecordModel) -> Seq<char> {
    u64_dec_spec(r.pid as nat) + ","@ + r.name + ","@ + r.command
}

/// The persisted form of a row.
pub open spec fn render_entry_spec(e: EntryModel) -> Seq<char> {
    match e {
        EntryModel::Record(r) => render_line_spec(r),
        EntryModel::Opaque(s) => s,
    }
}

/// Render one record as its persisted line.
pub fn render_line(r: &ProcessRecord) -> (s: String)
    ensures
        s@ == render_line_spec(r@),
{
    let mut s = u64_to_string(r.pid);
    s.append(",");
    s.append(r.name.as_str());
    s.append(",");
    s.append(r.command.as_str());
    s
}

/// Render one row as its persisted line.
pub fn render_entry(e: &Entry) -> (s: String)
    ensures
        s@ == render_entry_spec(e@),
{
    match e {
        Entry::Record(r) => render_line(r),
        Entry::Opaque(line) => line.clone(),
    }
}

/// A record the store can round-trip: the name carries no comma and no line
/// break, the command no line break.
pub open spec fn record_wf(r: RecordModel) -> bool {
    &&& !r.name.contains(',')
    &&& !r.name.contains('\n')
    &&& !r.command.contains('\n')
}

/// A row the store can round-trip.  An opaque row must be exactly what some
/// unparseable line reads as, and must carry no line break.
pub open spec fn entry_wf(e: EntryModel) -> bool {
    match e {
        EntryModel::Record(r) => record_wf(r),
        EntryModel::Opaque(s) => !s.contains('\n') && parse_line_spec(s) == EntryModel::Opaque(s),
    }
}

/// A registry the store can round-trip.
pub open spec fn registry_wf(reg: Seq<EntryModel>) -> bool {
    forall|i: int| 0 <= i < reg.len() ==> entry_wf(#[trigger] reg[i])
}

/// Digit strings contain neither commas nor line breaks.
proof fn lemma_digits_plain(s: Seq<char>)
    requires
        all_digits(s),
    ensures
        !s.contains(','),
        !s.contains('\n'),
{
    if s.contains(',') {
        let i = choose|i: int| 0 <= i < s.len() && s[i] == ',';
        assert(is_digit(s[i]));
    }
    if s.contains('\n') {
        let i = choose|i: int| 0 <= i < s.len() && s[i] == '\n';
        assert(is_digit(s[i]));
    }
}

/// Parsing the rendered form of a well-formed record yields the record
/// back: the store loses nothing over one rewrite cycle.
pub proof fn lemma_line_round_trip(r: RecordModel)
    requires
        record_wf(r),
    ensures
        parse_line_spec(render_line_spec(r)) == EntryModel::Record(r),
{
    reveal_strlit(",");
    let d = u64_dec_spec(r.pid as nat);
    let s = render_line_spec(r);
    lemma_dec_digits(r.pid as nat);
    lemma_dec_val(r.pid as nat);
    lemma_digits_plain(d);
    assert(s.len() == d.len() + 1 + r.name.len() + 1 + r.command.len());
    assert(s[d.len() as int] == ',');
    assert forall|k: int| 0 <= k < d.len() implies s[k] != ',' by {
        assert(s[k] == d[k]);
        if s[k] == ',' {
            assert(d.contains(','));
        }
    }
    lemma_find_char_at(s, ',', d.len() as int);
    let rest = s.skip(d.len() as int + 1);
    assert(rest =~= r.name + ","@ + r.command);
    assert(rest[r.name.len() as int] == ',');
    assert forall|k: int| 0 <= k < r.name.len() implies rest[k] != ',' by {
        assert(rest[k] == r.name[k]);
        if rest[k] == ',' {
            assert(r.name.contains(','));
        }
    }
    lemma_find_char_at(rest, ',', r.name.len() as int);
    assert(s.take(d.len() as int) =~= d);
    assert(parse_u64_spec(d) == Some(r.pid));
    assert(rest.take(r.name.len() as int) =~= r.name);
    assert(rest.skip(r.name.len() as int + 1) =~= r.command);
}

/// The whole persisted registry: the rows' lines, each ended by a line
/// break.
pub open spec fn render_registry_spec(reg: Seq<EntryModel>) -> Seq<char>
    decreases reg.len(),
{
    if reg.len() == 0 {
        Seq::empty()
    } else {
        render_entry_spec(reg[0]) + "\n"@ + render_registry_spec(reg.drop_first())
    }
}

/// What a persisted text means, row by row: lines are separated by line
/// breaks, and a final unterminated chunk still counts as a line.
pub open spec fn parse_registry_spec(s: Seq<char>) -> Seq<EntryModel>
    decreases s.len(),
    via parse_registry_spec_decreases
{
    if s.len() == 0 {
        Seq::empty()
    } else {
        match find_char(s, '\n') {
            None => seq![parse_line_spec(s)],
            Some(i) => seq![parse_line_spec(s.take(i))] + parse_registry_spec(s.skip(i + 1)),
        }
    }
}

#[via_fn]
proof fn parse_registry_spec_decreases(s: Seq<char>) {
    lemma_find_char(s, '\n');
}

/// Parse a full persisted registry text.
pub fn parse_registry(text: &str) -> (reg: Vec<Entry>)
    ensures
        reg.deep_view() == parse_registry_spec(text@),
{
    let n = text.unicode_len();
    let mut reg: Vec<Entry> = Vec::new();
    let mut pos: usize = 0;
    proof {
        assert(text@.skip(0) =~= text@);
        assert(reg.deep_view() =~= Seq::<EntryModel>::empty());
        assert(Seq::<EntryModel>::empty() + parse_registry_spec(text@) =~= parse_registry_spec(
            text@,
        ));
    }
    while pos < n
        invariant
            0 <= pos <= n,
            n == text@.len(),
            parse_registry_spec(text@) == reg.deep_view() + parse_registry_spec(
                text@.skip(pos as int),
            ),
        decreases n - pos,
    {
        let rest = text.substring_char(pos, n);
        proof {
            assert(rest@ =~= text@.skip(pos as int));
        }
        let ghost old_reg = reg.deep_view();
        match find_char_exec(rest, '\n') {
            None => {
                let e = parse_line(rest);
                reg.push(e);
                pos = n;
                proof {
                    assert(reg.deep_view() =~= old_reg + seq![parse_line_spec(rest@)]);
                    assert(parse_registry_spec(rest@) =~= seq![parse_line_spec(rest@)]);
                    assert(text@.skip(n as int) =~= Seq::<char>::empty());
                    assert(old_reg + seq![parse_line_spec(rest@)] + Seq::<EntryModel>::empty()
                        =~= old_reg + parse_registry_spec(rest@));
                }
            },
            Some(i) => {
                proof {
                    lemma_find_char(rest@, '\n');
                }
                let line = rest.substring_char(0, i);
                let e = parse_line(line);
                reg.push(e);
                proof {
                    assert(line@ =~= rest@.take(i as int));
                    assert(reg.deep_view() =~= old_reg + seq![parse_line_spec(rest@.take(
                        i as int,
                    ))]);
                    assert(rest@.skip(i as int + 1) =~= text@.skip(pos + i + 1));
                    assert(old_reg + (seq![parse_line_spec(rest@.take(i as int))]
                        + parse_registry_spec(rest@.skip(i as int + 1))) =~= (old_reg
                        + seq![parse_line_spec(rest@.take(i as int))]) + parse_registry_spec(
                        text@.skip(pos + i + 1),
                    ));
                }
                pos = pos + i + 1;
            },
        }
    }
    proof {
        assert(text@.skip(n as int) =~= Seq::<char>::empty());
        assert(reg.deep_view() + Seq::<EntryModel>::empty() =~= reg.deep_view());
    }
    reg
}

/// Render a registry as the text to persist.
pub fn render_registry(reg: &Vec<Entry>) -> (s: String)
    ensures
        s@ == render_registry_spec(reg.deep_view()),
{
    let mut s = String::new();
    let mut i: usize = 0;
    proof {
        assert(reg.deep_view().skip(0) =~= reg.deep_view());
        assert(s@ + render_registry_spec(reg.deep_view()) =~= render_registry_spec(
            reg.deep_view(),
        ));
    }
    while i < reg.len()
        invariant
            0 <= i <= reg@.len(),
            s@ + render_registry_spec(reg.deep_view().skip(i as int)) == render_registry_spec(
                reg.deep_view(),
            ),
        decreases reg@.len() - i,
    {
        let ghost old_s = s@;
        let line = render_entry(&reg[i]);
        s.append(line.as_str());
        s.append("\n");
        proof {
            let d = reg.deep_view();
            assert(d.skip(i as int)[0] == d[i as int]);
            assert(d.skip(i as int).drop_first() =~= d.skip(i as int + 1));
            assert(s@ + render_registry_spec(d.skip(i as int + 1)) =~= old_s
                + render_registry_spec(d.skip(i as int)));
        }
        i = i + 1;
    }
    proof {
        assert(reg.deep_view().skip(reg@.len() as int) =~= Seq::<EntryModel>::empty());
    }
    s
}

/// A well-formed row's line holds no line break.
proof fn lemma_entry_line_plain(e: EntryModel)
    requires
        entry_wf(e),
    ensures
        !render_entry_spec(e).contains('\n'),
{
    reveal_strlit(",");
    match e {
        EntryModel::Record(r) => {
            let d = u64_dec_spec(r.pid as nat);
            lemma_dec_digits(r.pid as nat);
            lemma_digits_plain(d);
            let s = render_line_spec(r);
            if s.contains('\n') {
                let i = choose|i: int| 0 <= i < s.len() && s[i] == '\n';
                if i < d.len() {
                    assert(d.contains('\n')) by {
                        assert(d[i] == s[i]);
                    }
                } else if i == d.len() {
                    assert(s[i] == ',');
                } else if i < d.len() + 1 + r.name.len() {
                    assert(r.name.contains('\n')) by {
                        assert(r.name[i - d.len() - 1] == s[i]);
                    }
                } else if i == d.len() + 1 + r.name.len() {
                    assert(s[i] == ',');
                } else {
                    assert(r.command.contains('\n')) by {
                        assert(r.command[i - d.len() - 2 - r.name.len()] == s[i]);
                    }
                }
            }
        },
        EntryModel::Opaque(_) => {},
    }
}

/// Parsing a rendered well-formed registry yields the registry back: a full
/// rewrite followed by a load changes nothing.
pub proof fn lemma_registry_round_trip(reg: Seq<EntryModel>)
    requires
        registry_wf(reg),
    ensures
        parse_registry_spec(render_registry_spec(reg)) == reg,
    decreases reg.len(),
{
    reveal_strlit("\n");
    if reg.len() == 0 {
    } else {
        let line = render_entry_spec(reg[0]);
        let rest = render_registry_spec(reg.drop_first());
        let s = render_registry_spec(reg);
        assert(entry_wf(reg[0]));
        lemma_entry_line_plain(reg[0]);
        assert(s[line.len() as int] == '\n');
        assert forall|k: int| 0 <= k < line.len() implies s[k] != '\n' by {
            assert(s[k] == line[k]);
            if s[k] == '\n' {
                assert(line.contains('\n'));
            }
        }
        lemma_find_char_at(s, '\n', line.len() as int);
        assert(s.take(line.len() as int) =~= line);
        assert(s.skip(line.len() as int + 1) =~= rest);
        match reg[0] {
            EntryModel::Record(r) => {
                lemma_line_round_trip(r);
            },
            EntryModel::Opaque(_) => {},
        }
        assert(registry_wf(reg.drop_first())) by {
            assert forall|i: int| 0 <= i < reg.drop_first().len() implies entry_wf(
                #[trigger] reg.drop_first()[i],
            ) by {
                assert(reg.drop_first()[i] == reg[i + 1]);
            }
        }
        lemma_registry_round_trip(reg.drop_first());
        assert(seq![parse_line_spec(line)] + reg.drop_first() =~= reg);
    }
}

} // verus!
