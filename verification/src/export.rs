//! The startup exporter's side of the core: turn an already-reconciled
//! snapshot of live records into the shell script that starts them all
//! again, one supervisor invocation per record.

use vstd::prelude::*;
use vstd::string::StringExecFns;
use crate::record::ProcessRecord;
use crate::record::RecordModel;

verus! {

/// The head of the script: the shell line, the moment the script was
/// written, and the path of the supervisor executable the body calls.
pub open spec fn script_header_spec(written_at: Seq<char>, exe_path: Seq<char>) -> Seq<char> {
    "#!/bin/bash\n\n# Startup script for harissa applications\n# Written at: "@ + written_at
        + "\n\n# Path to the harissa executable\nHARISSA=\""@ + exe_path + "\"\n\n"@
}

/// One record's block: a comment naming it, then the start invocation that
/// brings it back, with the tracked name and the stored command.
pub open spec fn script_entry_spec(r: RecordModel) -> Seq<char> {
    "# Start "@ + r.name + "\n$HARISSA start -n \""@ + r.name + "\" "@ + r.command + "\n\n"@
}

/// The blocks of all records, in snapshot order.
pub open spec fn script_entries_spec(rs: Seq<RecordModel>) -> Seq<char>
    decreases rs.len(),
{
    if rs.len() == 0 {
        Seq::empty()
    } else {
        script_entries_spec(rs.drop_last()) + script_entry_spec(rs.last())
    }
}

/// The whole script.
pub open spec fn startup_script_spec(
    rs: Seq<RecordModel>,
    written_at: Seq<char>,
    exe_path: Seq<char>,
) -> Seq<char> {
    script_header_spec(written_at, exe_path) + script_entries_spec(rs)
}

/// Render the startup script for a reconciled snapshot of live records.
pub fn startup_script(records: &Vec<ProcessRecord>, written_at: &str, exe_path: &str) -> (s:
    String)
    ensures
        s@ == startup_script_spec(records.deep_view(), written_at@, exe_path@),
{
    let mut s = "#!/bin/bash\n\n# Startup script for harissa applications\n# Written at: ".to_owned();
    s.append(written_at);
    s.append("\n\n# Path to the harissa executable\nHARISSA=\"");
    s.append(exe_path);
    s.append("\"\n\n");
    proof {
        assert(s@ =~= script_header_spec(written_at@, exe_path@));
        assert(records.deep_view().take(0) =~= Seq::<RecordModel>::empty());
        assert(s@ + script_entries_spec(records.deep_view().take(0)) =~= s@);
    }
    let ghost header = s@;
    let mut i: usize = 0;
    while i < records.len()
        invariant
            0 <= i <= records@.len(),
            header == script_header_spec(written_at@, exe_path@),
            s@ == header + script_entries_spec(records.deep_view().take(i as int)),
        decreases records@.len() - i,
    {
        let ghost old_s = s@;
        let r = &records[i];
        proof {
            assert(records.deep_view()[i as int] == r@);
        }
        s.append("# Start ");
        s.append(r.name.as_str());
        s.append("\n$HARISSA start -n \"");
        s.append(r.name.as_str());
        s.append("\" ");
        s.append(r.command.as_str());
        s.append("\n\n");
        proof {
            let d = records.deep_view();
            assert(d.take(i as int + 1).drop_last() =~= d.take(i as int));
            assert(d.take(i as int + 1).last() == d[i as int]);
            assert(s@ =~= old_s + script_entry_spec(d[i as int]));
            assert(old_s + script_entry_spec(d[i as int]) =~= header + (script_entries_spec(
                d.take(i as int),
            ) + script_entry_spec(d[i as int])));
        }
        i = i + 1;
    }
    proof {
        assert(records.deep_view().take(records@.len() as int) =~= records.deep_view());
    }
    s
}

/// Relies on chrono's `Local::now`: the present local date and time, as
/// chrono renders it.  The value depends on the clock and the machine's
/// time zone, so nothing is assumed of it.
#[verifier::external_body]
fn local_now_string() -> String {
    chrono::Local::now().to_string()
}

/// The startup script, stamped with the present moment.  The timestamp
/// comes from the clock, so the contract promises the script's shape for
/// some stamp rather than naming one.
pub fn startup_script_now(records: &Vec<ProcessRecord>, exe_path: &str) -> (s: String)
    ensures
        exists|ts: Seq<char>|
            s@ == #[trigger] startup_script_spec(records.deep_view(), ts, exe_path@),
{
    let ts = local_now_string();
    let s = startup_script(records, ts.as_str(), exe_path);
    proof {
        assert(s@ == startup_script_spec(records.deep_view(), ts@, exe_path@));
    }
    s
}

} // verus!
