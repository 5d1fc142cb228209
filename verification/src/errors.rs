//! The failure taxonomy of the supervisor.
//!
//! Store-level and launch-level failures abort a whole operation; an
//! identifier that matches nothing is an error of its own; per-record
//! failures inside a multi-record reload are aggregated by the caller and
//! never abort the remaining records.

use vstd::prelude::*;
use vstd::string::StringExecFns;
use crate::ident::Ident;
use crate::ident::IdentModel;

verus! {

/// Everything a supervisor operation can fail with.
#[derive(Clone, Debug)]
pub enum SupervisorError {
    /// The backing store exists but cannot be read or written.
    StoreUnavailable(String),
    /// The OS refused to spawn the command; the registry is left untouched.
    LaunchFailed(String),
    /// A kill identifier matched zero records (matched-but-already-dead is
    /// not this error).
    NoSuchProcess(Ident),
    /// A reload identifier matched zero records.
    NoSuchTarget(Ident),
    /// Reload of all records was asked of a registry that tracks none.
    NothingToReload,
    /// A liveness or usage query failed; callers degrade to a fallback
    /// value rather than abort.
    ProbeUnavailable,
}

/// The mathematical value of a `SupervisorError`.
#[verifier::ext_equal]
pub ghost enum ErrorModel {
    StoreUnavailable(Seq<char>),
    LaunchFailed(Seq<char>),
    NoSuchProcess(IdentModel),
    NoSuchTarget(IdentModel),
    NothingToReload,
    ProbeUnavailable,
}

impl View for SupervisorError {
    type V = ErrorModel;

    open spec fn view(&self) -> ErrorModel {
        match self {
            SupervisorError::StoreUnavailable(d) => ErrorModel::StoreUnavailable(d@),
            SupervisorError::LaunchFailed(d) => ErrorModel::LaunchFailed(d@),
            SupervisorError::NoSuchProcess(id) => ErrorModel::NoSuchProcess(id@),
            SupervisorError::NoSuchTarget(id) => ErrorModel::NoSuchTarget(id@),
            SupervisorError::NothingToReload => ErrorModel::NothingToReload,
            SupervisorError::ProbeUnavailable => ErrorModel::ProbeUnavailable,
        }
    }
}

/// The word the message uses for the identifier's kind.
pub open spec fn ident_kind_word(id: IdentModel) -> Seq<char> {
    if id.is_pid {
        "PID"@
    } else {
        "name"@
    }
}

/// The message an identifier that matched nothing produces.
pub open spec fn no_match_message_spec(id: IdentModel) -> Seq<char> {
    "No running application found with "@ + ident_kind_word(id) + " '"@ + id.text + "'"@
}

/// The human-readable message of each failure.
pub open spec fn message_spec(e: ErrorModel) -> Seq<char> {
    match e {
        ErrorModel::StoreUnavailable(d) => "Failed to access the process registry: "@ + d,
        ErrorModel::LaunchFailed(d) => "Failed to start command: "@ + d,
        ErrorModel::NoSuchProcess(id) => no_match_message_spec(id),
        ErrorModel::NoSuchTarget(id) => no_match_message_spec(id),
        ErrorModel::NothingToReload => "No running applications found to reload."@,
        ErrorModel::ProbeUnavailable => "Failed to query process status."@,
    }
}

impl SupervisorError {
    /// Render this failure for the error channel.
    pub fn message(&self) -> (s: String)
        ensures
            s@ == message_spec(self@),
    {
        match self {
            SupervisorError::StoreUnavailable(d) => {
                let mut s = "Failed to access the process registry: ".to_owned();
                s.append(d.as_str());
                proof {
                    assert(s@ =~= message_spec(self@));
                }
                s
            },
            SupervisorError::LaunchFailed(d) => {
                let mut s = "Failed to start command: ".to_owned();
                s.append(d.as_str());
                proof {
                    assert(s@ =~= message_spec(self@));
                }
                s
            },
            SupervisorError::NoSuchProcess(id) => no_match_message(id),
            SupervisorError::NoSuchTarget(id) => no_match_message(id),
            SupervisorError::NothingToReload => "No running applications found to reload.".to_owned(),
            SupervisorError::ProbeUnavailable => "Failed to query process status.".to_owned(),
        }
    }
}

/// Render the matched-nothing message for an identifier.
fn no_match_message(id: &Ident) -> (s: String)
    ensures
        s@ == no_match_message_spec(id@),
{
    let mut s = "No running application found with ".to_owned();
    if id.is_pid {
        s.append("PID");
    } else {
        s.append("name");
    }
    s.append(" '");
    s.append(id.text.as_str());
    s.append("'");
    proof {
        assert(s@ =~= no_match_message_spec(id@));
    }
    s
}

} // verus!
