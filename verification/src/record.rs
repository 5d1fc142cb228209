//! The data model of the registry: one record per tracked process, plus
//! opaque pass-through rows for persisted lines the store could not make
//! sense of.

use vstd::prelude::*;

verus! {

/// One tracked process: the OS process identifier reported at the time of
/// the last successful (re)start, the user-facing name, and the originally
/// supplied command line, kept verbatim for later relaunches.
#[derive(Debug)]
pub struct ProcessRecord {
    pub pid: u64,
    pub name: String,
    pub command: String,
}

/// The mathematical value of a `ProcessRecord`.
#[verifier::ext_equal]
pub ghost struct RecordModel {
    pub pid: u64,
    pub name: Seq<char>,
    pub command: Seq<char>,
}

impl View for ProcessRecord {
    type V = RecordModel;

    open spec fn view(&self) -> RecordModel {
        RecordModel { pid: self.pid, name: self.name@, command: self.command@ }
    }
}

impl DeepView for ProcessRecord {
    type V = RecordModel;

    open spec fn deep_view(&self) -> RecordModel {
        self@
    }
}

impl Clone for ProcessRecord {
    /// An equal record, field for field.
    fn clone(&self) -> (r: Self)
        ensures
            r == *self,
    {
        ProcessRecord { pid: self.pid, name: self.name.clone(), command: self.command.clone() }
    }
}

/// One row of the persisted registry: either a well-formed record, or an
/// opaque line carried through unmodified.  Opaque rows are never matched
/// against a lookup identifier and never probed for liveness; every rewrite
/// re-emits them verbatim.
#[derive(Debug)]
pub enum Entry {
    Record(ProcessRecord),
    Opaque(String),
}

impl Clone for Entry {
    /// An equal row, field for field.
    fn clone(&self) -> (r: Self)
        ensures
            r == *self,
    {
        match self {
            Entry::Record(r) => Entry::Record(r.clone()),
            Entry::Opaque(s) => Entry::Opaque(s.clone()),
        }
    }
}

/// The mathematical value of an `Entry`.
#[verifier::ext_equal]
pub ghost enum EntryModel {
    Record(RecordModel),
    Opaque(Seq<char>),
}

impl View for Entry {
    type V = EntryModel;

    open spec fn view(&self) -> EntryModel {
        match self {
            Entry::Record(r) => EntryModel::Record(r@),
            Entry::Opaque(s) => EntryModel::Opaque(s@),
        }
    }
}

impl DeepView for Entry {
    type V = EntryModel;

    open spec fn deep_view(&self) -> EntryModel {
        self@
    }
}

/// The PID of an entry, where it has one.
pub open spec fn entry_pid(e: EntryModel) -> Option<u64> {
    match e {
        EntryModel::Record(r) => Some(r.pid),
        EntryModel::Opaque(_) => None,
    }
}

impl ProcessRecord {
    /// A copy of this record with a fresh PID and the identity fields — name
    /// and command — unchanged.
    pub fn with_pid(&self, pid: u64) -> (r: ProcessRecord)
        ensures
            r@ == (RecordModel { pid, name: self@.name, command: self@.command }),
    {
        ProcessRecord { pid, name: self.name.clone(), command: self.command.clone() }
    }
}

} // verus!
