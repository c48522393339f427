//! Log entries and their ternary status.

use vstd::prelude::*;

verus! {

/// Ternary status for a log entry. Its number, -1, 0 or 1, is [`EntryStatus::value`].
#[derive(Debug, Clone, Copy, PartialEq, Eq, Structural)]
pub enum EntryStatus {
    /// Entry conflicts with existing state (or is rejected).
    Conflicting,
    /// Entry has been appended but not yet committed.
    Appended,
    /// Entry is committed (replicated to a majority).
    Committed,
}

impl EntryStatus {
    /// The place of the status in the ternary domain -1, 0, +1.
    pub open spec fn ternary(self) -> int {
        match self {
            EntryStatus::Conflicting => -1,
            EntryStatus::Appended => 0,
            EntryStatus::Committed => 1,
        }
    }

    /// The status as a number: -1, 0 or 1.
    pub fn value(&self) -> (value: i8)
        ensures
            value == self.ternary(),
    {
        match self {
            EntryStatus::Conflicting => -1,
            EntryStatus::Appended => 0,
            EntryStatus::Committed => 1,
        }
    }
}

/// The mathematical value of a [`LogEntry`].
#[verifier::ext_equal]
pub struct EntryView {
    pub index: nat,
    pub term: nat,
    pub command: Seq<u8>,
    pub status: EntryStatus,
}

impl EntryView {
    /// A fresh entry: appended, not yet committed.
    pub open spec fn fresh(index: nat, term: nat, command: Seq<u8>) -> EntryView {
        EntryView { index, term, command, status: EntryStatus::Appended }
    }

    /// The same entry, marked as committed.
    pub open spec fn committed(self) -> EntryView {
        EntryView { status: EntryStatus::Committed, ..self }
    }
}

/// A single log entry in the replicated log.
#[derive(Debug, PartialEq, Eq)]
pub struct LogEntry {
    pub index: u64,
    pub term: u64,
    pub command: Vec<u8>,
    pub status: EntryStatus,
}

impl View for LogEntry {
    type V = EntryView;

    open spec fn view(&self) -> EntryView {
        EntryView {
            index: self.index as nat,
            term: self.term as nat,
            command: self.command@,
            status: self.status,
        }
    }
}

impl Clone for LogEntry {
    fn clone(&self) -> (entry: Self)
        ensures
            entry@ == self@,
    {
        LogEntry {
            index: self.index,
            term: self.term,
            command: self.command.clone(),
            status: self.status,
        }
    }
}

impl LogEntry {
    /// A fresh entry, with status [`EntryStatus::Appended`].
    pub fn new(index: u64, term: u64, command: Vec<u8>) -> (entry: Self)
        ensures
            entry == (LogEntry { index, term, command, status: EntryStatus::Appended }),
            entry@ == EntryView::fresh(index as nat, term as nat, command@),
    {
        Self { index, term, command, status: EntryStatus::Appended }
    }
}

} // verus!
