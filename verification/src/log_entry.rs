//! Entries of the replicated log and the commands they carry.

use vstd::prelude::*;

verus! {

/// A command of the replicated key-value store: `Put` stores a value under
/// a key, `Delete` removes the key.
#[derive(Debug)]
pub enum Command {
    Put { key: String, value: String },
    Delete { key: String },
}

impl Clone for Command {
    fn clone(&self) -> (r: Self)
        ensures
            r == *self,
    {
        match self {
            Command::Put { key, value } => Command::Put { key: key.clone(), value: value.clone() },
            Command::Delete { key } => Command::Delete { key: key.clone() },
        }
    }
}

/// One entry of a node's log: the term in which it was created, the
/// position it claims in the log, and its command.
#[derive(Debug)]
pub struct LogEntry {
    pub term: u64,
    pub index: usize,
    pub command: Command,
}

impl Clone for LogEntry {
    fn clone(&self) -> (r: Self)
        ensures
            r == *self,
    {
        LogEntry { term: self.term, index: self.index, command: self.command.clone() }
    }
}

impl LogEntry {
    /// An entry with the given term, index and command.
    pub fn new(term: u64, index: usize, command: Command) -> (r: LogEntry)
        ensures
            r.term == term,
            r.index == index,
            r.command == command,
    {
        LogEntry { term, index, command }
    }
}

} // verus!
