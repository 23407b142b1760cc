//! Command history: the entries the history-backed sources read.
//!
//! Entries stay in insertion order (oldest first). Running a command
//! that is already recorded does not add a second entry: it bumps the
//! existing entry's frequency and refreshes its metadata.

use vstd::prelude::*;
use crate::text::str_eq;

verus! {

/// One recorded command.
#[derive(Debug, Clone, PartialEq, Eq)]
pub struct HistoryEntry {
    pub command: String,
    /// Exit status of the last run, when known.
    pub exit_status: Option<i32>,
    /// Working directory of the last run, when known.
    pub cwd: Option<String>,
    /// How many times the command was recorded.
    pub frequency: u32,
}

impl HistoryEntry {
    /// Entry for a command with no metadata, recorded once.
    pub fn from_command(command: &str) -> (e: Self)
        ensures
            e.command@ == command@,
            e.exit_status is None,
            e.cwd is None,
            e.frequency == 1,
    {
        HistoryEntry { command: command.to_owned(), exit_status: None, cwd: None, frequency: 1 }
    }
}

/// The recorded commands, oldest first.
#[derive(Debug, Clone)]
pub struct CommandHistory {
    entries: Vec<HistoryEntry>,
}

/// Index of the entry recording `command`, if any.
pub open spec fn entry_index(es: Seq<HistoryEntry>, command: Seq<char>) -> Option<int> {
    if exists|i: int| 0 <= i < es.len() && (#[trigger] es[i]).command@ == command {
        Some(choose|i: int| 0 <= i < es.len() && (#[trigger] es[i]).command@ == command)
    } else {
        None
    }
}

/// Commands are recorded at most once.
pub open spec fn distinct_commands(es: Seq<HistoryEntry>) -> bool {
    forall|i: int, j: int| 0 <= i < j < es.len() ==> (#[trigger] es[i]).command@ != (#[trigger] es[j]).command@
}

impl CommandHistory {
    pub closed spec fn view_entries(&self) -> Seq<HistoryEntry> {
        self.entries@
    }

    pub fn new() -> (h: Self)
        ensures
            h.view_entries().len() == 0,
    {
        CommandHistory { entries: Vec::new() }
    }

    /// The entries, oldest first.
    pub fn entries(&self) -> (r: &[HistoryEntry])
        ensures
            r@ == self.view_entries(),
    {
        self.entries.as_slice()
    }

    /// Records a command with no metadata.
    pub fn push(&mut self, command: String)
        requires
            distinct_commands(old(self).view_entries()),
        ensures
            distinct_commands(final(self).view_entries()),
            match entry_index(old(self).view_entries(), command@) {
                None => final(self).view_entries() == old(self).view_entries().push(HistoryEntry {
                    command,
                    exit_status: None,
                    cwd: None,
                    frequency: 1,
                }),
                Some(i) => final(self).view_entries() == old(self).view_entries().update(i, HistoryEntry {
                    frequency: if old(self).view_entries()[i].frequency < u32::MAX {
                        (old(self).view_entries()[i].frequency + 1) as u32
                    } else {
                        u32::MAX
                    },
                    ..old(self).view_entries()[i]
                }),
            },
    {
        let mut i: usize = 0;
        while i < self.entries.len()
            invariant
                i <= self.entries@.len(),
                self.entries@ == old(self).entries@,
                distinct_commands(self.entries@),
                forall|k: int| 0 <= k < i ==> (#[trigger] self.entries@[k]).command@ != command@,
            decreases self.entries@.len() - i,
        {
            if str_eq(self.entries[i].command.as_str(), command.as_str()) {
                proof {
                    assert forall|k: int| 0 <= k < self.entries@.len() && (#[trigger] self.entries@[k]).command@ == command@
                        implies k == i by {
                        if k != i {
                            assert(self.entries@[i as int].command@ == command@);
                        }
                    }
                    assert(entry_index(old(self).entries@, command@) == Some(i as int));
                }
                let old_e = self.entries.remove(i);
                let f = if old_e.frequency < u32::MAX { old_e.frequency + 1 } else { u32::MAX };
                let e = HistoryEntry { frequency: f, ..old_e };
                self.entries.insert(i, e);
                proof {
                    assert(self.entries@ =~= old(self).entries@.update(i as int, e));
                    assert forall|a: int, b: int| 0 <= a < b < self.entries@.len() implies
                        (#[trigger] self.entries@[a]).command@ != (#[trigger] self.entries@[b]).command@ by {
                        assert(old(self).entries@[a].command@ != old(self).entries@[b].command@);
                    }
                }
                return;
            }
            i += 1;
        }
        self.entries.push(HistoryEntry { command, exit_status: None, cwd: None, frequency: 1 });
    }

    /// Records a command with its exit status and working directory.
    pub fn push_with_metadata(&mut self, command: String, exit_status: Option<i32>, cwd: Option<String>)
        requires
            distinct_commands(old(self).view_entries()),
        ensures
            distinct_commands(final(self).view_entries()),
            match entry_index(old(self).view_entries(), command@) {
                None => final(self).view_entries() == old(self).view_entries().push(HistoryEntry {
                    command,
                    exit_status,
                    cwd,
                    frequency: 1,
                }),
                Some(i) => final(self).view_entries() == old(self).view_entries().update(i, HistoryEntry {
                    exit_status,
                    cwd,
                    frequency: if old(self).view_entries()[i].frequency < u32::MAX {
                        (old(self).view_entries()[i].frequency + 1) as u32
                    } else {
                        u32::MAX
                    },
                    ..old(self).view_entries()[i]
                }),
            },
    {
        let mut i: usize = 0;
        while i < self.entries.len()
            invariant
                i <= self.entries@.len(),
                self.entries@ == old(self).entries@,
                distinct_commands(self.entries@),
                forall|k: int| 0 <= k < i ==> (#[trigger] self.entries@[k]).command@ != command@,
            decreases self.entries@.len() - i,
        {
            if str_eq(self.entries[i].command.as_str(), command.as_str()) {
                proof {
                    assert forall|k: int| 0 <= k < self.entries@.len() && (#[trigger] self.entries@[k]).command@ == command@
                        implies k == i by {
                        if k != i {
                            assert(self.entries@[i as int].command@ == command@);
                        }
                    }
                    assert(entry_index(old(self).entries@, command@) == Some(i as int));
                }
                let old_e = self.entries.remove(i);
                let f = if old_e.frequency < u32::MAX { old_e.frequency + 1 } else { u32::MAX };
                let e = HistoryEntry { exit_status, cwd, frequency: f, ..old_e };
                self.entries.insert(i, e);
                proof {
                    assert(self.entries@ =~= old(self).entries@.update(i as int, e));
                    assert forall|a: int, b: int| 0 <= a < b < self.entries@.len() implies
                        (#[trigger] self.entries@[a]).command@ != (#[trigger] self.entries@[b]).command@ by {
                        assert(old(self).entries@[a].command@ != old(self).entries@[b].command@);
                    }
                }
                return;
            }
            i += 1;
        }
        self.entries.push(HistoryEntry { command, exit_status, cwd, frequency: 1 });
    }
}

} // verus!
