use vstd::prelude::*;
use crate::text::str_equal;

verus! {

/// The `worklog` command: worklog management.
pub struct LogCommand;

impl LogCommand {
    /// The name the command is invoked by.
    pub fn name(&self) -> (n: &'static str)
        ensures
            n@ == "worklog"@,
    {
        "worklog"
    }
}

/// The `list` command: list worklogs.
pub struct LogListCommand;

impl LogListCommand {
    /// The name the command is invoked by.
    pub fn name(&self) -> (n: &'static str)
        ensures
            n@ == "list"@,
    {
        "list"
    }
}

/// The `cleanup` command: remove duplicate local worklogs that already exist in Jira.
pub struct LogCleanupCommand;

impl LogCleanupCommand {
    /// The name the command is invoked by.
    pub fn name(&self) -> (n: &'static str)
        ensures
            n@ == "cleanup"@,
    {
        "cleanup"
    }
}

} // verus!

verus! {

/// The subcommands of `worklog`.
#[derive(Debug, Clone, Copy, PartialEq, Eq, Structural)]
pub enum WorklogSubcommand {
    Reset,
    Add,
    Remove,
    Push,
    List,
    Revert,
    History,
    Cleanup,
}

impl LogCommand {
    /// Which subcommand a name selects; any other name, or none, lists.
    pub fn subcommand(name: &str) -> (s: WorklogSubcommand)
        ensures
            s == (if name@ == "reset"@ { WorklogSubcommand::Reset } else if name@ == "add"@ { WorklogSubcommand::Add } else if name@ == "rm"@ { WorklogSubcommand::Remove } else if name@ == "push"@ { WorklogSubcommand::Push } else if name@ == "list"@ { WorklogSubcommand::List } else if name@ == "revert"@ { WorklogSubcommand::Revert } else if name@ == "history"@ { WorklogSubcommand::History } else if name@ == "cleanup"@ { WorklogSubcommand::Cleanup } else { WorklogSubcommand::List }),
    {
        if str_equal(name, "reset") {
            WorklogSubcommand::Reset
        } else if str_equal(name, "add") {
            WorklogSubcommand::Add
        } else if str_equal(name, "rm") {
            WorklogSubcommand::Remove
        } else if str_equal(name, "push") {
            WorklogSubcommand::Push
        } else if str_equal(name, "list") {
            WorklogSubcommand::List
        } else if str_equal(name, "revert") {
            WorklogSubcommand::Revert
        } else if str_equal(name, "history") {
            WorklogSubcommand::History
        } else if str_equal(name, "cleanup") {
            WorklogSubcommand::Cleanup
        } else {
            WorklogSubcommand::List
        }
    }
}

} // verus!
