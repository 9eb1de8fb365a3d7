use vstd::prelude::*;
use crate::text::str_equal;

verus! {

/// The `sprint` command: sprint board.
pub struct SprintCommand;

impl SprintCommand {
    /// The name the command is invoked by.
    pub fn name(&self) -> (n: &'static str)
        ensures
            n@ == "sprint"@,
    {
        "sprint"
    }
}

} // verus!

verus! {

/// The subcommands of `sprint`.
#[derive(Debug, Clone, Copy, PartialEq, Eq, Structural)]
pub enum SprintSubcommand {
    List,
    Fetch,
    Add,
    Remove,
    Status,
    ClearWorklogs,
}

impl SprintCommand {
    /// Which subcommand a name selects; nothing for an invalid one.
    pub fn subcommand(name: &str) -> (s: Option<SprintSubcommand>)
        ensures
            s == (if name@ == "list"@ { Some(SprintSubcommand::List) } else if name@ == "fetch"@ { Some(SprintSubcommand::Fetch) } else if name@ == "add"@ { Some(SprintSubcommand::Add) } else if name@ == "rm"@ { Some(SprintSubcommand::Remove) } else if name@ == "status"@ { Some(SprintSubcommand::Status) } else if name@ == "clear-worklogs"@ { Some(SprintSubcommand::ClearWorklogs) } else { None }),
    {
        if str_equal(name, "list") {
            Some(SprintSubcommand::List)
        } else if str_equal(name, "fetch") {
            Some(SprintSubcommand::Fetch)
        } else if str_equal(name, "add") {
            Some(SprintSubcommand::Add)
        } else if str_equal(name, "rm") {
            Some(SprintSubcommand::Remove)
        } else if str_equal(name, "status") {
            Some(SprintSubcommand::Status)
        } else if str_equal(name, "clear-worklogs") {
            Some(SprintSubcommand::ClearWorklogs)
        } else {
            None
        }
    }
}

} // verus!
