use vstd::prelude::*;
use crate::text::str_equal;

verus! {

/// The `issue` command: manage issues.
pub struct IssueCommand;

impl IssueCommand {
    /// The name the command is invoked by.
    pub fn name(&self) -> (n: &'static str)
        ensures
            n@ == "issue"@,
    {
        "issue"
    }
}

} // verus!

verus! {

/// The subcommands of `issue`.
#[derive(Debug, Clone, Copy, PartialEq, Eq, Structural)]
pub enum IssueSubcommand {
    Fetch,
    List,
    LogTime,
}

impl IssueCommand {
    /// Which subcommand a name selects; nothing for an invalid one.
    pub fn subcommand(name: &str) -> (s: Option<IssueSubcommand>)
        ensures
            s == (if name@ == "fetch"@ { Some(IssueSubcommand::Fetch) } else if name@ == "list"@ { Some(IssueSubcommand::List) } else if name@ == "log-time"@ { Some(IssueSubcommand::LogTime) } else { None }),
    {
        if str_equal(name, "fetch") {
            Some(IssueSubcommand::Fetch)
        } else if str_equal(name, "list") {
            Some(IssueSubcommand::List)
        } else if str_equal(name, "log-time") {
            Some(IssueSubcommand::LogTime)
        } else {
            None
        }
    }
}

} // verus!
