use vstd::prelude::*;
use crate::text::str_equal;

verus! {

/// The `github` command: manage GitHub events and create worklogs from development activity.
pub struct GitHubCommand;

impl GitHubCommand {
    /// The name the command is invoked by.
    pub fn name(&self) -> (n: &'static str)
        ensures
            n@ == "github"@,
    {
        "github"
    }
}

} // verus!

verus! {

/// The subcommands of `github`.
#[derive(Debug, Clone, Copy, PartialEq, Eq, Structural)]
pub enum GitHubSubcommand {
    Fetch,
    Log,
    Sessions,
    Events,
}

impl GitHubCommand {
    /// Which subcommand a name selects; nothing for an invalid one.
    pub fn subcommand(name: &str) -> (s: Option<GitHubSubcommand>)
        ensures
            s == (if name@ == "fetch"@ { Some(GitHubSubcommand::Fetch) } else if name@ == "log"@ { Some(GitHubSubcommand::Log) } else if name@ == "sessions"@ { Some(GitHubSubcommand::Sessions) } else if name@ == "events"@ { Some(GitHubSubcommand::Events) } else { None }),
    {
        if str_equal(name, "fetch") {
            Some(GitHubSubcommand::Fetch)
        } else if str_equal(name, "log") {
            Some(GitHubSubcommand::Log)
        } else if str_equal(name, "sessions") {
            Some(GitHubSubcommand::Sessions)
        } else if str_equal(name, "events") {
            Some(GitHubSubcommand::Events)
        } else {
            None
        }
    }
}

} // verus!
