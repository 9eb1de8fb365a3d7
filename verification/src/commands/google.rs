use vstd::prelude::*;
use crate::text::str_equal;

verus! {

/// The `google` command: manage google events.
pub struct GoogleCommand;

impl GoogleCommand {
    /// The name the command is invoked by.
    pub fn name(&self) -> (n: &'static str)
        ensures
            n@ == "google"@,
    {
        "google"
    }
}

} // verus!

verus! {

/// The subcommands of `google`.
#[derive(Debug, Clone, Copy, PartialEq, Eq, Structural)]
pub enum GoogleSubcommand {
    Fetch,
}

impl GoogleCommand {
    /// Which subcommand a name selects; nothing for an invalid one.
    pub fn subcommand(name: &str) -> (s: Option<GoogleSubcommand>)
        ensures
            s == (if name@ == "fetch"@ { Some(GoogleSubcommand::Fetch) } else { None }),
    {
        if str_equal(name, "fetch") {
            Some(GoogleSubcommand::Fetch)
        } else {
            None
        }
    }
}

} // verus!
