use vstd::prelude::*;
use crate::text::str_equal;

verus! {

/// The `config` command: manage configuration.
pub struct ConfigCommand;

impl ConfigCommand {
    /// The name the command is invoked by.
    pub fn name(&self) -> (n: &'static str)
        ensures
            n@ == "config"@,
    {
        "config"
    }
}

/// The `list` command: list available configurations.
pub struct ConfigListCommand;

impl ConfigListCommand {
    /// The name the command is invoked by.
    pub fn name(&self) -> (n: &'static str)
        ensures
            n@ == "list"@,
    {
        "list"
    }
}

} // verus!

verus! {

/// The subcommands of `config`.
#[derive(Debug, Clone, Copy, PartialEq, Eq, Structural)]
pub enum ConfigSubcommand {
    List,
}

impl ConfigCommand {
    /// Which subcommand a name selects; nothing for an invalid one.
    pub fn subcommand(name: &str) -> (s: Option<ConfigSubcommand>)
        ensures
            s == (if name@ == "list"@ { Some(ConfigSubcommand::List) } else { None }),
    {
        if str_equal(name, "list") {
            Some(ConfigSubcommand::List)
        } else {
            None
        }
    }
}

} // verus!
