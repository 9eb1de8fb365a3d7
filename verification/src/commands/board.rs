use vstd::prelude::*;
use crate::text::str_equal;

verus! {

/// The `board` command: manage boards.
pub struct BoardCommand;

impl BoardCommand {
    /// The name the command is invoked by.
    pub fn name(&self) -> (n: &'static str)
        ensures
            n@ == "board"@,
    {
        "board"
    }
}

/// The `list` command: list boards.
pub struct BoardListCommand;

impl BoardListCommand {
    /// The name the command is invoked by.
    pub fn name(&self) -> (n: &'static str)
        ensures
            n@ == "list"@,
    {
        "list"
    }
}

} // verus!

verus! {

/// The subcommands of `board`.
#[derive(Debug, Clone, Copy, PartialEq, Eq, Structural)]
pub enum BoardSubcommand {
    List,
    Fetch,
    Add,
    Remove,
}

impl BoardCommand {
    /// Which subcommand a name selects; nothing for an invalid one.
    pub fn subcommand(name: &str) -> (s: Option<BoardSubcommand>)
        ensures
            s == (if name@ == "list"@ { Some(BoardSubcommand::List) } else if name@ == "fetch"@ { Some(BoardSubcommand::Fetch) } else if name@ == "add"@ { Some(BoardSubcommand::Add) } else if name@ == "rm"@ { Some(BoardSubcommand::Remove) } else { None }),
    {
        if str_equal(name, "list") {
            Some(BoardSubcommand::List)
        } else if str_equal(name, "fetch") {
            Some(BoardSubcommand::Fetch)
        } else if str_equal(name, "add") {
            Some(BoardSubcommand::Add)
        } else if str_equal(name, "rm") {
            Some(BoardSubcommand::Remove)
        } else {
            None
        }
    }
}

} // verus!
