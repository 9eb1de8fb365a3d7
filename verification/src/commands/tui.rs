use vstd::prelude::*;

verus! {

/// The `tui` command: launch interactive TUI.
pub struct TuiCommand;

impl TuiCommand {
    /// The name the command is invoked by.
    pub fn name(&self) -> (n: &'static str)
        ensures
            n@ == "tui"@,
    {
        "tui"
    }
}

} // verus!
