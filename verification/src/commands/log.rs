use vstd::prelude::*;

verus! {

/// The `log` command: logging.
pub struct LogCommand;

impl LogCommand {
    /// The name the command is invoked by.
    pub fn name(&self) -> (n: &'static str)
        ensures
            n@ == "log"@,
    {
        "log"
    }
}

} // verus!
