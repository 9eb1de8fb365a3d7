use vstd::prelude::*;
use crate::text::str_equal;

verus! {

/// The `meeting` command: meeting tool.
pub struct MeetingCommand;

impl MeetingCommand {
    /// The name the command is invoked by.
    pub fn name(&self) -> (n: &'static str)
        ensures
            n@ == "meeting"@,
    {
        "meeting"
    }
}

/// The `log` command: log time for meetings.
pub struct LogMeetingCommand;

impl LogMeetingCommand {
    /// The name the command is invoked by.
    pub fn name(&self) -> (n: &'static str)
        ensures
            n@ == "log"@,
    {
        "log"
    }
}

/// The `list` command: list meetings.
pub struct ListMeetingCommand;

impl ListMeetingCommand {
    /// The name the command is invoked by.
    pub fn name(&self) -> (n: &'static str)
        ensures
            n@ == "list"@,
    {
        "list"
    }
}

/// The `link` command: link meetings to jira issues.
pub struct LinkGoogleMeetingsCommand;

impl LinkGoogleMeetingsCommand {
    /// The name the command is invoked by.
    pub fn name(&self) -> (n: &'static str)
        ensures
            n@ == "link"@,
    {
        "link"
    }
}

/// The `clear` command: clear all meetings from database (use when migrating schema).
pub struct ClearMeetingsCommand;

impl ClearMeetingsCommand {
    /// The name the command is invoked by.
    pub fn name(&self) -> (n: &'static str)
        ensures
            n@ == "clear"@,
    {
        "clear"
    }
}

} // verus!

verus! {

/// The subcommands of `meeting`.
#[derive(Debug, Clone, Copy, PartialEq, Eq, Structural)]
pub enum MeetingSubcommand {
    List,
    Link,
    Log,
    Clear,
}

impl MeetingCommand {
    /// Which subcommand a name selects; nothing for an invalid one.
    pub fn subcommand(name: &str) -> (s: Option<MeetingSubcommand>)
        ensures
            s == (if name@ == "list"@ { Some(MeetingSubcommand::List) } else if name@ == "link"@ { Some(MeetingSubcommand::Link) } else if name@ == "log"@ { Some(MeetingSubcommand::Log) } else if name@ == "clear"@ { Some(MeetingSubcommand::Clear) } else { None }),
    {
        if str_equal(name, "list") {
            Some(MeetingSubcommand::List)
        } else if str_equal(name, "link") {
            Some(MeetingSubcommand::Link)
        } else if str_equal(name, "log") {
            Some(MeetingSubcommand::Log)
        } else if str_equal(name, "clear") {
            Some(MeetingSubcommand::Clear)
        } else {
            None
        }
    }
}

} // verus!
