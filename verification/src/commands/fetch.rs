use vstd::prelude::*;
use crate::text::{lowercase_str, str_equal, str_lowercase};

verus! {

/// The `fetch` command: fetches and updates the wtf database.
pub struct FetchCommand;

impl FetchCommand {
    /// The name the command is invoked by.
    pub fn name(&self) -> (n: &'static str)
        ensures
            n@ == "fetch"@,
    {
        "fetch"
    }
}

/// What `fetch` can fetch.
#[derive(Debug, Clone, Copy, PartialEq, Eq, Structural)]
pub enum FetchType {
    All,
    Board,
    Issue,
    Sprint,
    Worklog,
    GoogleMeetings,
}

/// The fetch type a lowercased name selects.
pub open spec fn spec_fetch_type(lower: Seq<char>) -> Option<FetchType> {
    if lower == "all"@ {
        Some(FetchType::All)
    } else if lower == "board"@ {
        Some(FetchType::Board)
    } else if lower == "issue"@ {
        Some(FetchType::Issue)
    } else if lower == "sprint"@ {
        Some(FetchType::Sprint)
    } else if lower == "worklog"@ {
        Some(FetchType::Worklog)
    } else if lower == "google"@ {
        Some(FetchType::GoogleMeetings)
    } else {
        None
    }
}

impl FetchType {
    /// The fetch type named by an already lowercased name.
    pub fn from_lowercase(lower: &str) -> (t: Option<FetchType>)
        ensures
            t == spec_fetch_type(lower@),
    {
        if str_equal(lower, "all") {
            Some(FetchType::All)
        } else if str_equal(lower, "board") {
            Some(FetchType::Board)
        } else if str_equal(lower, "issue") {
            Some(FetchType::Issue)
        } else if str_equal(lower, "sprint") {
            Some(FetchType::Sprint)
        } else if str_equal(lower, "worklog") {
            Some(FetchType::Worklog)
        } else if str_equal(lower, "google") {
            Some(FetchType::GoogleMeetings)
        } else {
            None
        }
    }

    /// Parses a fetch type, ignoring case; an unknown one gives `Unknown fetch type: <name>`.
    pub fn from_str(s: &str) -> (r: Result<FetchType, String>)
        ensures
            match r {
                Ok(t) => spec_fetch_type(str_lowercase(s@)) == Some(t),
                Err(e) => spec_fetch_type(str_lowercase(s@)) is None && e@ == "Unknown fetch type: "@ + s@,
            },
    {
        broadcast use vstd::string::group_string_axioms;
        let lower = lowercase_str(s);
        match FetchType::from_lowercase(lower.as_str()) {
            Some(t) => Ok(t),
            None => {
                let mut e = "Unknown fetch type: ".to_string();
                e.append(s);
                Err(e)
            },
        }
    }
}

} // verus!
