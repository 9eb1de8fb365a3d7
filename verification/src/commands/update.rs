use vstd::prelude::*;
use crate::text::{chars_of, str_equal, string_from_chars, trim_leading, trim_start_char};

verus! {

/// The `update` command: update wtf to the latest version.
pub struct UpdateCommand;

impl UpdateCommand {
    /// The name the command is invoked by.
    pub fn name(&self) -> (n: &'static str)
        ensures
            n@ == "update"@,
    {
        "update"
    }
}

} // verus!

verus! {

/// What an update installs.
#[derive(Debug, PartialEq, Eq)]
pub enum UpdateTarget {
    /// `-v` without a value: let the user pick a version.
    Pick,
    /// `-v <version>`: install that release tag.
    Version(String),
    /// No `-v`: install the latest release, if newer.
    Latest,
}

/// The release tag of a version: as given when it starts with `v`, else with `v` prepended.
pub open spec fn spec_version_tag(v: Seq<char>) -> Seq<char> {
    if v.len() > 0 && v[0] == 'v' { v } else { seq!['v'] + v }
}

impl UpdateCommand {
    /// The release tag for a version given on the command line.
    pub fn version_tag(v: &str) -> (tag: String)
        ensures
            tag@ == spec_version_tag(v@),
    {
        let chars = chars_of(v);
        if chars.len() > 0 && chars[0] == 'v' {
            string_from_chars(chars.as_slice())
        } else {
            let mut out: Vec<char> = Vec::new();
            out.push('v');
            out.extend_from_slice(chars.as_slice());
            assert(out@ =~= seq!['v'] + v@);
            string_from_chars(out.as_slice())
        }
    }

    /// What to install for the value of `--version`.
    pub fn target(version: Option<&str>) -> (t: UpdateTarget)
        ensures
            match version {
                None => t == UpdateTarget::Latest,
                Some(v) => if v@.len() == 0 { t == UpdateTarget::Pick } else {
                    t matches UpdateTarget::Version(tag) && tag@ == spec_version_tag(v@)
                },
            },
    {
        match version {
            None => UpdateTarget::Latest,
            Some(v) => {
                let chars = chars_of(v);
                if chars.len() == 0 {
                    UpdateTarget::Pick
                } else {
                    UpdateTarget::Version(UpdateCommand::version_tag(v))
                }
            },
        }
    }

    /// Whether a listed release is the running version: its tag without leading `v`s equals it.
    pub fn is_current(tag: &str, current: &str) -> (b: bool)
        ensures
            b == (trim_leading(tag@, 'v') == current@),
    {
        let t = trim_start_char(tag, 'v');
        str_equal(t.as_str(), current)
    }
}

} // verus!
