use vstd::prelude::*;
use crate::keys::{Key, handle_list_navigation, is_navigation_key, spec_navigate};
use crate::text::{chars_of, contains_seq, contains_str, lowercase_str, str_lowercase, string_from_chars};

verus! {

/// What a key on the GitHub tab asks of the caller.
#[derive(Debug, Clone, Copy, PartialEq, Eq, Structural)]
pub enum GitHubTabAction {
    Nothing,
    /// Sync GitHub activity.
    Sync,
    /// Create a worklog from the selected session.
    CreateWorklog,
}

/// The GitHub tab's response to `key` with `count` sessions listed: the new
/// selection (first brought back within the list) and what to do.
pub open spec fn spec_github_tab_key(count: int, selected: usize, key: Key) -> (usize, GitHubTabAction) {
    if key == Key::Char('u') || key == Key::Char('U') {
        (selected, GitHubTabAction::Sync)
    } else if key == Key::Char('c') || key == Key::Char('C') {
        (selected, if count > 0 { GitHubTabAction::CreateWorklog } else { GitHubTabAction::Nothing })
    } else if count <= 0 {
        (selected, GitHubTabAction::Nothing)
    } else {
        let max_index = (count - 1) as usize;
        let s = if selected > max_index { max_index } else { selected };
        if is_navigation_key(key) {
            (spec_navigate(key, s, max_index), GitHubTabAction::Nothing)
        } else if key == Key::PageUp {
            (if s >= 10 { (s - 10) as usize } else { 0 }, GitHubTabAction::Nothing)
        } else if key == Key::PageDown {
            (if s + 10 < max_index { (s + 10) as usize } else { max_index }, GitHubTabAction::Nothing)
        } else {
            (s, GitHubTabAction::Nothing)
        }
    }
}

/// Handles a key on the GitHub tab, which lists `count` sessions.
pub fn github_tab_key(count: usize, selected: &mut usize, key: Key) -> (action: GitHubTabAction)
    ensures
        (*final(selected), action) == spec_github_tab_key(count as int, *old(selected), key),
{
    match key {
        Key::Char('u') | Key::Char('U') => {
            return GitHubTabAction::Sync;
        },
        Key::Char('c') | Key::Char('C') => {
            return if count > 0 { GitHubTabAction::CreateWorklog } else { GitHubTabAction::Nothing };
        },
        _ => {},
    }
    if count == 0 {
        return GitHubTabAction::Nothing;
    }
    let max_index = count - 1;
    if *selected > max_index {
        *selected = max_index;
    }
    if handle_list_navigation(key, selected, max_index) {
        return GitHubTabAction::Nothing;
    }
    match key {
        Key::PageUp => {
            *selected = selected.saturating_sub(10);
        },
        Key::PageDown => {
            *selected = if *selected < max_index && max_index - *selected > 10 { *selected + 10 } else { max_index };
        },
        _ => {},
    }
    GitHubTabAction::Nothing
}

/// A meeting as the Meetings tab lists it.
#[derive(Debug, Clone)]
pub struct MeetingRow {
    pub id: String,
    /// Start, in seconds since the Unix epoch.
    pub start: i64,
    pub title: Option<String>,
    pub jira_link: Option<String>,
    /// The user declined the invitation.
    pub declined: bool,
    /// The meeting is marked untracked (by id or by a configured title).
    pub untracked: bool,
}

/// The optional text contains the lowercased search (compared lowercased).
pub open spec fn opt_contains(text: Option<String>, lower_query: Seq<char>) -> bool {
    match text {
        Some(t) => contains_seq(str_lowercase(t@), lower_query),
        None => false,
    }
}

/// A meeting is listed when it passes the "unlinked only" filter (unlinked,
/// not declined, not untracked) if that is on, and its title or linked issue
/// contains the search, ignoring case, if there is one.
pub open spec fn meeting_visible(m: MeetingRow, filter_unlinked_only: bool, query: Seq<char>) -> bool {
    let lq = str_lowercase(query);
    &&& (filter_unlinked_only ==> m.jira_link is None && !m.declined && !m.untracked)
    &&& (lq.len() > 0 ==> opt_contains(m.title, lq) || opt_contains(m.jira_link, lq))
}

/// Meeting `a` is listed before meeting `b`: it starts later, or at the same
/// instant and comes first.
pub open spec fn meeting_before(meetings: Seq<MeetingRow>, a: usize, b: usize) -> bool {
    meetings[a as int].start > meetings[b as int].start || (meetings[a as int].start == meetings[b as int].start
        && a < b)
}

/// The first position of `s` from `p` on whose meeting starts before
/// `start`, or the end of `s`.
pub open spec fn first_earlier(meetings: Seq<MeetingRow>, s: Seq<usize>, start: i64, p: int) -> int
    decreases s.len() - p,
{
    if p < 0 || p >= s.len() {
        s.len() as int
    } else if meetings[s[p] as int].start < start {
        p
    } else {
        first_earlier(meetings, s, start, p + 1)
    }
}

/// The listing of the first `n` meetings: each visible meeting inserted
/// before the first listed one that starts earlier (a stable sort, latest
/// start first).
pub open spec fn meeting_listing(meetings: Seq<MeetingRow>, filter_unlinked_only: bool, query: Seq<char>, n: int) -> Seq<usize>
    decreases n,
{
    if n <= 0 {
        Seq::empty()
    } else {
        let prev = meeting_listing(meetings, filter_unlinked_only, query, n - 1);
        if meeting_visible(meetings[n - 1], filter_unlinked_only, query) {
            prev.insert(first_earlier(meetings, prev, meetings[n - 1].start, 0), (n - 1) as usize)
        } else {
            prev
        }
    }
}

/// Whether the optional text contains the lowercased search.
fn opt_contains_exec(text: &Option<String>, lower_query: &str) -> (b: bool)
    ensures
        b == opt_contains(*text, lower_query@),
{
    match text {
        Some(t) => contains_str(lowercase_str(t.as_str()).as_str(), lower_query),
        None => false,
    }
}

/// The meetings the tab lists, by index: the visible ones, latest first.
#[verifier::spinoff_prover]
#[verifier::rlimit(40)]
pub fn visible_meetings(meetings: &[MeetingRow], filter_unlinked_only: bool, query: &str) -> (shown: Vec<usize>)
    ensures
        shown@ == meeting_listing(meetings@, filter_unlinked_only, query@, meetings@.len() as int),
        forall|k: int|
            0 <= k < shown@.len() ==> (#[trigger] shown@[k]) < meetings@.len() && meeting_visible(
                meetings@[shown@[k] as int],
                filter_unlinked_only,
                query@,
            ),
        forall|i: int|
            0 <= i < meetings@.len() && meeting_visible(#[trigger] meetings@[i], filter_unlinked_only, query@)
                ==> exists|k: int| 0 <= k < shown@.len() && shown@[k] == i,
        forall|a: int, b: int|
            0 <= a < b < shown@.len() ==> meeting_before(meetings@, #[trigger] shown@[a], #[trigger] shown@[b]),
{
    let lq = lowercase_str(query);
    let mut shown: Vec<usize> = Vec::new();
    let mut i: usize = 0;
    while i < meetings.len()
        invariant
            i <= meetings@.len(),
            lq@ == str_lowercase(query@),
            shown@ == meeting_listing(meetings@, filter_unlinked_only, query@, i as int),
            forall|k: int|
                0 <= k < shown@.len() ==> (#[trigger] shown@[k]) < i && meeting_visible(
                    meetings@[shown@[k] as int],
                    filter_unlinked_only,
                    query@,
                ),
            forall|j: int|
                0 <= j < i && meeting_visible(#[trigger] meetings@[j], filter_unlinked_only, query@) ==> exists|k: int|
                    0 <= k < shown@.len() && shown@[k] == j,
            forall|a: int, b: int|
                0 <= a < b < shown@.len() ==> meeting_before(meetings@, #[trigger] shown@[a], #[trigger] shown@[b]),
        decreases meetings@.len() - i,
    {
        let m = &meetings[i];
        let passes_filter = !filter_unlinked_only || (m.jira_link.is_none() && !m.declined && !m.untracked);
        let passes_query = lq.as_str().is_empty() || opt_contains_exec(&m.title, lq.as_str()) || opt_contains_exec(
            &m.jira_link,
            lq.as_str(),
        );
        if passes_filter && passes_query {
            let start = m.start;
            let mut p: usize = 0;
            while p < shown.len() && meetings[shown[p]].start >= start
                invariant
                    p <= shown@.len(),
                    i < meetings@.len(),
                    start == meetings@[i as int].start,
                    forall|k: int| 0 <= k < shown@.len() ==> (#[trigger] shown@[k]) < i,
                    forall|k: int| 0 <= k < p ==> meetings@[(#[trigger] shown@[k]) as int].start >= start,
                    first_earlier(meetings@, shown@, start, 0) == first_earlier(meetings@, shown@, start, p as int),
                decreases shown@.len() - p,
            {
                p = p + 1;
            }
            let ghost before = shown@;
            assert(first_earlier(meetings@, before, start, 0) == p);
            shown.insert(p, i);
            proof {
                assert(shown@ == before.insert(p as int, i));
                assert(shown@ == meeting_listing(meetings@, filter_unlinked_only, query@, i + 1));
                assert forall|a: int, b: int| 0 <= a < b < shown@.len() implies meeting_before(
                    meetings@,
                    #[trigger] shown@[a],
                    #[trigger] shown@[b],
                ) by {
                    if b < p {
                        assert(shown@[a] == before[a] && shown@[b] == before[b]);
                    } else if b == p {
                        assert(shown@[a] == before[a]);
                    } else if a < p {
                        assert(shown@[a] == before[a] && shown@[b] == before[b - 1]);
                        if b - 1 > p {
                            assert(meeting_before(meetings@, before[p as int], before[b - 1]));
                        }
                    } else if a == p {
                        assert(shown@[b] == before[b - 1]);
                        if b - 1 > p {
                            assert(meeting_before(meetings@, before[p as int], before[b - 1]));
                        }
                    } else {
                        assert(shown@[a] == before[a - 1] && shown@[b] == before[b - 1]);
                    }
                }
                assert forall|j: int|
                    0 <= j <= i && meeting_visible(#[trigger] meetings@[j], filter_unlinked_only, query@) implies exists|k: int|
                    0 <= k < shown@.len() && shown@[k] == j by {
                    if j == i {
                        assert(shown@[p as int] == j);
                    } else {
                        let k = choose|k: int| 0 <= k < before.len() && before[k] == j;
                        if k < p {
                            assert(shown@[k] == j);
                        } else {
                            assert(shown@[k + 1] == j);
                        }
                    }
                }
            }
        }
        i = i + 1;
    }
    shown
}

/// What a key on the Meetings tab asks of the caller.
#[derive(Debug, Clone, Copy, PartialEq, Eq, Structural)]
pub enum MeetingsTabAction {
    Nothing,
    Refresh,
    CheckUpdate,
    AutoLink,
    /// Log worklogs for the linked meetings.
    LogMeetings,
    /// Ask whether to unlink this meeting (by index).
    ConfirmUnlink(usize),
    /// Toggle whether this meeting is tracked.
    ToggleUntracked(usize),
    /// Open the issue picker to link this meeting.
    Link(usize),
}

/// The search text after a backspace.
pub open spec fn drop_last_char(q: Seq<char>) -> Seq<char> {
    if q.len() > 0 { q.drop_last() } else { q }
}

/// The Meetings tab's response to `key`, given the listed meetings `shown`
/// (by index) and the UI state `(selected, searching, search text,
/// unlinked only)`: the new UI state and what to do. While searching, every
/// key edits the search; otherwise keys navigate, filter and act on the
/// selected meeting.
pub open spec fn spec_meetings_tab_key(
    meetings: Seq<MeetingRow>,
    shown: Seq<usize>,
    v: (usize, bool, Seq<char>, bool),
    key: Key,
) -> ((usize, bool, Seq<char>, bool), MeetingsTabAction) {
    let (selected, searching, query, unlinked_only) = v;
    let max_index = if shown.len() > 0 { (shown.len() - 1) as usize } else { 0usize };
    let current: Option<usize> = if selected < shown.len() { Some(shown[selected as int]) } else { None };
    if searching {
        match key {
            Key::Esc => ((0, false, Seq::empty(), unlinked_only), MeetingsTabAction::Nothing),
            Key::Enter => ((selected, false, query, unlinked_only), MeetingsTabAction::Nothing),
            Key::Backspace => ((0, true, drop_last_char(query), unlinked_only), MeetingsTabAction::Nothing),
            Key::Char(c) => ((0, true, query.push(c), unlinked_only), MeetingsTabAction::Nothing),
            _ => (v, MeetingsTabAction::Nothing),
        }
    } else if is_navigation_key(key) {
        ((spec_navigate(key, selected, max_index), searching, query, unlinked_only), MeetingsTabAction::Nothing)
    } else {
        match key {
            Key::Char('/') => ((selected, true, query, unlinked_only), MeetingsTabAction::Nothing),
            Key::Esc => if query.len() > 0 {
                ((0, searching, Seq::empty(), unlinked_only), MeetingsTabAction::Nothing)
            } else {
                (v, MeetingsTabAction::Nothing)
            },
            Key::Char('r') | Key::Char('R') => (v, MeetingsTabAction::Refresh),
            Key::Char('u') | Key::Char('U') => (v, MeetingsTabAction::CheckUpdate),
            Key::Char('a') | Key::Char('A') => (v, MeetingsTabAction::AutoLink),
            Key::Char('l') | Key::Char('L') => (v, MeetingsTabAction::LogMeetings),
            Key::Char('f') | Key::Char('F') => ((0, searching, query, !unlinked_only), MeetingsTabAction::Nothing),
            Key::Delete | Key::Backspace => match current {
                Some(m) => if meetings[m as int].jira_link is Some {
                    (v, MeetingsTabAction::ConfirmUnlink(m))
                } else {
                    (v, MeetingsTabAction::Nothing)
                },
                None => (v, MeetingsTabAction::Nothing),
            },
            Key::Char('x') | Key::Char('X') => match current {
                Some(m) => (v, MeetingsTabAction::ToggleUntracked(m)),
                None => (v, MeetingsTabAction::Nothing),
            },
            Key::Enter => match current {
                Some(m) => (v, MeetingsTabAction::Link(m)),
                None => (v, MeetingsTabAction::Nothing),
            },
            Key::PageUp => ((if selected >= 10 { (selected - 10) as usize } else { 0 }, searching, query, unlinked_only), MeetingsTabAction::Nothing),
            Key::PageDown => ((if selected + 10 < max_index { (selected + 10) as usize } else { max_index }, searching, query, unlinked_only), MeetingsTabAction::Nothing),
            _ => (v, MeetingsTabAction::Nothing),
        }
    }
}

/// The search text after typing `c`.
fn push_char(s: &mut String, c: char)
    ensures
        final(s)@ == old(s)@.push(c),
{
    let mut chars = chars_of(s.as_str());
    chars.push(c);
    *s = string_from_chars(chars.as_slice());
}

/// Removes the last character of the search text.
fn pop_char(s: &mut String)
    ensures
        final(s)@ == drop_last_char(old(s)@),
{
    let mut chars = chars_of(s.as_str());
    if chars.len() > 0 {
        chars.pop();
        *s = string_from_chars(chars.as_slice());
    }
}

/// Handles a key on the Meetings tab.
pub fn meetings_tab_key(
    meetings: &[MeetingRow],
    selected: &mut usize,
    search_active: &mut bool,
    query: &mut String,
    filter_unlinked_only: &mut bool,
    key: Key,
) -> (action: MeetingsTabAction)
    requires
        key == Key::PageDown ==> *old(selected) + 10 <= usize::MAX,
    ensures
        spec_meetings_tab_key(
            meetings@,
            meeting_listing(meetings@, *old(filter_unlinked_only), old(query)@, meetings@.len() as int),
            (*old(selected), *old(search_active), old(query)@, *old(filter_unlinked_only)),
            key,
        ) == ((*final(selected), *final(search_active), final(query)@, *final(filter_unlinked_only)), action),
{
    if *search_active {
        match key {
            Key::Esc => {
                *search_active = false;
                *query = String::new();
                *selected = 0;
            },
            Key::Enter => {
                *search_active = false;
            },
            Key::Backspace => {
                pop_char(query);
                *selected = 0;
            },
            Key::Char(c) => {
                push_char(query, c);
                *selected = 0;
            },
            _ => {},
        }
        return MeetingsTabAction::Nothing;
    }
    let shown = visible_meetings(meetings, *filter_unlinked_only, query.as_str());
    let max_index = if shown.len() > 0 { shown.len() - 1 } else { 0 };
    if handle_list_navigation(key, selected, max_index) {
        return MeetingsTabAction::Nothing;
    }
    let current: Option<usize> = if *selected < shown.len() { Some(shown[*selected]) } else { None };
    match key {
        Key::Char('/') => {
            *search_active = true;
            MeetingsTabAction::Nothing
        },
        Key::Esc => {
            if !query.as_str().is_empty() {
                *query = String::new();
                *selected = 0;
            }
            MeetingsTabAction::Nothing
        },
        Key::Char('r') | Key::Char('R') => MeetingsTabAction::Refresh,
        Key::Char('u') | Key::Char('U') => MeetingsTabAction::CheckUpdate,
        Key::Char('a') | Key::Char('A') => MeetingsTabAction::AutoLink,
        Key::Char('l') | Key::Char('L') => MeetingsTabAction::LogMeetings,
        Key::Char('f') | Key::Char('F') => {
            *filter_unlinked_only = !*filter_unlinked_only;
            *selected = 0;
            MeetingsTabAction::Nothing
        },
        Key::Delete | Key::Backspace => match current {
            Some(m) => {
                if meetings[m].jira_link.is_some() {
                    MeetingsTabAction::ConfirmUnlink(m)
                } else {
                    MeetingsTabAction::Nothing
                }
            },
            None => MeetingsTabAction::Nothing,
        },
        Key::Char('x') | Key::Char('X') => match current {
            Some(m) => MeetingsTabAction::ToggleUntracked(m),
            None => MeetingsTabAction::Nothing,
        },
        Key::Enter => match current {
            Some(m) => MeetingsTabAction::Link(m),
            None => MeetingsTabAction::Nothing,
        },
        Key::PageUp => {
            *selected = selected.saturating_sub(10);
            MeetingsTabAction::Nothing
        },
        Key::PageDown => {
            let further = *selected + 10;
            *selected = if further < max_index { further } else { max_index };
            MeetingsTabAction::Nothing
        },
        _ => MeetingsTabAction::Nothing,
    }
}

/// Opening the Meetings search with `/`, typing, and leaving with Escape
/// restores the unsearched list: search off, search text empty, first meeting selected.
pub proof fn law_search_escape_restores(meetings: Seq<MeetingRow>, shown: Seq<usize>, selected: usize, unlinked_only: bool, c: char)
    ensures
        ({
            let (v1, a1) = spec_meetings_tab_key(meetings, shown, (selected, false, Seq::empty(), unlinked_only), Key::Char('/'));
            let (v2, a2) = spec_meetings_tab_key(meetings, shown, v1, Key::Char(c));
            let (v3, a3) = spec_meetings_tab_key(meetings, shown, v2, Key::Esc);
            &&& v1.1
            &&& v2.2 == seq![c]
            &&& v3 == (0usize, false, Seq::<char>::empty(), unlinked_only)
            &&& a1 == MeetingsTabAction::Nothing && a2 == MeetingsTabAction::Nothing && a3 == MeetingsTabAction::Nothing
        }),
{
    assert(Seq::<char>::empty().push(c) == seq![c]);
}

} // verus!
