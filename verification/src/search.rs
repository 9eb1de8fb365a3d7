use vstd::prelude::*;
use crate::calendar::{month_day_label, month_day_text};
use crate::keys::Key;
use crate::text::{
    chars_of, contains_seq, contains_str, decimal, lowercase_str, push_decimal, str_lowercase,
    str_uppercase, string_from_chars, uppercase_str,
};

verus! {

// The dashboard's searchable pickers: an issue to link a meeting to, an
// issue to fill a sprint's gaps with, and sprints to follow. Typing narrows
// the list (case-insensitively), the arrows move the selection.

/// A Jira issue as the pickers list it.
#[derive(Debug, Clone)]
pub struct IssueEntry {
    pub key: String,
    pub summary: String,
}

/// An issue matches a search when the search is empty, or its key or summary contains it, ignoring case.
pub open spec fn issue_matches(key: Seq<char>, summary: Seq<char>, query: Seq<char>) -> bool {
    query.len() == 0 || contains_seq(str_lowercase(key), str_lowercase(query)) || contains_seq(
        str_lowercase(summary),
        str_lowercase(query),
    )
}

/// The indices of the first `n` issues that match the search, in order.
pub open spec fn matching_issues(issues: Seq<IssueEntry>, query: Seq<char>, n: int) -> Seq<usize>
    decreases n,
{
    if n <= 0 {
        Seq::empty()
    } else {
        let rest = matching_issues(issues, query, n - 1);
        if issue_matches(issues[n - 1].key@, issues[n - 1].summary@, query) {
            rest.push((n - 1) as usize)
        } else {
            rest
        }
    }
}

/// The issues that match the search, by index.
pub fn filter_issues(issues: &[IssueEntry], query: &str) -> (found: Vec<usize>)
    ensures
        found@ == matching_issues(issues@, query@, issues@.len() as int),
{
    let lower_query = lowercase_str(query);
    let empty = query.is_empty();
    let mut found: Vec<usize> = Vec::new();
    let mut i: usize = 0;
    while i < issues.len()
        invariant
            i <= issues@.len(),
            lower_query@ == str_lowercase(query@),
            empty == (query@.len() == 0),
            found@ == matching_issues(issues@, query@, i as int),
        decreases issues@.len() - i,
    {
        let matches = empty || contains_str(lowercase_str(issues[i].key.as_str()).as_str(), lower_query.as_str())
            || contains_str(lowercase_str(issues[i].summary.as_str()).as_str(), lower_query.as_str());
        if matches {
            found.push(i);
        }
        i = i + 1;
    }
    found
}

/// A sprint as the follow picker lists it.
#[derive(Debug, Clone)]
pub struct SprintEntry {
    pub id: usize,
    pub name: String,
    pub followed: bool,
}

/// A sprint matches a search when the search is empty, or its name (ignoring
/// case) or its id written in decimal contains it.
pub open spec fn sprint_matches(name: Seq<char>, id: usize, query: Seq<char>) -> bool {
    query.len() == 0 || contains_seq(str_lowercase(name), str_lowercase(query)) || contains_seq(
        decimal(id as nat),
        str_lowercase(query),
    )
}

/// The indices of the first `n` sprints that match the search, in order.
pub open spec fn matching_sprints(sprints: Seq<SprintEntry>, query: Seq<char>, n: int) -> Seq<usize>
    decreases n,
{
    if n <= 0 {
        Seq::empty()
    } else {
        let rest = matching_sprints(sprints, query, n - 1);
        if sprint_matches(sprints[n - 1].name@, sprints[n - 1].id, query) {
            rest.push((n - 1) as usize)
        } else {
            rest
        }
    }
}

/// The sprints that match the search, by index.
pub fn filter_sprints(sprints: &[SprintEntry], query: &str) -> (found: Vec<usize>)
    ensures
        found@ == matching_sprints(sprints@, query@, sprints@.len() as int),
{
    let lower_query = lowercase_str(query);
    let empty = query.is_empty();
    let mut found: Vec<usize> = Vec::new();
    let mut i: usize = 0;
    while i < sprints.len()
        invariant
            i <= sprints@.len(),
            lower_query@ == str_lowercase(query@),
            empty == (query@.len() == 0),
            found@ == matching_sprints(sprints@, query@, i as int),
        decreases sprints@.len() - i,
    {
        let mut digits: Vec<char> = Vec::new();
        push_decimal(&mut digits, sprints[i].id as u64);
        assert(digits@ =~= decimal(sprints@[i as int].id as nat));
        let id_text = string_from_chars(digits.as_slice());
        let matches = empty || contains_str(lowercase_str(sprints[i].name.as_str()).as_str(), lower_query.as_str())
            || contains_str(id_text.as_str(), lower_query.as_str());
        if matches {
            found.push(i);
        }
        i = i + 1;
    }
    found
}

/// The last index of a list of `n` entries (0 for an empty list).
pub open spec fn last_of(n: int) -> usize {
    if n > 0 { (n - 1) as usize } else { 0 }
}

/// The search text after typing `c`.
fn push_query(query: &mut String, c: char)
    ensures
        final(query)@ == old(query)@.push(c),
{
    let mut chars = chars_of(query.as_str());
    chars.push(c);
    *query = string_from_chars(chars.as_slice());
}

/// The search text after a backspace.
pub open spec fn backspaced(query: Seq<char>) -> Seq<char> {
    if query.len() > 0 { query.drop_last() } else { query }
}

/// Removes the last character of the search text.
fn pop_query(query: &mut String)
    ensures
        final(query)@ == backspaced(old(query)@),
{
    let mut chars = chars_of(query.as_str());
    if chars.len() > 0 {
        chars.pop();
        *query = string_from_chars(chars.as_slice());
    }
}

/// Where the selection of a picker list moves on `key`: up and down (the
/// arrows, vi's `k` and `j`), to either end, or ten entries at a time.
pub open spec fn spec_pick_move(key: Key, selected: usize, max_index: usize) -> usize {
    if key == Key::Up || key == Key::Char('k') {
        if selected > 0 { (selected - 1) as usize } else { selected }
    } else if key == Key::Down || key == Key::Char('j') {
        if selected < max_index { (selected + 1) as usize } else { selected }
    } else if key == Key::Home {
        0
    } else if key == Key::End {
        max_index
    } else if key == Key::PageUp {
        if selected >= 10 { (selected - 10) as usize } else { 0 }
    } else if key == Key::PageDown {
        if selected + 10 < max_index { (selected + 10) as usize } else { max_index }
    } else {
        selected
    }
}

/// Moves a picker selection.
fn pick_move(key: Key, selected: usize, max_index: usize) -> (s: usize)
    requires
        key == Key::PageDown ==> selected + 10 <= usize::MAX,
    ensures
        s == spec_pick_move(key, selected, max_index),
{
    match key {
        Key::Up | Key::Char('k') => if selected > 0 { selected - 1 } else { selected },
        Key::Down | Key::Char('j') => if selected < max_index { selected + 1 } else { selected },
        Key::Home => 0,
        Key::End => max_index,
        Key::PageUp => selected.saturating_sub(10),
        Key::PageDown => if selected + 10 < max_index { selected + 10 } else { max_index },
        _ => selected,
    }
}

/// What a key in the meeting's issue picker asks for.
#[derive(Debug, Clone, Copy, PartialEq, Eq, Structural)]
pub enum IssuePickStep {
    Nothing,
    /// Close the picker.
    Close,
    /// Link the meeting to this issue (by index) and close the picker.
    Link(usize),
    /// Look the typed key up in Jira, link the meeting to it, and close the picker.
    FetchTyped,
}

/// The issue picker's response to `key` (`ctrl`: with Control held): the
/// new search text, the new selection, and what to do. `k` and `j` move the
/// selection, like the arrows, and never go into the search; other
/// characters typed without Control go into the search.
pub open spec fn spec_issue_pick(
    issues: Seq<IssueEntry>,
    query: Seq<char>,
    selected: usize,
    key: Key,
    ctrl: bool,
) -> (Seq<char>, usize, IssuePickStep) {
    let filtered = matching_issues(issues, query, issues.len() as int);
    if key == Key::Esc {
        if query.len() > 0 {
            (Seq::empty(), 0, IssuePickStep::Nothing)
        } else {
            (query, selected, IssuePickStep::Close)
        }
    } else if key == Key::Enter {
        if selected < filtered.len() {
            (query, selected, IssuePickStep::Link(filtered[selected as int]))
        } else if query.len() > 0 {
            (query, selected, IssuePickStep::FetchTyped)
        } else {
            (query, selected, IssuePickStep::Close)
        }
    } else if key == Key::Backspace {
        (backspaced(query), 0, IssuePickStep::Nothing)
    } else if key == Key::Char('k') || key == Key::Char('j') {
        (query, spec_pick_move(key, selected, last_of(filtered.len() as int)), IssuePickStep::Nothing)
    } else if key is Char {
        if !ctrl {
            (query.push(key->Char_0), 0, IssuePickStep::Nothing)
        } else {
            (query, selected, IssuePickStep::Nothing)
        }
    } else {
        (query, spec_pick_move(key, selected, last_of(filtered.len() as int)), IssuePickStep::Nothing)
    }
}

/// The picker that links a meeting to an issue.
pub struct IssueSelectionState {
    pub meeting_id: String,
    pub all_issues: Vec<IssueEntry>,
    pub selected_issue_index: usize,
    pub search_query: String,
}

impl IssueSelectionState {
    /// Handles a key; a `FetchTyped` step comes with the key to look up,
    /// the search text uppercased.
    pub fn handle_key(&mut self, key: Key, ctrl: bool) -> (r: (IssuePickStep, Option<String>))
        requires
            key == Key::PageDown ==> old(self).selected_issue_index + 10 <= usize::MAX,
        ensures
            (final(self).search_query@, final(self).selected_issue_index, r.0) == spec_issue_pick(
                old(self).all_issues@,
                old(self).search_query@,
                old(self).selected_issue_index,
                key,
                ctrl,
            ),
            r.1 is Some <==> r.0 == IssuePickStep::FetchTyped,
            r.1 matches Some(k) ==> k@ == str_uppercase(old(self).search_query@),
            final(self).all_issues == old(self).all_issues,
            final(self).meeting_id == old(self).meeting_id,
    {
        let filtered = filter_issues(self.all_issues.as_slice(), self.search_query.as_str());
        let max_index = if filtered.len() > 0 { filtered.len() - 1 } else { 0 };
        match key {
            Key::Esc => {
                if !self.search_query.as_str().is_empty() {
                    self.search_query = String::new();
                    self.selected_issue_index = 0;
                    (IssuePickStep::Nothing, None)
                } else {
                    (IssuePickStep::Close, None)
                }
            },
            Key::Enter => {
                if self.selected_issue_index < filtered.len() {
                    (IssuePickStep::Link(filtered[self.selected_issue_index]), None)
                } else if !self.search_query.as_str().is_empty() {
                    let typed = uppercase_str(self.search_query.as_str());
                    (IssuePickStep::FetchTyped, Some(typed))
                } else {
                    (IssuePickStep::Close, None)
                }
            },
            Key::Backspace => {
                pop_query(&mut self.search_query);
                self.selected_issue_index = 0;
                (IssuePickStep::Nothing, None)
            },
            Key::Char(c) => {
                if c == 'k' || c == 'j' {
                    self.selected_issue_index = pick_move(key, self.selected_issue_index, max_index);
                } else if !ctrl {
                    push_query(&mut self.search_query, c);
                    self.selected_issue_index = 0;
                }
                (IssuePickStep::Nothing, None)
            },
            _ => {
                self.selected_issue_index = pick_move(key, self.selected_issue_index, max_index);
                (IssuePickStep::Nothing, None)
            },
        }
    }
}

/// What a key in the gap-filling issue picker asks for.
#[derive(Debug, Clone, Copy, PartialEq, Eq, Structural)]
pub enum GapFillStep {
    Nothing,
    /// Fill the sprint's gaps with this issue (by index); the picker closes.
    Fill(usize),
    /// Skip gap filling; the picker closes.
    Skip,
}

/// The gap-filling picker's response to `key`: the new search text, the new
/// selection, and what to do. Its list moves up and down only.
pub open spec fn spec_gap_fill_pick(issues: Seq<IssueEntry>, query: Seq<char>, selected: usize, key: Key) -> (
    Seq<char>,
    usize,
    GapFillStep,
) {
    let filtered = matching_issues(issues, query, issues.len() as int);
    let max_index = last_of(filtered.len() as int);
    if key == Key::Up || key == Key::Char('k') || key == Key::Down || key == Key::Char('j') {
        (query, spec_pick_move(key, selected, max_index), GapFillStep::Nothing)
    } else if key == Key::Enter {
        if selected < filtered.len() {
            (query, selected, GapFillStep::Fill(filtered[selected as int]))
        } else {
            (query, selected, GapFillStep::Nothing)
        }
    } else if key == Key::Esc {
        (query, selected, GapFillStep::Skip)
    } else if key is Char {
        (query.push(key->Char_0), 0, GapFillStep::Nothing)
    } else if key == Key::Backspace {
        (backspaced(query), 0, GapFillStep::Nothing)
    } else {
        (query, selected, GapFillStep::Nothing)
    }
}

/// The picker that chooses the issue a sprint's gaps are filled with.
pub struct GapFillState {
    pub sprint_id: usize,
    pub all_issues: Vec<IssueEntry>,
    pub selected_issue_index: usize,
    pub search_query: String,
}

impl GapFillState {
    /// Handles a key.
    pub fn handle_key(&mut self, key: Key) -> (step: GapFillStep)
        ensures
            (final(self).search_query@, final(self).selected_issue_index, step) == spec_gap_fill_pick(
                old(self).all_issues@,
                old(self).search_query@,
                old(self).selected_issue_index,
                key,
            ),
            final(self).all_issues == old(self).all_issues,
            final(self).sprint_id == old(self).sprint_id,
    {
        let filtered = filter_issues(self.all_issues.as_slice(), self.search_query.as_str());
        let max_index = if filtered.len() > 0 { filtered.len() - 1 } else { 0 };
        match key {
            Key::Up | Key::Char('k') | Key::Down | Key::Char('j') => {
                self.selected_issue_index = pick_move(key, self.selected_issue_index, max_index);
                GapFillStep::Nothing
            },
            Key::Enter => {
                if self.selected_issue_index < filtered.len() {
                    GapFillStep::Fill(filtered[self.selected_issue_index])
                } else {
                    GapFillStep::Nothing
                }
            },
            Key::Esc => GapFillStep::Skip,
            Key::Char(c) => {
                push_query(&mut self.search_query, c);
                self.selected_issue_index = 0;
                GapFillStep::Nothing
            },
            Key::Backspace => {
                pop_query(&mut self.search_query);
                self.selected_issue_index = 0;
                GapFillStep::Nothing
            },
            _ => GapFillStep::Nothing,
        }
    }
}

/// What a key in the sprint follow picker asks for.
#[derive(Debug, Clone, Copy, PartialEq, Eq, Structural)]
pub enum SprintFollowStep {
    Nothing,
    /// Close the picker.
    Close,
    /// Follow this sprint (by index), or unfollow it if followed.
    Toggle(usize),
}

/// The follow picker's response to `key`: the new search text, the new
/// selection, and what to do. `a` and Enter toggle; `a`, `k`, `j` and
/// their capitals never go into the search.
pub open spec fn spec_sprint_follow_pick(sprints: Seq<SprintEntry>, query: Seq<char>, selected: usize, key: Key) -> (
    Seq<char>,
    usize,
    SprintFollowStep,
) {
    let filtered = matching_sprints(sprints, query, sprints.len() as int);
    let max_index = last_of(filtered.len() as int);
    if key == Key::Esc {
        if query.len() > 0 {
            (Seq::empty(), 0, SprintFollowStep::Nothing)
        } else {
            (query, selected, SprintFollowStep::Close)
        }
    } else if key == Key::Up || key == Key::Char('k') || key == Key::Down || key == Key::Char('j') {
        (query, spec_pick_move(key, selected, max_index), SprintFollowStep::Nothing)
    } else if key == Key::Char('a') || key == Key::Char('A') || key == Key::Enter {
        if selected < filtered.len() {
            (query, selected, SprintFollowStep::Toggle(filtered[selected as int]))
        } else {
            (query, selected, SprintFollowStep::Nothing)
        }
    } else if key is Char {
        let c = key->Char_0;
        if c != 'K' && c != 'J' {
            (query.push(c), 0, SprintFollowStep::Nothing)
        } else {
            (query, selected, SprintFollowStep::Nothing)
        }
    } else if key == Key::Backspace {
        (backspaced(query), 0, SprintFollowStep::Nothing)
    } else {
        (query, selected, SprintFollowStep::Nothing)
    }
}

/// The picker of sprints to follow or unfollow.
pub struct SprintFollowState {
    pub all_sprints: Vec<SprintEntry>,
    pub selected_index: usize,
    pub search_query: String,
}

impl SprintFollowState {
    /// Handles a key.
    pub fn handle_key(&mut self, key: Key) -> (step: SprintFollowStep)
        ensures
            (final(self).search_query@, final(self).selected_index, step) == spec_sprint_follow_pick(
                old(self).all_sprints@,
                old(self).search_query@,
                old(self).selected_index,
                key,
            ),
            final(self).all_sprints@ == old(self).all_sprints@,
    {
        let filtered = filter_sprints(self.all_sprints.as_slice(), self.search_query.as_str());
        let max_index = if filtered.len() > 0 { filtered.len() - 1 } else { 0 };
        match key {
            Key::Esc => {
                if !self.search_query.as_str().is_empty() {
                    self.search_query = String::new();
                    self.selected_index = 0;
                    SprintFollowStep::Nothing
                } else {
                    SprintFollowStep::Close
                }
            },
            Key::Up | Key::Char('k') | Key::Down | Key::Char('j') => {
                self.selected_index = pick_move(key, self.selected_index, max_index);
                SprintFollowStep::Nothing
            },
            Key::Char('a') | Key::Char('A') | Key::Enter => {
                if self.selected_index < filtered.len() {
                    SprintFollowStep::Toggle(filtered[self.selected_index])
                } else {
                    SprintFollowStep::Nothing
                }
            },
            Key::Char(c) => {
                if c != 'K' && c != 'J' {
                    push_query(&mut self.search_query, c);
                    self.selected_index = 0;
                }
                SprintFollowStep::Nothing
            },
            Key::Backspace => {
                pop_query(&mut self.search_query);
                self.selected_index = 0;
                SprintFollowStep::Nothing
            },
            _ => SprintFollowStep::Nothing,
        }
    }

    /// Records that the sprint with id `sprint_id` is now followed or not:
    /// the first listed sprint with that id changes.
    pub fn record_follow(&mut self, sprint_id: usize, followed: bool)
        ensures
            final(self).all_sprints@.len() == old(self).all_sprints@.len(),
            final(self).selected_index == old(self).selected_index,
            final(self).search_query == old(self).search_query,
            forall|k: int|
                0 <= k < old(self).all_sprints@.len() ==> {
                    let before = #[trigger] old(self).all_sprints@[k];
                    let after = final(self).all_sprints@[k];
                    &&& after.id == before.id
                    &&& after.name == before.name
                    &&& after.followed == if before.id == sprint_id && (forall|j: int|
                        0 <= j < k ==> old(self).all_sprints@[j].id != sprint_id) {
                        followed
                    } else {
                        before.followed
                    }
                },
    {
        let mut i: usize = 0;
        while i < self.all_sprints.len()
            invariant
                i <= self.all_sprints@.len(),
                self.all_sprints == old(self).all_sprints,
                self.selected_index == old(self).selected_index,
                self.search_query == old(self).search_query,
                forall|j: int| 0 <= j < i ==> old(self).all_sprints@[j].id != sprint_id,
            decreases self.all_sprints@.len() - i,
        {
            if self.all_sprints[i].id == sprint_id {
                let entry = SprintEntry {
                    id: self.all_sprints[i].id,
                    name: self.all_sprints[i].name.clone(),
                    followed,
                };
                self.all_sprints.set(i, entry);
                return;
            }
            i = i + 1;
        }
    }
}

/// In the issue picker, typing a character and erasing it gives back the
/// search text, with the first issue selected.
pub proof fn law_type_then_erase(issues: Seq<IssueEntry>, query: Seq<char>, selected: usize, c: char)
    requires
        c != 'k' && c != 'j',
    ensures
        ({
            let (q1, s1, a1) = spec_issue_pick(issues, query, selected, Key::Char(c), false);
            let (q2, s2, a2) = spec_issue_pick(issues, q1, s1, Key::Backspace, false);
            &&& q1 == query.push(c)
            &&& q2 == query
            &&& s2 == 0
            &&& a1 == IssuePickStep::Nothing
            &&& a2 == IssuePickStep::Nothing
        }),
{
    assert(query.push(c).drop_last() == query);
}

/// In the issue picker, `k` and `j` navigate whether Control is held or
/// not: `k` moves the selection up one unless it is at the top, `j` moves
/// it down one unless it is on the last matching issue; the search text
/// stays as it was and nothing else happens.
pub proof fn law_issue_picker_k_j_navigate(
    issues: Seq<IssueEntry>,
    query: Seq<char>,
    selected: usize,
    ctrl: bool,
)
    ensures
        ({
            let last = last_of(matching_issues(issues, query, issues.len() as int).len() as int);
            let (qk, sk, ak) = spec_issue_pick(issues, query, selected, Key::Char('k'), ctrl);
            let (qj, sj, aj) = spec_issue_pick(issues, query, selected, Key::Char('j'), ctrl);
            &&& qk == query && ak == IssuePickStep::Nothing
            &&& sk == (if selected > 0 { selected - 1 } else { selected as int })
            &&& qj == query && aj == IssuePickStep::Nothing
            &&& sj == (if selected < last { selected + 1 } else { selected as int })
        }),
{
}

/// Whatever the picker's state, Enter either links a listed issue, looks up
/// the typed text, or closes the picker: it never leaves the picker open.
pub proof fn law_enter_always_concludes(issues: Seq<IssueEntry>, query: Seq<char>, selected: usize)
    requires
        issues.len() <= usize::MAX,
    ensures
        ({
            let (q, s, a) = spec_issue_pick(issues, query, selected, Key::Enter, false);
            &&& a != IssuePickStep::Nothing
            &&& (a matches IssuePickStep::Link(i) ==> i < issues.len() && issue_matches(
                issues[i as int].key@,
                issues[i as int].summary@,
                query,
            ))
        }),
{
    let filtered = matching_issues(issues, query, issues.len() as int);
    lemma_matching_issues(issues, query, issues.len() as int);
    if selected < filtered.len() {
        assert(filtered[selected as int] < issues.len());
    }
}

proof fn lemma_matching_issues(issues: Seq<IssueEntry>, query: Seq<char>, n: int)
    requires
        0 <= n <= issues.len() <= usize::MAX,
    ensures
        forall|k: int|
            0 <= k < matching_issues(issues, query, n).len() ==> {
                let i = #[trigger] matching_issues(issues, query, n)[k];
                &&& i < n
                &&& issue_matches(issues[i as int].key@, issues[i as int].summary@, query)
            },
    decreases n,
{
    if n > 0 {
        lemma_matching_issues(issues, query, n - 1);
        let rest = matching_issues(issues, query, n - 1);
        let all = matching_issues(issues, query, n);
        assert forall|k: int| 0 <= k < all.len() implies {
            let i = #[trigger] all[k];
            &&& i < n
            &&& issue_matches(issues[i as int].key@, issues[i as int].summary@, query)
        } by {
            if k < rest.len() {
                assert(all[k] == rest[k]);
            }
        }
    }
}

/// An issue is suggested for typed text when its summary or key contains
/// the text, ignoring case.
pub open spec fn suggests_issue(key: Seq<char>, summary: Seq<char>, input: Seq<char>) -> bool {
    contains_seq(str_lowercase(summary), str_lowercase(input)) || contains_seq(str_lowercase(key), str_lowercase(input))
}

/// How a suggestion shows an issue: `[KEY] summary`.
pub open spec fn issue_label(key: Seq<char>, summary: Seq<char>) -> Seq<char> {
    seq!['['] + key + seq![']', ' '] + summary
}

/// The labels of the first `n` issues that the typed text suggests, in order.
pub open spec fn issue_suggestion_labels(issues: Seq<IssueEntry>, input: Seq<char>, n: int) -> Seq<Seq<char>>
    decreases n,
{
    if n <= 0 {
        Seq::empty()
    } else {
        let rest = issue_suggestion_labels(issues, input, n - 1);
        if suggests_issue(issues[n - 1].key@, issues[n - 1].summary@, input) {
            rest.push(issue_label(issues[n - 1].key@, issues[n - 1].summary@))
        } else {
            rest
        }
    }
}

/// Most suggestions offered while typing an issue key.
pub const ISSUE_SUGGESTIONS: usize = 10;

/// A label `[id] text`.
fn bracket_label(id: &Vec<char>, text: &str) -> (l: String)
    ensures
        l@ == seq!['['] + id@ + seq![']', ' '] + text@,
{
    let mut chars: Vec<char> = Vec::new();
    chars.push('[');
    let mut k: usize = 0;
    while k < id.len()
        invariant
            k <= id@.len(),
            chars@ == seq!['['] + id@.take(k as int),
        decreases id@.len() - k,
    {
        chars.push(id[k]);
        proof {
            assert(id@.take(k as int + 1) == id@.take(k as int).push(id@[k as int]));
        }
        k = k + 1;
    }
    assert(id@.take(id@.len() as int) == id@);
    chars.push(']');
    chars.push(' ');
    let tail = chars_of(text);
    let ghost base = chars@;
    let mut j: usize = 0;
    while j < tail.len()
        invariant
            j <= tail@.len(),
            chars@ == base + tail@.take(j as int),
        decreases tail@.len() - j,
    {
        chars.push(tail[j]);
        proof {
            assert(tail@.take(j as int + 1) == tail@.take(j as int).push(tail@[j as int]));
        }
        j = j + 1;
    }
    assert(tail@.take(tail@.len() as int) == tail@);
    string_from_chars(chars.as_slice())
}

/// The suggestions shown while typing an issue key: the first ten issues
/// whose summary or key contains the text (ignoring case), as `[KEY] summary`.
pub fn issue_suggestions(issues: &[IssueEntry], input: &str) -> (labels: Vec<String>)
    ensures
        ({
            let all = issue_suggestion_labels(issues@, input@, issues@.len() as int);
            let n = if all.len() < ISSUE_SUGGESTIONS { all.len() as int } else { ISSUE_SUGGESTIONS as int };
            crate::text::views(labels@) == all.take(n)
        }),
{
    let lower_input = lowercase_str(input);
    let mut labels: Vec<String> = Vec::new();
    let mut i: usize = 0;
    while i < issues.len() && labels.len() < ISSUE_SUGGESTIONS
        invariant
            i <= issues@.len(),
            lower_input@ == str_lowercase(input@),
            crate::text::views(labels@) == issue_suggestion_labels(issues@, input@, i as int),
            labels@.len() <= ISSUE_SUGGESTIONS,
        decreases issues@.len() - i,
    {
        let issue = &issues[i];
        let hit = contains_str(lowercase_str(issue.summary.as_str()).as_str(), lower_input.as_str()) || contains_str(
            lowercase_str(issue.key.as_str()).as_str(),
            lower_input.as_str(),
        );
        if hit {
            let key_chars = chars_of(issue.key.as_str());
            let label = bracket_label(&key_chars, issue.summary.as_str());
            let ghost before = labels@;
            labels.push(label);
            assert(crate::text::views(labels@) == crate::text::views(before).push(label@));
        }
        i = i + 1;
    }
    proof {
        lemma_labels_prefix(issues@, input@, i as int, issues@.len() as int);
        let all = issue_suggestion_labels(issues@, input@, issues@.len() as int);
        let cur = issue_suggestion_labels(issues@, input@, i as int);
        if i < issues@.len() {
            assert(cur.len() == ISSUE_SUGGESTIONS);
            assert(all.take(ISSUE_SUGGESTIONS as int) == cur);
        } else {
            assert(all.take(all.len() as int) == all);
        }
    }
    labels
}

proof fn lemma_labels_prefix(issues: Seq<IssueEntry>, input: Seq<char>, i: int, j: int)
    requires
        0 <= i <= j <= issues.len(),
    ensures
        issue_suggestion_labels(issues, input, i).len() <= issue_suggestion_labels(issues, input, j).len(),
        issue_suggestion_labels(issues, input, j).take(issue_suggestion_labels(issues, input, i).len() as int)
            == issue_suggestion_labels(issues, input, i),
    decreases j - i,
{
    if i < j {
        lemma_labels_prefix(issues, input, i, j - 1);
        let a = issue_suggestion_labels(issues, input, i);
        let b = issue_suggestion_labels(issues, input, j - 1);
        let c = issue_suggestion_labels(issues, input, j);
        assert(c.take(a.len() as int) =~= b.take(a.len() as int));
    } else {
        let a = issue_suggestion_labels(issues, input, i);
        assert(a.take(a.len() as int) =~= a);
    }
}

/// A board as the setup wizard's autocompletion lists it.
#[derive(Debug, Clone)]
pub struct BoardEntry {
    pub id: usize,
    pub name: String,
}

/// A board is offered for typed text when the text is empty, or the
/// board's name (ignoring case) or its id in decimal contains it.
pub open spec fn suggests_board(b: BoardEntry, input: Seq<char>) -> bool {
    input.len() == 0 || contains_seq(str_lowercase(b.name@), str_lowercase(input)) || contains_seq(
        decimal(b.id as nat),
        str_lowercase(input),
    )
}

/// The labels `[id] name` of the first `n` boards offered for the text, in order.
pub open spec fn board_suggestion_labels(boards: Seq<BoardEntry>, input: Seq<char>, n: int) -> Seq<Seq<char>>
    decreases n,
{
    if n <= 0 {
        Seq::empty()
    } else {
        let rest = board_suggestion_labels(boards, input, n - 1);
        if suggests_board(boards[n - 1], input) {
            rest.push(seq!['['] + decimal(boards[n - 1].id as nat) + seq![']', ' '] + boards[n - 1].name@)
        } else {
            rest
        }
    }
}

/// Most boards the autocompletion offers.
pub const BOARD_SUGGESTIONS: usize = 15;

proof fn lemma_board_labels_prefix(boards: Seq<BoardEntry>, input: Seq<char>, i: int, j: int)
    requires
        0 <= i <= j <= boards.len(),
    ensures
        board_suggestion_labels(boards, input, i).len() <= board_suggestion_labels(boards, input, j).len(),
        board_suggestion_labels(boards, input, j).take(board_suggestion_labels(boards, input, i).len() as int)
            == board_suggestion_labels(boards, input, i),
    decreases j - i,
{
    if i < j {
        lemma_board_labels_prefix(boards, input, i, j - 1);
        let a = board_suggestion_labels(boards, input, i);
        let b = board_suggestion_labels(boards, input, j - 1);
        let c = board_suggestion_labels(boards, input, j);
        assert(c.take(a.len() as int) =~= b.take(a.len() as int));
    } else {
        let a = board_suggestion_labels(boards, input, i);
        assert(a.take(a.len() as int) =~= a);
    }
}

/// The boards offered while typing in the setup wizard: the first fifteen
/// matching ones, as `[id] name`.
pub fn board_suggestions(boards: &[BoardEntry], input: &str) -> (labels: Vec<String>)
    ensures
        ({
            let all = board_suggestion_labels(boards@, input@, boards@.len() as int);
            let n = if all.len() < BOARD_SUGGESTIONS { all.len() as int } else { BOARD_SUGGESTIONS as int };
            crate::text::views(labels@) == all.take(n)
        }),
{
    let lower_input = lowercase_str(input);
    let empty = input.is_empty();
    let mut labels: Vec<String> = Vec::new();
    let mut i: usize = 0;
    while i < boards.len() && labels.len() < BOARD_SUGGESTIONS
        invariant
            i <= boards@.len(),
            lower_input@ == str_lowercase(input@),
            empty == (input@.len() == 0),
            crate::text::views(labels@) == board_suggestion_labels(boards@, input@, i as int),
            labels@.len() <= BOARD_SUGGESTIONS,
        decreases boards@.len() - i,
    {
        let board = &boards[i];
        let mut digits: Vec<char> = Vec::new();
        push_decimal(&mut digits, board.id as u64);
        assert(digits@ =~= decimal(boards@[i as int].id as nat));
        let id_text = string_from_chars(digits.as_slice());
        let hit = empty || contains_str(lowercase_str(board.name.as_str()).as_str(), lower_input.as_str())
            || contains_str(id_text.as_str(), lower_input.as_str());
        if hit {
            let label = bracket_label(&digits, board.name.as_str());
            let ghost before = labels@;
            labels.push(label);
            assert(crate::text::views(labels@) == crate::text::views(before).push(label@));
        }
        i = i + 1;
    }
    proof {
        lemma_board_labels_prefix(boards@, input@, i as int, boards@.len() as int);
        let all = board_suggestion_labels(boards@, input@, boards@.len() as int);
        let cur = board_suggestion_labels(boards@, input@, i as int);
        if i < boards@.len() {
            assert(all.take(BOARD_SUGGESTIONS as int) == cur);
        } else {
            assert(all.take(all.len() as int) == all);
        }
    }
    labels
}

/// The first position at or after `k` that holds no ASCII digit; `s.len()` where all do.
pub open spec fn digits_end(s: Seq<char>, k: int) -> int
    decreases s.len() - k,
{
    if k >= s.len() {
        s.len() as int
    } else if '0' <= s[k] && s[k] <= '9' {
        digits_end(s, k + 1)
    } else {
        k
    }
}

/// A board id written `[digits]` at position `p`: the positions of its digits.
pub open spec fn board_id_at(s: Seq<char>, p: int) -> Option<(int, int)> {
    let q = digits_end(s, p + 1);
    if 0 <= p < s.len() && s[p] == '[' && q > p + 1 && q < s.len() && s[q] == ']' {
        Some((p + 1, q))
    } else {
        None
    }
}

/// The first board id written `[digits]` in `s` at or after position `p`.
pub open spec fn first_board_id(s: Seq<char>, p: int) -> Option<Seq<char>>
    decreases s.len() - p,
{
    if p >= s.len() || p < 0 {
        None
    } else {
        match board_id_at(s, p) {
            Some((a, b)) => Some(s.subrange(a, b)),
            None => first_board_id(s, p + 1),
        }
    }
}

fn digits_end_exec(s: &Vec<char>, k: usize) -> (r: usize)
    requires
        k <= s@.len(),
    ensures
        r == digits_end(s@, k as int),
        k <= r <= s@.len(),
{
    let mut j = k;
    while j < s.len() && '0' <= s[j] && s[j] <= '9'
        invariant
            k <= j <= s@.len(),
            digits_end(s@, k as int) == digits_end(s@, j as int),
        decreases s@.len() - j,
    {
        j = j + 1;
    }
    j
}

/// The id of the board that a picked suggestion (`[id] name`) names: the
/// digits of the first `[digits]` in it.
pub fn board_id_of_choice(choice: &str) -> (id: Option<String>)
    ensures
        match id {
            Some(t) => first_board_id(choice@, 0) == Some(t@),
            None => first_board_id(choice@, 0) is None,
        },
{
    let s = chars_of(choice);
    let mut p: usize = 0;
    while p < s.len()
        invariant
            s@ == choice@,
            0 <= p <= s@.len(),
            first_board_id(s@, 0) == first_board_id(s@, p as int),
        decreases s@.len() - p,
    {
        if s[p] == '[' {
            let q = digits_end_exec(&s, p + 1);
            if q > p + 1 && q < s.len() && s[q] == ']' {
                let digits = string_from_chars(&s.as_slice()[p + 1..q]);
                return Some(digits);
            }
        }
        p = p + 1;
    }
    None
}

/// A sprint as the setup wizard offers it; its dates are day numbers (see `calendar`).
pub struct SprintChoice {
    pub id: usize,
    pub name: String,
    pub start_day: Option<i32>,
    pub end_day: Option<i32>,
}

/// A sprint is offered for typed text when the text is empty, or the
/// sprint's name (ignoring case) or its id in decimal contains it.
pub open spec fn suggests_sprint(s: SprintChoice, input: Seq<char>) -> bool {
    input.len() == 0 || contains_seq(str_lowercase(s.name@), str_lowercase(input)) || contains_seq(
        decimal(s.id as nat),
        str_lowercase(input),
    )
}

/// A date as the suggestions write it; empty for a day chrono cannot date.
pub open spec fn month_day_or_empty(day: i32) -> Seq<char> {
    match month_day_text(day) {
        Some(t) => t,
        None => Seq::empty(),
    }
}

/// The label of a suggested sprint: `[id] name`, then ` (start - end)` when
/// both dates are known.
pub open spec fn sprint_label(s: SprintChoice) -> Seq<char> {
    seq!['['] + decimal(s.id as nat) + seq![']', ' '] + s.name@ + match (s.start_day, s.end_day) {
        (Some(a), Some(b)) => " ("@ + month_day_or_empty(a) + " - "@ + month_day_or_empty(b) + ")"@,
        _ => Seq::empty(),
    }
}

/// The labels of the first `n` sprints offered for the text, in order.
pub open spec fn sprint_suggestion_labels(sprints: Seq<SprintChoice>, input: Seq<char>, n: int) -> Seq<Seq<char>>
    decreases n,
{
    if n <= 0 {
        Seq::empty()
    } else {
        let rest = sprint_suggestion_labels(sprints, input, n - 1);
        if suggests_sprint(sprints[n - 1], input) {
            rest.push(sprint_label(sprints[n - 1]))
        } else {
            rest
        }
    }
}

proof fn lemma_sprint_labels_prefix(sprints: Seq<SprintChoice>, input: Seq<char>, i: int, j: int)
    requires
        0 <= i <= j <= sprints.len(),
    ensures
        sprint_suggestion_labels(sprints, input, i).len() <= sprint_suggestion_labels(sprints, input, j).len(),
        sprint_suggestion_labels(sprints, input, j).take(sprint_suggestion_labels(sprints, input, i).len() as int)
            == sprint_suggestion_labels(sprints, input, i),
    decreases j - i,
{
    if i < j {
        lemma_sprint_labels_prefix(sprints, input, i, j - 1);
        let a = sprint_suggestion_labels(sprints, input, i);
        let b = sprint_suggestion_labels(sprints, input, j - 1);
        let c = sprint_suggestion_labels(sprints, input, j);
        assert(c.take(a.len() as int) =~= b.take(a.len() as int));
    } else {
        let a = sprint_suggestion_labels(sprints, input, i);
        assert(a.take(a.len() as int) =~= a);
    }
}

fn date_text(day: i32) -> (t: String)
    ensures
        t@ == month_day_or_empty(day),
{
    match month_day_label(day) {
        Some(t) => t,
        None => String::new(),
    }
}

/// The sprints offered while typing in the setup wizard: the first fifteen
/// matching ones, labelled with their dates.
pub fn sprint_suggestions(sprints: &[SprintChoice], input: &str) -> (labels: Vec<String>)
    ensures
        ({
            let all = sprint_suggestion_labels(sprints@, input@, sprints@.len() as int);
            let n = if all.len() < BOARD_SUGGESTIONS { all.len() as int } else { BOARD_SUGGESTIONS as int };
            crate::text::views(labels@) == all.take(n)
        }),
{
    let lower_input = lowercase_str(input);
    let empty = input.is_empty();
    let mut labels: Vec<String> = Vec::new();
    let mut i: usize = 0;
    while i < sprints.len() && labels.len() < BOARD_SUGGESTIONS
        invariant
            i <= sprints@.len(),
            lower_input@ == str_lowercase(input@),
            empty == (input@.len() == 0),
            crate::text::views(labels@) == sprint_suggestion_labels(sprints@, input@, i as int),
            labels@.len() <= BOARD_SUGGESTIONS,
        decreases sprints@.len() - i,
    {
        let sprint = &sprints[i];
        let mut digits: Vec<char> = Vec::new();
        push_decimal(&mut digits, sprint.id as u64);
        assert(digits@ =~= decimal(sprints@[i as int].id as nat));
        let id_text = string_from_chars(digits.as_slice());
        let hit = empty || contains_str(lowercase_str(sprint.name.as_str()).as_str(), lower_input.as_str())
            || contains_str(id_text.as_str(), lower_input.as_str());
        if hit {
            let mut label = bracket_label(&digits, sprint.name.as_str());
            match (sprint.start_day, sprint.end_day) {
                (Some(a), Some(b)) => {
                    label.append(" (");
                    label.append(date_text(a).as_str());
                    label.append(" - ");
                    label.append(date_text(b).as_str());
                    label.append(")");
                },
                _ => {},
            }
            assert(label@ =~= sprint_label(sprints@[i as int]));
            let ghost before = labels@;
            labels.push(label);
            assert(crate::text::views(labels@) == crate::text::views(before).push(label@));
        }
        i = i + 1;
    }
    proof {
        lemma_sprint_labels_prefix(sprints@, input@, i as int, sprints@.len() as int);
        let all = sprint_suggestion_labels(sprints@, input@, sprints@.len() as int);
        let cur = sprint_suggestion_labels(sprints@, input@, i as int);
        if i < sprints@.len() {
            assert(all.take(BOARD_SUGGESTIONS as int) == cur);
        } else {
            assert(all.take(all.len() as int) == all);
        }
    }
    labels
}

} // verus!
