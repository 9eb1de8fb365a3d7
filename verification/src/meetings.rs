use vstd::prelude::*;
use crate::dashboard::signed_decimal;
use crate::text::{
    all_whitespace, chars_of, contains_seq, contains_str, decimal, decimal_string, is_blank, str_equal, string_from_chars,
};

verus! {

/// A meeting, as the linking and counting logic sees it.
pub struct MeetingSummary {
    pub id: String,
    pub title: Option<String>,
    /// Whether the calendar event recurs.
    pub is_recurring: bool,
    /// The Jira issue the meeting is linked to.
    pub jira_link: Option<String>,
}

/// Whether a meeting title marks an absence rather than a meeting.
pub open spec fn spec_is_absence_title(title: Seq<char>) -> bool {
    contains_seq(title, "Absence"@) || contains_seq(title, "absent"@)
}

/// Whether a meeting title marks an absence.
pub fn is_absence_title(title: &str) -> (b: bool)
    ensures
        b == spec_is_absence_title(title@),
{
    contains_str(title, "Absence") || contains_str(title, "absent")
}

/// Meetings still waiting for a Jira link: unlinked and not marked untracked.
pub open spec fn spec_pending_count(linked: Seq<bool>, untracked: Seq<bool>) -> nat
    decreases linked.len(),
{
    if linked.len() == 0 || untracked.len() == 0 {
        0
    } else {
        spec_pending_count(linked.drop_last(), untracked.drop_last())
            + if !linked.last() && !untracked.last() { 1nat } else { 0nat }
    }
}

/// Counts the meetings that are neither linked to an issue nor untracked.
/// `linked[i]` and `untracked[i]` describe meeting `i`.
pub fn pending_meeting_count(linked: &[bool], untracked: &[bool]) -> (count: usize)
    requires
        linked@.len() == untracked@.len(),
    ensures
        count == spec_pending_count(linked@, untracked@),
{
    let mut count: usize = 0;
    let mut i: usize = 0;
    while i < linked.len()
        invariant
            0 <= i <= linked@.len(),
            linked@.len() == untracked@.len(),
            count == spec_pending_count(linked@.take(i as int), untracked@.take(i as int)),
            count <= i,
        decreases linked@.len() - i,
    {
        proof {
            assert(linked@.take(i as int + 1).drop_last() =~= linked@.take(i as int));
            assert(untracked@.take(i as int + 1).drop_last() =~= untracked@.take(i as int));
        }
        if !linked[i] && !untracked[i] {
            count = count + 1;
        }
        i = i + 1;
    }
    proof {
        assert(linked@.take(linked@.len() as int) =~= linked@);
        assert(untracked@.take(untracked@.len() as int) =~= untracked@);
    }
    count
}

/// A map from strings to strings kept as a list of distinct keys.
pub struct StringMap {
    entries: Vec<(String, String)>,
}

impl StringMap {
    pub closed spec fn view(&self) -> Map<Seq<char>, Seq<char>> {
        Map::new(
            |k: Seq<char>| exists|i: int| 0 <= i < self.entries@.len() && (#[trigger] self.entries@[i]).0@ == k,
            |k: Seq<char>| self.entries@[choose|i: int| 0 <= i < self.entries@.len() && (#[trigger] self.entries@[i]).0@ == k].1@,
        )
    }

    /// Keys are distinct.
    pub closed spec fn wf(&self) -> bool {
        forall|i: int, j: int| 0 <= i < j < self.entries@.len() ==> (#[trigger] self.entries@[i]).0@ != (#[trigger] self.entries@[j]).0@
    }

    /// An empty map.
    pub fn new() -> (m: Self)
        ensures
            m.wf(),
            m.view() == Map::<Seq<char>, Seq<char>>::empty(),
    {
        let m = StringMap { entries: Vec::new() };
        assert(m.view() =~= Map::<Seq<char>, Seq<char>>::empty());
        m
    }

    fn index_of(&self, key: &str) -> (r: Option<usize>)
        requires
            self.wf(),
        ensures
            match r {
                Some(i) => i < self.entries@.len() && self.entries@[i as int].0@ == key@,
                None => !self.view().dom().contains(key@),
            },
    {
        let mut i: usize = 0;
        while i < self.entries.len()
            invariant
                0 <= i <= self.entries@.len(),
                forall|j: int| 0 <= j < i ==> (#[trigger] self.entries@[j]).0@ != key@,
            decreases self.entries@.len() - i,
        {
            if str_equal(self.entries[i].0.as_str(), key) {
                return Some(i);
            }
            i = i + 1;
        }
        None
    }

    proof fn lemma_value_at(&self, i: int)
        requires
            self.wf(),
            0 <= i < self.entries@.len(),
        ensures
            self.view().dom().contains(self.entries@[i].0@),
            self.view()[self.entries@[i].0@] == self.entries@[i].1@,
    {
        let k = self.entries@[i].0@;
        let c = choose|j: int| 0 <= j < self.entries@.len() && (#[trigger] self.entries@[j]).0@ == k;
        if c != i {
            if c < i {
                assert(self.entries@[c].0@ != self.entries@[i].0@);
            } else {
                assert(self.entries@[i].0@ != self.entries@[c].0@);
            }
        }
    }

    /// The value stored for `key`.
    pub fn get(&self, key: &str) -> (r: Option<String>)
        requires
            self.wf(),
        ensures
            match r {
                Some(v) => self.view().dom().contains(key@) && self.view()[key@] == v@,
                None => !self.view().dom().contains(key@),
            },
    {
        match self.index_of(key) {
            Some(i) => {
                proof {
                    self.lemma_value_at(i as int);
                }
                Some(self.entries[i].1.clone())
            },
            None => None,
        }
    }

    /// Stores `value` for `key`, replacing any earlier value.
    pub fn insert(&mut self, key: String, value: String)
        requires
            old(self).wf(),
        ensures
            final(self).wf(),
            final(self).view() == old(self).view().insert(key@, value@),
    {
        let ghost k = key@;
        let ghost v = value@;
        let ghost before = self.entries@;
        match self.index_of(key.as_str()) {
            Some(i) => {
                self.entries.set(i, (key, value));
                proof {
                    assert forall|a: int, b: int| 0 <= a < b < self.entries@.len() implies
                        (#[trigger] self.entries@[a]).0@ != (#[trigger] self.entries@[b]).0@ by {
                        assert(before[a].0@ != before[b].0@);
                    }
                    assert forall|q: Seq<char>| #[trigger] self.view().dom().contains(q) <==> old(self).view().insert(k, v).dom().contains(q) by {
                        if q == k {
                            assert(self.entries@[i as int].0@ == q);
                        } else if old(self).view().dom().contains(q) {
                            let j = choose|j: int| 0 <= j < before.len() && (#[trigger] before[j]).0@ == q;
                            assert(self.entries@[j] == before[j]);
                        } else if self.view().dom().contains(q) {
                            let j = choose|j: int| 0 <= j < self.entries@.len() && (#[trigger] self.entries@[j]).0@ == q;
                            assert(before[j] == self.entries@[j]);
                        }
                    }
                    assert forall|q: Seq<char>| #[trigger] self.view().dom().contains(q) implies self.view()[q] == old(self).view().insert(k, v)[q] by {
                        let j = choose|j: int| 0 <= j < self.entries@.len() && (#[trigger] self.entries@[j]).0@ == q;
                        self.lemma_value_at(j);
                        if j != i {
                            assert(before[j] == self.entries@[j]);
                            old(self).lemma_value_at(j);
                        }
                    }
                    assert(self.view() =~= old(self).view().insert(k, v));
                }
            },
            None => {
                self.entries.push((key, value));
                proof {
                    let n = before.len() as int;
                    assert forall|a: int, b: int| 0 <= a < b < self.entries@.len() implies
                        (#[trigger] self.entries@[a]).0@ != (#[trigger] self.entries@[b]).0@ by {
                        if b == n {
                            assert(old(self).view().dom().contains(before[a].0@));
                        } else {
                            assert(before[a].0@ != before[b].0@);
                        }
                    }
                    assert forall|q: Seq<char>| #[trigger] self.view().dom().contains(q) <==> old(self).view().insert(k, v).dom().contains(q) by {
                        if q == k {
                            assert(self.entries@[n].0@ == q);
                        } else if old(self).view().dom().contains(q) {
                            let j = choose|j: int| 0 <= j < before.len() && (#[trigger] before[j]).0@ == q;
                            assert(self.entries@[j] == before[j]);
                        } else if self.view().dom().contains(q) {
                            let j = choose|j: int| 0 <= j < self.entries@.len() && (#[trigger] self.entries@[j]).0@ == q;
                            assert(before[j] == self.entries@[j]);
                        }
                    }
                    assert forall|q: Seq<char>| #[trigger] self.view().dom().contains(q) implies self.view()[q] == old(self).view().insert(k, v)[q] by {
                        let j = choose|j: int| 0 <= j < self.entries@.len() && (#[trigger] self.entries@[j]).0@ == q;
                        self.lemma_value_at(j);
                        if j != n {
                            assert(before[j] == self.entries@[j]);
                            old(self).lemma_value_at(j);
                        }
                    }
                    assert(self.view() =~= old(self).view().insert(k, v));
                }
            },
        }
    }

    /// Forgets `key` and its value, if it is there.
    pub fn remove(&mut self, key: &str)
        requires
            old(self).wf(),
        ensures
            final(self).wf(),
            final(self).view() == old(self).view().remove(key@),
    {
        let ghost before = self.entries@;
        match self.index_of(key) {
            Some(i) => {
                let _ = self.entries.remove(i);
                proof {
                    let ii = i as int;
                    assert forall|j: int| 0 <= j < self.entries@.len() implies
                        #[trigger] self.entries@[j] == (if j < ii { before[j] } else { before[j + 1] }) by {}
                    assert forall|a: int, b: int| 0 <= a < b < self.entries@.len() implies
                        (#[trigger] self.entries@[a]).0@ != (#[trigger] self.entries@[b]).0@ by {
                        let a2 = if a < ii { a } else { a + 1 };
                        let b2 = if b < ii { b } else { b + 1 };
                        assert(self.entries@[a] == before[a2]);
                        assert(self.entries@[b] == before[b2]);
                        assert(before[a2].0@ != before[b2].0@);
                    }
                    assert forall|q: Seq<char>| #[trigger] self.view().dom().contains(q) <==> old(self).view().remove(key@).dom().contains(q) by {
                        if self.view().dom().contains(q) {
                            let j = choose|j: int| 0 <= j < self.entries@.len() && (#[trigger] self.entries@[j]).0@ == q;
                            let j2 = if j < ii { j } else { j + 1 };
                            assert(self.entries@[j] == before[j2]);
                            assert(before[j2].0@ != before[ii].0@);
                        }
                        if old(self).view().remove(key@).dom().contains(q) {
                            let j = choose|j: int| 0 <= j < before.len() && (#[trigger] before[j]).0@ == q;
                            assert(j != ii);
                            let j2 = if j < ii { j } else { j - 1 };
                            assert(self.entries@[j2] == before[j]);
                        }
                    }
                    assert forall|q: Seq<char>| #[trigger] self.view().dom().contains(q) implies self.view()[q] == old(self).view().remove(key@)[q] by {
                        let j = choose|j: int| 0 <= j < self.entries@.len() && (#[trigger] self.entries@[j]).0@ == q;
                        self.lemma_value_at(j);
                        let j2 = if j < ii { j } else { j + 1 };
                        assert(self.entries@[j] == before[j2]);
                        old(self).lemma_value_at(j2);
                    }
                    assert(self.view() =~= old(self).view().remove(key@));
                }
            },
            None => {
                proof {
                    assert(self.view() =~= old(self).view().remove(key@));
                }
            },
        }
    }
}

/// What to do with a meeting while linking meetings to issues.
#[derive(Debug, PartialEq, Eq)]
pub enum LinkAction {
    /// The event is an absence: leave it.
    SkipAbsence,
    /// A recurring meeting whose series is already linked: link it to the same issue.
    ReuseRecurring(String),
    /// Already linked: leave it.
    AlreadyLinked,
    /// Linked earlier in this run: link it again to that issue.
    ReuseCached(String),
    /// Ask the user which issue to link.
    Ask,
}

/// The decision for one meeting, given the links known for recurring titles and for meeting ids.
pub open spec fn spec_link_action(
    m: MeetingSummary,
    recurring: Map<Seq<char>, Seq<char>>,
    cache: Map<Seq<char>, Seq<char>>,
) -> (int, Seq<char>) {
    // (0: skip absence, 1: reuse recurring, 2: already linked, 3: reuse cached, 4: ask; issue key)
    if m.title is Some && spec_is_absence_title(m.title->0@) {
        (0, Seq::empty())
    } else if m.title is Some && m.is_recurring && m.jira_link is None && recurring.dom().contains(m.title->0@) {
        (1, recurring[m.title->0@])
    } else if m.jira_link is Some {
        (2, Seq::empty())
    } else if cache.dom().contains(m.id@) {
        (3, cache[m.id@])
    } else {
        (4, Seq::empty())
    }
}

/// The code and issue key of an action, in the numbering of `spec_link_action`.
pub open spec fn action_code(a: LinkAction) -> (int, Seq<char>) {
    match a {
        LinkAction::SkipAbsence => (0, Seq::empty()),
        LinkAction::ReuseRecurring(k) => (1, k@),
        LinkAction::AlreadyLinked => (2, Seq::empty()),
        LinkAction::ReuseCached(k) => (3, k@),
        LinkAction::Ask => (4, Seq::empty()),
    }
}

/// The state of a linking run: the issue of each linked recurring series, by
/// title, and the issue chosen for each meeting id during the run.
pub struct LinkPlanner {
    recurring_links: StringMap,
    link_cache: StringMap,
}

impl LinkPlanner {
    pub closed spec fn recurring(&self) -> Map<Seq<char>, Seq<char>> {
        self.recurring_links.view()
    }

    pub closed spec fn cache(&self) -> Map<Seq<char>, Seq<char>> {
        self.link_cache.view()
    }

    pub closed spec fn wf(&self) -> bool {
        self.recurring_links.wf() && self.link_cache.wf()
    }

    /// Starts a run: every recurring, linked, titled meeting makes its title
    /// known with its issue (a later meeting overriding an earlier one of the same title).
    pub fn new(meetings: &[MeetingSummary]) -> (p: Self)
        ensures
            p.wf(),
            p.cache() == Map::<Seq<char>, Seq<char>>::empty(),
            p.recurring() == known_recurring_links(meetings@),
    {
        let mut recurring_links = StringMap::new();
        let mut i: usize = 0;
        while i < meetings.len()
            invariant
                0 <= i <= meetings@.len(),
                recurring_links.wf(),
                recurring_links.view() == known_recurring_links(meetings@.take(i as int)),
            decreases meetings@.len() - i,
        {
            proof {
                assert(meetings@.take(i as int + 1).drop_last() =~= meetings@.take(i as int));
            }
            if meetings[i].is_recurring {
                match (&meetings[i].jira_link, &meetings[i].title) {
                    (Some(link), Some(title)) => {
                        recurring_links.insert(title.clone(), link.clone());
                    },
                    _ => {},
                }
            }
            i = i + 1;
        }
        proof {
            assert(meetings@.take(meetings@.len() as int) =~= meetings@);
        }
        LinkPlanner { recurring_links, link_cache: StringMap::new() }
    }

    /// Decides what to do with `meeting`.
    pub fn decide(&self, meeting: &MeetingSummary) -> (a: LinkAction)
        requires
            self.wf(),
        ensures
            action_code(a) == spec_link_action(*meeting, self.recurring(), self.cache()),
    {
        match &meeting.title {
            Some(title) => {
                if is_absence_title(title.as_str()) {
                    return LinkAction::SkipAbsence;
                }
                if meeting.is_recurring && meeting.jira_link.is_none() {
                    match self.recurring_links.get(title.as_str()) {
                        Some(link) => return LinkAction::ReuseRecurring(link),
                        None => {},
                    }
                }
            },
            None => {},
        }
        if meeting.jira_link.is_some() {
            return LinkAction::AlreadyLinked;
        }
        match self.link_cache.get(meeting.id.as_str()) {
            Some(link) => LinkAction::ReuseCached(link),
            None => LinkAction::Ask,
        }
    }

    /// Records that the user linked `meeting` to `issue_key`: the meeting id
    /// remembers it, and so does the title of a recurring meeting.
    pub fn record(&mut self, meeting: &MeetingSummary, issue_key: String)
        requires
            old(self).wf(),
        ensures
            final(self).wf(),
            final(self).cache() == old(self).cache().insert(meeting.id@, issue_key@),
            final(self).recurring() == if meeting.is_recurring && meeting.title is Some {
                old(self).recurring().insert(meeting.title->0@, issue_key@)
            } else {
                old(self).recurring()
            },
    {
        self.link_cache.insert(meeting.id.clone(), issue_key.clone());
        if meeting.is_recurring {
            match &meeting.title {
                Some(title) => self.recurring_links.insert(title.clone(), issue_key),
                None => {},
            }
        }
    }
}

/// A meeting that already has a Jira link, and is not an absence, is left as
/// it is: whatever recurring series or earlier choices are known, the
/// planner decides `AlreadyLinked` and never re-links it.
pub proof fn law_linked_meeting_left_alone(
    m: MeetingSummary,
    recurring: Map<Seq<char>, Seq<char>>,
    cache: Map<Seq<char>, Seq<char>>,
)
    requires
        m.jira_link is Some,
        !(m.title matches Some(t) && spec_is_absence_title(t@)),
    ensures
        forall|a: LinkAction| action_code(a) == spec_link_action(m, recurring, cache) ==> a is AlreadyLinked,
{
    assert forall|a: LinkAction| action_code(a) == spec_link_action(m, recurring, cache) implies a is AlreadyLinked by {
        assert(spec_link_action(m, recurring, cache).0 == 2);
    }
}

/// Titles of recurring linked meetings mapped to their issue, later meetings taking precedence.
pub open spec fn known_recurring_links(meetings: Seq<MeetingSummary>) -> Map<Seq<char>, Seq<char>>
    decreases meetings.len(),
{
    if meetings.len() == 0 {
        Map::empty()
    } else {
        let before = known_recurring_links(meetings.drop_last());
        let m = meetings.last();
        if m.is_recurring && m.jira_link is Some && m.title is Some {
            before.insert(m.title->0@, m.jira_link->0@)
        } else {
            before
        }
    }
}

} // verus!

verus! {

pub open spec fn is_ascii_letter(c: char) -> bool {
    ('a' <= c && c <= 'z') || ('A' <= c && c <= 'Z')
}

pub open spec fn is_ascii_digit(c: char) -> bool {
    '0' <= c && c <= '9'
}

/// A Jira issue key: ASCII letters, a dash, ASCII digits (one or more of each), as in `PROJ-123`.
pub open spec fn is_issue_key(s: Seq<char>) -> bool {
    exists|h: int| #[trigger] key_split_at(s, h)
}

/// `s` is letters before position `h`, a dash at `h`, and digits after it.
pub open spec fn key_split_at(s: Seq<char>, h: int) -> bool {
    &&& 0 < h && h + 1 < s.len()
    &&& s[h] == '-'
    &&& forall|i: int| 0 <= i < h ==> is_ascii_letter(#[trigger] s[i])
    &&& forall|i: int| h < i < s.len() ==> is_ascii_digit(#[trigger] s[i])
}

/// An issue key in square brackets spans positions `p` to `e` of `s`.
pub open spec fn bracketed_key(s: Seq<char>, p: int, e: int) -> bool {
    &&& 0 <= p && p + 1 < e && e < s.len()
    &&& s[p] == '['
    &&& s[e] == ']'
    &&& is_issue_key(s.subrange(p + 1, e))
}

/// Some bracketed key starts at `p`, and none starts earlier.
pub open spec fn first_bracketed_key(s: Seq<char>, p: int, e: int) -> bool {
    bracketed_key(s, p, e) && forall|q: int, f: int| q < p ==> !#[trigger] bracketed_key(s, q, f)
}

/// The issue key named by what the user typed: nothing for blank input; else
/// the first `[KEY]` in it; else the whole input when it is a key; else nothing.
pub open spec fn spec_parse_issue_input(s: Seq<char>) -> Option<Seq<char>> {
    if all_whitespace(s) {
        None
    } else if exists|p: int, e: int| #[trigger] first_bracketed_key(s, p, e) {
        let (p, e) = choose|p: int, e: int| #[trigger] first_bracketed_key(s, p, e);
        Some(s.subrange(p + 1, e))
    } else if is_issue_key(s) {
        Some(s)
    } else {
        None
    }
}

fn is_letter(c: char) -> (b: bool)
    ensures
        b == is_ascii_letter(c),
{
    ('a' <= c && c <= 'z') || ('A' <= c && c <= 'Z')
}

fn is_digit(c: char) -> (b: bool)
    ensures
        b == is_ascii_digit(c),
{
    '0' <= c && c <= '9'
}

/// Index of the first position at or after `from` holding no letter.
fn skip_letters(s: &[char], from: usize) -> (j: usize)
    requires
        from <= s@.len(),
    ensures
        from <= j <= s@.len(),
        forall|i: int| from <= i < j ==> is_ascii_letter(#[trigger] s@[i]),
        j < s@.len() ==> !is_ascii_letter(s@[j as int]),
{
    let mut j = from;
    while j < s.len() && is_letter(s[j])
        invariant
            from <= j <= s@.len(),
            forall|i: int| from <= i < j ==> is_ascii_letter(#[trigger] s@[i]),
        decreases s@.len() - j,
    {
        j = j + 1;
    }
    j
}

/// Index of the first position at or after `from` holding no digit.
fn skip_digits(s: &[char], from: usize) -> (j: usize)
    requires
        from <= s@.len(),
    ensures
        from <= j <= s@.len(),
        forall|i: int| from <= i < j ==> is_ascii_digit(#[trigger] s@[i]),
        j < s@.len() ==> !is_ascii_digit(s@[j as int]),
{
    let mut j = from;
    while j < s.len() && is_digit(s[j])
        invariant
            from <= j <= s@.len(),
            forall|i: int| from <= i < j ==> is_ascii_digit(#[trigger] s@[i]),
        decreases s@.len() - j,
    {
        j = j + 1;
    }
    j
}

/// Where a bracketed key starting at `p` ends, if one does; it can end in one place only.
fn bracketed_key_at(s: &[char], p: usize) -> (r: Option<usize>)
    requires
        p < s@.len(),
    ensures
        match r {
            Some(e) => bracketed_key(s@, p as int, e as int)
                && forall|f: int| f != e ==> !#[trigger] bracketed_key(s@, p as int, f),
            None => forall|f: int| !#[trigger] bracketed_key(s@, p as int, f),
        },
{
    if s[p] != '[' {
        return None;
    }
    let h = skip_letters(s, p + 1);
    let ok_dash = h > p + 1 && h < s.len() && s[h] == '-';
    if !ok_dash {
        proof {
            assert forall|f: int| !#[trigger] bracketed_key(s@, p as int, f) by {
                if bracketed_key(s@, p as int, f) {
                    let sub = s@.subrange(p + 1, f);
                    let hh = choose|hh: int| #[trigger] key_split_at(sub, hh);
                    // the letters of the key run up to its dash, so the dash sits at `h`
                    if p + 1 + hh < h {
                        assert(is_ascii_letter(s@[p + 1 + hh]));
                        assert(sub[hh] == s@[p + 1 + hh]);
                    } else if p + 1 + hh > h {
                        assert(sub[h - p - 1] == s@[h as int]);
                    }
                }
            }
        }
        return None;
    }
    let e = skip_digits(s, h + 1);
    let ok_close = e > h + 1 && e < s.len() && s[e] == ']';
    proof {
        assert forall|f: int| #[trigger] bracketed_key(s@, p as int, f) implies f == e by {
            let sub = s@.subrange(p + 1, f);
            let hh = choose|hh: int| #[trigger] key_split_at(sub, hh);
            if p + 1 + hh < h {
                assert(sub[hh] == s@[p + 1 + hh]);
            } else if p + 1 + hh > h {
                assert(sub[h - p - 1] == s@[h as int]);
            }
            assert(p + 1 + hh == h);
            if f < e {
                assert(sub[f - p - 1] == s@[f]);
                assert(is_ascii_digit(s@[f]));
            } else if f > e {
                assert(sub[e - p - 1] == s@[e as int]);
            }
        }
    }
    if !ok_close {
        return None;
    }
    proof {
        let sub = s@.subrange(p + 1, e as int);
        assert(key_split_at(sub, h - p - 1));
    }
    Some(e)
}

/// Whether the whole of `s` is an issue key.
fn is_issue_key_exec(s: &[char]) -> (b: bool)
    ensures
        b == is_issue_key(s@),
{
    let h = skip_letters(s, 0);
    if !(h > 0 && h < s.len() && s[h] == '-') {
        proof {
            assert forall|hh: int| !#[trigger] key_split_at(s@, hh) by {
                if key_split_at(s@, hh) {
                    if hh < h {
                        assert(is_ascii_letter(s@[hh]));
                    } else if hh > h {
                        assert(is_ascii_letter(s@[h as int]));
                    }
                }
            }
        }
        return false;
    }
    let e = skip_digits(s, h + 1);
    if e > h + 1 && e == s.len() {
        assert(key_split_at(s@, h as int));
        true
    } else {
        proof {
            assert forall|hh: int| !#[trigger] key_split_at(s@, hh) by {
                if key_split_at(s@, hh) {
                    if hh < h {
                        assert(is_ascii_letter(s@[hh]));
                    } else if hh > h {
                        assert(is_ascii_letter(s@[h as int]));
                    }
                    if e < s@.len() {
                        assert(is_ascii_digit(s@[e as int]));
                    }
                }
            }
        }
        false
    }
}

/// Reads the issue key the user typed when linking a meeting: blank input
/// skips; `[KEY]` anywhere in the input (the first one) gives that key, as
/// offered by the suggestions list; otherwise the input must be a bare key.
pub fn parse_issue_key_input(input: &str) -> (key: Option<String>)
    ensures
        match key {
            Some(k) => spec_parse_issue_input(input@) == Some(k@),
            None => spec_parse_issue_input(input@) is None,
        },
{
    let s = chars_of(input);
    if is_blank(s.as_slice()) {
        return None;
    }
    let mut p: usize = 0;
    while p < s.len()
        invariant
            0 <= p <= s@.len(),
            s@ == input@,
            !all_whitespace(s@),
            forall|q: int, f: int| q < p ==> !#[trigger] bracketed_key(s@, q, f),
        decreases s@.len() - p,
    {
        match bracketed_key_at(s.as_slice(), p) {
            Some(e) => {
                proof {
                    assert(first_bracketed_key(s@, p as int, e as int));
                    let pair = choose|cp: int, ce: int| #[trigger] first_bracketed_key(s@, cp, ce);
                    let cp = pair.0;
                    let ce = pair.1;
                    assert(first_bracketed_key(s@, cp, ce));
                    assert(cp == p as int) by {
                        if cp < p {
                            assert(!bracketed_key(s@, cp, ce));
                        } else if cp > p {
                            assert(!bracketed_key(s@, p as int, e as int));
                        }
                    }
                    assert(ce == e as int);
                    assert(!all_whitespace(input@));
                    assert(spec_parse_issue_input(input@) == Some(s@.subrange(p + 1, e as int)));
                }
                let mut out: Vec<char> = Vec::new();
                let mut i: usize = p + 1;
                while i < e
                    invariant
                        p + 1 <= i <= e,
                        e < s@.len(),
                        out@ == s@.subrange(p + 1, i as int),
                    decreases e - i,
                {
                    out.push(s[i]);
                    assert(s@.subrange(p + 1, i + 1) =~= s@.subrange(p + 1, i as int).push(s@[i as int]));
                    i = i + 1;
                }
                return Some(string_from_chars(out.as_slice()));
            },
            None => {},
        }
        p = p + 1;
    }
    proof {
        assert forall|cp: int, ce: int| !#[trigger] first_bracketed_key(s@, cp, ce) by {
            if first_bracketed_key(s@, cp, ce) {
                assert(cp < s@.len());
                assert(!bracketed_key(s@, cp, ce));
            }
        }
    }
    if is_issue_key_exec(s.as_slice()) {
        Some(string_from_chars(s.as_slice()))
    } else {
        None
    }
}

} // verus!

verus! {

proof fn lemma_key_chars(k: Seq<char>, i: int)
    requires
        is_issue_key(k),
        0 <= i < k.len(),
    ensures
        k[i] != '[' && k[i] != ']' && !is_whitespace_like(k[i]),
{
    let h = choose|h: int| #[trigger] key_split_at(k, h);
    if i < h {
        assert(is_ascii_letter(k[i]));
    } else if i > h {
        assert(is_ascii_digit(k[i]));
    }
}

/// Letters, digits and `-` (what keys are made of) are never whitespace.
pub open spec fn is_whitespace_like(c: char) -> bool {
    !(is_ascii_letter(c) || is_ascii_digit(c) || c == '-')
}

/// A suggestion as the issue list offers it, `[KEY] summary`, reads back as KEY.
pub proof fn law_suggestion_parses_to_key(key: Seq<char>, summary: Seq<char>)
    requires
        is_issue_key(key),
    ensures
        spec_parse_issue_input(seq!['['] + key + seq![']', ' '] + summary) == Some(key),
{
    let s = seq!['['] + key + seq![']', ' '] + summary;
    let e: int = key.len() as int + 1;
    assert(s[0] == '[');
    assert(s[e] == ']');
    assert(s.subrange(1, e) =~= key);
    assert(bracketed_key(s, 0, e));
    assert(first_bracketed_key(s, 0, e));
    assert(!crate::text::is_whitespace_char(s[0]));
    let pair = choose|cp: int, ce: int| #[trigger] first_bracketed_key(s, cp, ce);
    assert(first_bracketed_key(s, pair.0, pair.1));
    assert(pair.0 == 0) by {
        if pair.0 > 0 {
            assert(!bracketed_key(s, 0, e));
        }
    }
    assert(pair.1 == e) by {
        let f = pair.1;
        if f < e {
            assert(s[f] == key[f - 1]);
            lemma_key_chars(key, f - 1);
        } else if f > e {
            let sub = s.subrange(1, f);
            assert(sub[e - 1] == ']');
            lemma_key_chars(sub, e - 1);
        }
    }
}

} // verus!

verus! {

/// A bare issue key reads as itself.
pub proof fn law_bare_key_parses_to_itself(key: Seq<char>)
    requires
        is_issue_key(key),
    ensures
        spec_parse_issue_input(key) == Some(key),
{
    let h = choose|h: int| #[trigger] key_split_at(key, h);
    assert(is_ascii_letter(key[0]));
    assert(!crate::text::is_whitespace_char(key[0]));
    assert forall|p: int, e: int| !#[trigger] first_bracketed_key(key, p, e) by {
        if first_bracketed_key(key, p, e) {
            lemma_key_chars(key, p);
        }
    }
}

/// The quotient of `a` by `b` rounded toward zero, as Rust's `/` gives it.
pub open spec fn quot_toward_zero(a: int, b: int) -> int {
    if a >= 0 { a / b } else { -((-a) / b) }
}

/// The remainder that goes with `quot_toward_zero`: it has the sign of `a`,
/// as Rust's `%` gives it.
pub open spec fn rem_toward_zero(a: int, b: int) -> int {
    a - b * quot_toward_zero(a, b)
}

/// `n` as the format `{:02}` writes it: zero-padded to two characters,
/// after the sign where there is one.
pub open spec fn two_digits(n: int) -> Seq<char> {
    if 0 <= n < 10 { "0"@ + decimal(n as nat) } else { signed_decimal(n) }
}

/// A meeting's length of `minutes` minutes as shown in its details: whole
/// hours, then the minutes left over in two digits, such as `1h 05m`.
pub open spec fn spec_duration_label(minutes: int) -> Seq<char> {
    signed_decimal(quot_toward_zero(minutes, 60)) + "h "@ + two_digits(rem_toward_zero(minutes, 60)) + "m"@
}

/// The length of a meeting, `minutes` minutes from start to end, as its
/// details show it.
pub fn duration_label(minutes: i64) -> (t: String)
    ensures
        t@ == spec_duration_label(minutes as int),
{
    let negative = minutes < 0;
    let magnitude: u64 = if minutes == i64::MIN {
        9223372036854775808u64
    } else if negative {
        (-minutes) as u64
    } else {
        minutes as u64
    };
    let h = magnitude / 60;
    let r = magnitude % 60;
    let mut t = String::new();
    if negative && h > 0 {
        t.append("-");
    }
    t.append(decimal_string(h).as_str());
    t.append("h ");
    if negative && r > 0 {
        t.append("-");
    } else if r < 10 {
        t.append("0");
    }
    t.append(decimal_string(r).as_str());
    t.append("m");
    proof {
        let m = minutes as int;
        assert(magnitude as int == if m >= 0 { m } else { -m });
        if negative {
            assert(quot_toward_zero(m, 60) == -(h as int));
            assert(rem_toward_zero(m, 60) == -(r as int));
        } else {
            assert(quot_toward_zero(m, 60) == h as int);
            assert(rem_toward_zero(m, 60) == r as int);
        }
    }
    t
}

/// `s` with every trailing `c` removed (as `str::trim_end_matches` with a
/// character does).
pub open spec fn trim_trailing(s: Seq<char>, c: char) -> Seq<char>
    decreases s.len(),
{
    if s.len() > 0 && s.last() == c { trim_trailing(s.drop_last(), c) } else { s }
}

/// The address of issue `key` in the Jira at `base_url`, whose trailing
/// slashes are dropped.
pub open spec fn spec_browse_url(base_url: Seq<char>, key: Seq<char>) -> Seq<char> {
    trim_trailing(base_url, '/') + "/browse/"@ + key
}

/// The address at which the linked issue opens in Jira.
pub fn browse_url(base_url: &str, key: &str) -> (url: String)
    ensures
        url@ == spec_browse_url(base_url@, key@),
{
    let chars = chars_of(base_url);
    let mut end: usize = chars.len();
    assert(chars@.take(end as int) =~= chars@);
    while end > 0 && chars[end - 1] == '/'
        invariant
            0 <= end <= chars@.len(),
            chars@ == base_url@,
            trim_trailing(base_url@, '/') == trim_trailing(chars@.take(end as int), '/'),
        decreases end,
    {
        assert(chars@.take(end as int).drop_last() =~= chars@.take(end - 1));
        end = end - 1;
    }
    let mut out: Vec<char> = Vec::new();
    let mut i: usize = 0;
    while i < end
        invariant
            0 <= i <= end <= chars@.len(),
            out@ == chars@.take(i as int),
        decreases end - i,
    {
        out.push(chars[i]);
        assert(chars@.take(i + 1) =~= chars@.take(i as int).push(chars@[i as int]));
        i = i + 1;
    }
    let mut url = string_from_chars(out.as_slice());
    url.append("/browse/");
    url.append(key);
    url
}

} // verus!
