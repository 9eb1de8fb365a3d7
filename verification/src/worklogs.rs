use vstd::prelude::*;
use crate::activity::{jira_has_id, JiraWorklogEntry, LocalWorklogEntry, LocalWorklogState};
use crate::descriptions::{find_from, lemma_find_from, lemma_find_from_at};
use crate::text::{
    char_is_whitespace, chars_of, decimal, decimal_string, digit_char, has_prefix, is_whitespace_char, starts_with, str_equal,
    string_from_chars, views,
};

verus! {

proof fn lemma_push_keeps(s: Seq<usize>, x: usize)
    ensures
        forall|y: usize| s.contains(y) ==> #[trigger] s.push(x).contains(y),
        s.push(x).contains(x),
{
    assert forall|y: usize| s.contains(y) implies #[trigger] s.push(x).contains(y) by {
        let k = choose|k: int| 0 <= k < s.len() && s[k] == y;
        assert(s.push(x)[k] == y);
    }
    assert(s.push(x)[s.len() as int] == x);
}

/// Counts of local worklogs by state, and their total time.
#[derive(Debug, Clone, Copy, PartialEq, Eq, Structural)]
pub struct WorklogStats {
    pub created: usize,
    pub staged: usize,
    pub pushed: usize,
    pub total_seconds: i128,
}

/// Number of worklogs in state `state`.
pub open spec fn count_in_state(worklogs: Seq<LocalWorklogEntry>, state: LocalWorklogState) -> nat
    decreases worklogs.len(),
{
    if worklogs.len() == 0 {
        0
    } else {
        count_in_state(worklogs.drop_last(), state) + if worklogs.last().status == state { 1nat } else { 0nat }
    }
}

/// Total time of the worklogs.
pub open spec fn total_seconds(worklogs: Seq<LocalWorklogEntry>) -> int
    decreases worklogs.len(),
{
    if worklogs.len() == 0 { 0 } else { total_seconds(worklogs.drop_last()) + worklogs.last().seconds }
}

proof fn lemma_total_bounds(worklogs: Seq<LocalWorklogEntry>)
    ensures
        -(worklogs.len() * 0x8000_0000_0000_0000) <= total_seconds(worklogs) <= worklogs.len() * 0x8000_0000_0000_0000,
    decreases worklogs.len(),
{
    if worklogs.len() > 0 {
        lemma_total_bounds(worklogs.drop_last());
    }
}

proof fn lemma_counts_bounded(worklogs: Seq<LocalWorklogEntry>)
    ensures
        count_in_state(worklogs, LocalWorklogState::Created) + count_in_state(worklogs, LocalWorklogState::Staged)
            + count_in_state(worklogs, LocalWorklogState::Pushed) == worklogs.len(),
    decreases worklogs.len(),
{
    if worklogs.len() > 0 {
        lemma_counts_bounded(worklogs.drop_last());
    }
}

/// Counts the worklogs of each state and sums their time.
pub fn compute_worklogs_stats(worklogs: &[LocalWorklogEntry]) -> (stats: WorklogStats)
    requires
        worklogs@.len() < 0x1_0000_0000_0000_0000,
    ensures
        stats.created == count_in_state(worklogs@, LocalWorklogState::Created),
        stats.staged == count_in_state(worklogs@, LocalWorklogState::Staged),
        stats.pushed == count_in_state(worklogs@, LocalWorklogState::Pushed),
        stats.total_seconds == total_seconds(worklogs@),
{
    let mut stats = WorklogStats { created: 0, staged: 0, pushed: 0, total_seconds: 0 };
    let mut i: usize = 0;
    while i < worklogs.len()
        invariant
            0 <= i <= worklogs@.len(),
            worklogs@.len() < 0x1_0000_0000_0000_0000,
            stats.created == count_in_state(worklogs@.take(i as int), LocalWorklogState::Created),
            stats.staged == count_in_state(worklogs@.take(i as int), LocalWorklogState::Staged),
            stats.pushed == count_in_state(worklogs@.take(i as int), LocalWorklogState::Pushed),
            stats.total_seconds == total_seconds(worklogs@.take(i as int)),
        decreases worklogs@.len() - i,
    {
        proof {
            assert(worklogs@.take(i as int + 1).drop_last() =~= worklogs@.take(i as int));
            lemma_total_bounds(worklogs@.take(i as int));
            lemma_counts_bounded(worklogs@.take(i as int));
        }
        match worklogs[i].status {
            LocalWorklogState::Created => stats.created = stats.created + 1,
            LocalWorklogState::Staged => stats.staged = stats.staged + 1,
            LocalWorklogState::Pushed => stats.pushed = stats.pushed + 1,
        }
        stats.total_seconds = stats.total_seconds + worklogs[i].seconds as i128;
        i = i + 1;
    }
    proof {
        assert(worklogs@.take(worklogs@.len() as int) =~= worklogs@);
    }
    stats
}

/// A local worklog duplicates a Jira worklog when the Jira worklog it was pushed to is in the Jira records.
pub open spec fn is_duplicate(local: LocalWorklogEntry, jira: Seq<JiraWorklogEntry>) -> bool {
    match local.worklog_id {
        Some(w) => jira_has_id(jira, w@),
        None => false,
    }
}

/// Positions of the local worklogs that duplicate Jira worklogs, in order.
pub fn find_duplicate_worklogs(local: &[LocalWorklogEntry], jira: &[JiraWorklogEntry]) -> (found: Vec<usize>)
    ensures
        forall|k: int| 0 <= k < found@.len() ==> (#[trigger] found@[k]) < local@.len() && is_duplicate(local@[found@[k] as int], jira@),
        forall|i: int| 0 <= i < local@.len() && is_duplicate(#[trigger] local@[i], jira@) ==> found@.contains(i as usize),
        forall|a: int, b: int| 0 <= a < b < found@.len() ==> found@[a] < found@[b],
{
    let mut found: Vec<usize> = Vec::new();
    let mut i: usize = 0;
    while i < local.len()
        invariant
            0 <= i <= local@.len(),
            forall|k: int| 0 <= k < found@.len() ==> (#[trigger] found@[k]) < i && is_duplicate(local@[found@[k] as int], jira@),
            forall|j: int| 0 <= j < i && is_duplicate(#[trigger] local@[j], jira@) ==> found@.contains(j as usize),
            forall|a: int, b: int| 0 <= a < b < found@.len() ==> found@[a] < found@[b],
        decreases local@.len() - i,
    {
        let dup = match &local[i].worklog_id {
            Some(w) => {
                let mut hit = false;
                let mut j: usize = 0;
                while j < jira.len()
                    invariant
                        0 <= j <= jira@.len(),
                        hit == exists|q: int| 0 <= q < j && (#[trigger] jira@[q]).id@ == w@,
                    decreases jira@.len() - j,
                {
                    if str_equal(jira[j].id.as_str(), w.as_str()) {
                        hit = true;
                    }
                    j = j + 1;
                }
                hit
            },
            None => false,
        };
        if dup {
            proof {
                lemma_push_keeps(found@, i);
            }
            found.push(i);
            assert(found@[found@.len() - 1] == i);
        }
        i = i + 1;
    }
    found
}

/// How a day of a sprint looks in `sprint status`.
#[derive(Debug, Clone, Copy, PartialEq, Eq, Structural)]
pub enum DayStatus {
    /// Under 7 hours: this much is missing.
    Missing { hours: i64, minutes: i64 },
    /// From 7 up to 8 hours.
    Good,
    /// 8 hours or more.
    Overload,
}

/// The status of a day on which `seconds` were logged (7 hours expected, 8 at most).
pub open spec fn spec_day_status(seconds: int) -> DayStatus {
    if seconds < 25200 {
        let missing = 25200 - seconds;
        DayStatus::Missing { hours: (missing / 3600) as i64, minutes: ((missing / 60) % 60) as i64 }
    } else if seconds < 28800 {
        DayStatus::Good
    } else {
        DayStatus::Overload
    }
}

/// Classifies a day of a sprint by the time logged on it.
pub fn day_status(seconds: i64) -> (status: DayStatus)
    requires
        seconds >= 0,
    ensures
        status == spec_day_status(seconds as int),
{
    if seconds < 25200 {
        let missing = 25200 - seconds;
        DayStatus::Missing { hours: missing / 3600, minutes: (missing / 60) % 60 }
    } else if seconds < 28800 {
        DayStatus::Good
    } else {
        DayStatus::Overload
    }
}

/// How the time spent on a sprint compares with its expected 7 hours per workday.
#[derive(Debug, Clone, Copy, PartialEq, Eq, Structural)]
pub enum SpentLevel {
    /// Below 90% of the expected time.
    Low,
    /// At least 90% but below the expected time.
    Partial,
    /// The expected time or more.
    Complete,
}

pub open spec fn spec_spent_level(workdays: int, seconds: int) -> SpentLevel {
    let expected = workdays * 7 * 3600;
    let minimum = expected * 9 / 10;
    if seconds < minimum {
        SpentLevel::Low
    } else if seconds < expected {
        SpentLevel::Partial
    } else {
        SpentLevel::Complete
    }
}

/// Grades the time spent on a sprint of `workdays` workdays.
pub fn time_spent_level(workdays: i64, seconds: u64) -> (level: SpentLevel)
    requires
        0 <= workdays,
        workdays * 7 * 3600 * 9 <= u64::MAX,
    ensures
        level == spec_spent_level(workdays as int, seconds as int),
{
    let expected = workdays as u64 * 7 * 3600;
    let minimum = expected * 9 / 10;
    if seconds < minimum {
        SpentLevel::Low
    } else if seconds < expected {
        SpentLevel::Partial
    } else {
        SpentLevel::Complete
    }
}

/// Whole hours in a push: the worklogs' total time, counted as zero when negative, in whole hours.
pub open spec fn spec_hours_in_push(seconds: Seq<i64>) -> int
    decreases seconds.len(),
{
    let total = seq_sum(seconds);
    if total < 0 { 0 } else { total / 3600 }
}

pub open spec fn seq_sum(s: Seq<i64>) -> int
    decreases s.len(),
{
    if s.len() == 0 { 0 } else { seq_sum(s.drop_last()) + s.last() }
}

/// Whole hours logged by the worklogs of a push.
pub fn hours_in_push(seconds: &[i64]) -> (hours: u64)
    requires
        i64::MIN <= seq_sum(seconds@) <= i64::MAX,
        forall|k: int| 0 <= k <= seconds@.len() ==> i64::MIN <= #[trigger] seq_sum(seconds@.take(k)) <= i64::MAX,
    ensures
        hours == spec_hours_in_push(seconds@),
{
    let mut total: i64 = 0;
    let mut i: usize = 0;
    while i < seconds.len()
        invariant
            0 <= i <= seconds@.len(),
            forall|k: int| 0 <= k <= seconds@.len() ==> i64::MIN <= #[trigger] seq_sum(seconds@.take(k)) <= i64::MAX,
            total == seq_sum(seconds@.take(i as int)),
        decreases seconds@.len() - i,
    {
        proof {
            assert(seconds@.take(i as int + 1).drop_last() =~= seconds@.take(i as int));
            assert(i64::MIN <= seq_sum(seconds@.take(i as int + 1)) <= i64::MAX);
        }
        total = total + seconds[i];
        i = i + 1;
    }
    proof {
        assert(seconds@.take(seconds@.len() as int) =~= seconds@);
    }
    if total < 0 { 0 } else { (total as u64) / 3600 }
}

/// Indices of the tiers whose threshold progress went from below to at-or-above.
pub fn crossed_tiers(old: u64, new: u64, thresholds: &[u64]) -> (crossed: Vec<usize>)
    ensures
        forall|k: int| 0 <= k < crossed@.len() ==> (#[trigger] crossed@[k]) < thresholds@.len()
            && old < thresholds@[crossed@[k] as int] && new >= thresholds@[crossed@[k] as int],
        forall|i: int| 0 <= i < thresholds@.len() && old < #[trigger] thresholds@[i] && new >= thresholds@[i]
            ==> crossed@.contains(i as usize),
        forall|a: int, b: int| 0 <= a < b < crossed@.len() ==> crossed@[a] < crossed@[b],
{
    let mut crossed: Vec<usize> = Vec::new();
    let mut i: usize = 0;
    while i < thresholds.len()
        invariant
            0 <= i <= thresholds@.len(),
            forall|k: int| 0 <= k < crossed@.len() ==> (#[trigger] crossed@[k]) < i
                && old < thresholds@[crossed@[k] as int] && new >= thresholds@[crossed@[k] as int],
            forall|j: int| 0 <= j < i && old < #[trigger] thresholds@[j] && new >= thresholds@[j]
                ==> crossed@.contains(j as usize),
            forall|a: int, b: int| 0 <= a < b < crossed@.len() ==> crossed@[a] < crossed@[b],
        decreases thresholds@.len() - i,
    {
        if old < thresholds[i] && new >= thresholds[i] {
            proof {
                lemma_push_keeps(crossed@, i);
            }
            crossed.push(i);
            assert(crossed@[crossed@.len() - 1] == i);
        }
        i = i + 1;
    }
    crossed
}

/// Whether the `idx`-th of `total` deletions reports progress: every tenth, and the last.
pub fn should_report_progress(idx: usize, total: usize) -> (b: bool)
    requires
        idx < total,
    ensures
        b == ((idx + 1) % 10 == 0 || idx + 1 == total),
{
    (idx + 1) % 10 == 0 || idx + 1 == total
}

/// A Jira worklog belongs to the sprint clearing when it is the user's and dated within the sprint.
pub open spec fn clears_jira(w: JiraWorklogEntry, start: i32, end: i32, me: Seq<char>) -> bool {
    start <= w.day <= end && w.author@ == me
}

/// Positions of the Jira worklogs of `me` dated within `start..=end`, in order.
pub fn sprint_jira_worklogs(jira: &[JiraWorklogEntry], start: i32, end: i32, me: &str) -> (found: Vec<usize>)
    ensures
        forall|k: int| 0 <= k < found@.len() ==> (#[trigger] found@[k]) < jira@.len() && clears_jira(jira@[found@[k] as int], start, end, me@),
        forall|i: int| 0 <= i < jira@.len() && clears_jira(#[trigger] jira@[i], start, end, me@) ==> found@.contains(i as usize),
        forall|a: int, b: int| 0 <= a < b < found@.len() ==> found@[a] < found@[b],
{
    let mut found: Vec<usize> = Vec::new();
    let mut i: usize = 0;
    while i < jira.len()
        invariant
            0 <= i <= jira@.len(),
            forall|k: int| 0 <= k < found@.len() ==> (#[trigger] found@[k]) < i && clears_jira(jira@[found@[k] as int], start, end, me@),
            forall|j: int| 0 <= j < i && clears_jira(#[trigger] jira@[j], start, end, me@) ==> found@.contains(j as usize),
            forall|a: int, b: int| 0 <= a < b < found@.len() ==> found@[a] < found@[b],
        decreases jira@.len() - i,
    {
        if start <= jira[i].day && jira[i].day <= end && str_equal(jira[i].author.as_str(), me) {
            proof {
                lemma_push_keeps(found@, i);
            }
            found.push(i);
            assert(found@[found@.len() - 1] == i);
        }
        i = i + 1;
    }
    found
}

/// Positions of the local worklogs dated within `start..=end`, in order.
pub fn sprint_local_worklogs(local: &[LocalWorklogEntry], start: i32, end: i32) -> (found: Vec<usize>)
    ensures
        forall|k: int| 0 <= k < found@.len() ==> (#[trigger] found@[k]) < local@.len() && start <= local@[found@[k] as int].day <= end,
        forall|i: int| 0 <= i < local@.len() && start <= (#[trigger] local@[i]).day <= end ==> found@.contains(i as usize),
        forall|a: int, b: int| 0 <= a < b < found@.len() ==> found@[a] < found@[b],
{
    let mut found: Vec<usize> = Vec::new();
    let mut i: usize = 0;
    while i < local.len()
        invariant
            0 <= i <= local@.len(),
            forall|k: int| 0 <= k < found@.len() ==> (#[trigger] found@[k]) < i && start <= local@[found@[k] as int].day <= end,
            forall|j: int| 0 <= j < i && start <= (#[trigger] local@[j]).day <= end ==> found@.contains(j as usize),
            forall|a: int, b: int| 0 <= a < b < found@.len() ==> found@[a] < found@[b],
        decreases local@.len() - i,
    {
        if start <= local[i].day && local[i].day <= end {
            proof {
                lemma_push_keeps(found@, i);
            }
            found.push(i);
            assert(found@[found@.len() - 1] == i);
        }
        i = i + 1;
    }
    found
}

/// Whether the ids given on the command line ask for every worklog: one of them is `all`.
pub open spec fn selects_all(ids: Seq<Seq<char>>) -> bool {
    ids.len() > 0 && ids.contains("all"@)
}

/// A worklog is selected by the ids when all are selected or its id starts with one of them.
pub open spec fn selected_by(worklog_id: Seq<char>, ids: Seq<Seq<char>>) -> bool {
    selects_all(ids) || exists|k: int| 0 <= k < ids.len() && has_prefix(worklog_id, #[trigger] ids[k])
}

fn contains_all(ids: &[String]) -> (b: bool)
    ensures
        b == views(ids@).contains("all"@),
{
    let mut k: usize = 0;
    while k < ids.len()
        invariant
            0 <= k <= ids@.len(),
            forall|j: int| 0 <= j < k ==> (#[trigger] ids@[j])@ != "all"@,
        decreases ids@.len() - k,
    {
        if str_equal(ids[k].as_str(), "all") {
            assert(views(ids@)[k as int] == "all"@);
            return true;
        }
        k = k + 1;
    }
    proof {
        if views(ids@).contains("all"@) {
            let j = choose|j: int| 0 <= j < views(ids@).len() && views(ids@)[j] == "all"@;
            assert(ids@[j]@ == "all"@);
        }
    }
    false
}

/// Positions of the worklogs that `worklog add` / `worklog rm` act on: all of
/// them when one id is `all`, else those whose id starts with one of the ids.
pub fn select_worklogs(worklog_ids: &[String], ids: &[String]) -> (found: Vec<usize>)
    ensures
        forall|k: int| 0 <= k < found@.len() ==> (#[trigger] found@[k]) < worklog_ids@.len()
            && selected_by(worklog_ids@[found@[k] as int]@, views(ids@)),
        forall|i: int| 0 <= i < worklog_ids@.len() && selected_by((#[trigger] worklog_ids@[i])@, views(ids@))
            ==> found@.contains(i as usize),
        forall|a: int, b: int| 0 <= a < b < found@.len() ==> found@[a] < found@[b],
{
    let all = ids.len() > 0 && contains_all(ids);
    let mut found: Vec<usize> = Vec::new();
    let mut i: usize = 0;
    while i < worklog_ids.len()
        invariant
            0 <= i <= worklog_ids@.len(),
            all == selects_all(views(ids@)),
            forall|k: int| 0 <= k < found@.len() ==> (#[trigger] found@[k]) < i
                && selected_by(worklog_ids@[found@[k] as int]@, views(ids@)),
            forall|j: int| 0 <= j < i && selected_by((#[trigger] worklog_ids@[j])@, views(ids@)) ==> found@.contains(j as usize),
            forall|a: int, b: int| 0 <= a < b < found@.len() ==> found@[a] < found@[b],
        decreases worklog_ids@.len() - i,
    {
        let mut hit = all;
        let mut k: usize = 0;
        while k < ids.len() && !hit
            invariant
                0 <= k <= ids@.len(),
                i < worklog_ids@.len(),
                hit ==> selected_by(worklog_ids@[i as int]@, views(ids@)),
                !hit ==> !selects_all(views(ids@)),
                !hit ==> forall|j: int| 0 <= j < k ==> !has_prefix(worklog_ids@[i as int]@, #[trigger] views(ids@)[j]),
            decreases ids@.len() - k,
        {
            if starts_with(worklog_ids[i].as_str(), ids[k].as_str()) {
                assert(has_prefix(worklog_ids@[i as int]@, views(ids@)[k as int]));
                hit = true;
            }
            k = k + 1;
        }
        if hit {
            proof {
                lemma_push_keeps(found@, i);
            }
            found.push(i);
            assert(found@[found@.len() - 1] == i);
        }
        i = i + 1;
    }
    found
}

/// Whether `sprint rm` was asked to unfollow every sprint: the only id given is `all`.
pub fn is_unfollow_all(ids: &[String]) -> (b: bool)
    ensures
        b == (ids@.len() == 1 && ids@[0]@ == "all"@),
{
    ids.len() == 1 && str_equal(ids[0].as_str(), "all")
}

/// The key of the issue with id `issue_id` among (id, key) pairs, the last
/// pair for that id winning (as when they are collected into a map); the id
/// itself when no pair names it.
pub open spec fn spec_issue_key_for(issue_id: Seq<char>, pairs: Seq<(String, String)>) -> Seq<char>
    decreases pairs.len(),
{
    if pairs.len() == 0 {
        issue_id
    } else if pairs.last().0@ == issue_id {
        pairs.last().1@
    } else {
        spec_issue_key_for(issue_id, pairs.drop_last())
    }
}

/// The issue key Jira's worklog API needs for an issue id.
pub fn issue_key_for(issue_id: &str, pairs: &[(String, String)]) -> (key: String)
    ensures
        key@ == spec_issue_key_for(issue_id@, pairs@),
{
    let mut i = pairs.len();
    assert(pairs@.take(pairs@.len() as int) == pairs@);
    while i > 0
        invariant
            i <= pairs@.len(),
            spec_issue_key_for(issue_id@, pairs@) == spec_issue_key_for(issue_id@, pairs@.take(i as int)),
        decreases i,
    {
        proof {
            assert(pairs@.take(i as int).drop_last() == pairs@.take(i - 1));
            assert(pairs@.take(i as int).last() == pairs@[i - 1]);
        }
        if str_equal(pairs[i - 1].0.as_str(), issue_id) {
            return pairs[i - 1].1.clone();
        }
        i = i - 1;
    }
    assert(pairs@.take(0) == Seq::<(String, String)>::empty());
    issue_id.to_string()
}

/// The URL that deletes a worklog through Jira's REST API.
pub open spec fn spec_delete_url(base_url: Seq<char>, issue_key: Seq<char>, worklog_id: Seq<char>) -> Seq<char> {
    base_url + "/rest/api/3/issue/"@ + issue_key + "/worklog/"@ + worklog_id
}

/// The DELETE URL of a worklog.
pub fn worklog_delete_url(base_url: &str, issue_key: &str, worklog_id: &str) -> (url: String)
    ensures
        url@ == spec_delete_url(base_url@, issue_key@, worklog_id@),
{
    broadcast use vstd::string::group_string_axioms;
    proof {
        reveal_strlit("/rest/api/3/issue/");
        reveal_strlit("/worklog/");
    }
    let mut url = base_url.to_string();
    url.append("/rest/api/3/issue/");
    url.append(issue_key);
    url.append("/worklog/");
    url.append(worklog_id);
    url
}

/// `s` without its leading whitespace.
pub open spec fn trim_start_ws(s: Seq<char>) -> Seq<char>
    decreases s.len(),
{
    if s.len() > 0 && is_whitespace_char(s[0]) { trim_start_ws(s.drop_first()) } else { s }
}

/// `s` without its trailing whitespace.
pub open spec fn trim_end_ws(s: Seq<char>) -> Seq<char>
    decreases s.len(),
{
    if s.len() > 0 && is_whitespace_char(s.last()) { trim_end_ws(s.drop_last()) } else { s }
}

/// `s` without leading and trailing whitespace (as `str::trim`).
pub open spec fn trimmed(s: Seq<char>) -> Seq<char> {
    trim_end_ws(trim_start_ws(s))
}

/// `s` without leading and trailing whitespace.
pub fn trim_chars(s: &str) -> (t: Vec<char>)
    ensures
        t@ == trimmed(s@),
{
    let chars = chars_of(s);
    let mut start: usize = 0;
    assert(chars@.skip(0) == chars@);
    while start < chars.len() && char_is_whitespace(chars[start])
        invariant
            start <= chars@.len(),
            trim_start_ws(chars@) == trim_start_ws(chars@.skip(start as int)),
        decreases chars@.len() - start,
    {
        proof {
            assert(chars@.skip(start as int).drop_first() == chars@.skip(start as int + 1));
        }
        start = start + 1;
    }
    let mut end = chars.len();
    let ghost front = chars@.skip(start as int);
    assert(trim_start_ws(chars@) == front) by {
        if start < chars@.len() {
            assert(front[0] == chars@[start as int]);
        } else {
            assert(front.len() == 0);
        }
    }
    while end > start && char_is_whitespace(chars[end - 1])
        invariant
            start <= end <= chars@.len(),
            front == chars@.skip(start as int),
            trim_end_ws(front) == trim_end_ws(chars@.subrange(start as int, end as int)),
        decreases end - start,
    {
        proof {
            assert(chars@.subrange(start as int, end as int).drop_last() == chars@.subrange(start as int, end - 1));
        }
        end = end - 1;
    }
    proof {
        assert(chars@.subrange(start as int, chars@.len() as int) == front);
    }
    let mut out: Vec<char> = Vec::new();
    let mut k = start;
    while k < end
        invariant
            start <= k <= end <= chars@.len(),
            out@ == chars@.subrange(start as int, k as int),
        decreases end - k,
    {
        out.push(chars[k]);
        proof {
            assert(chars@.subrange(start as int, k + 1) == chars@.subrange(start as int, k as int).push(chars@[k as int]));
        }
        k = k + 1;
    }
    proof {
        let mid = chars@.subrange(start as int, end as int);
        if mid.len() > 0 {
            assert(mid.last() == chars@[end - 1]);
        }
    }
    out
}

/// Whether the typed confirmation is the sprint's name, surrounding whitespace aside.
pub fn confirms_sprint_name(input: &str, sprint_name: &str) -> (b: bool)
    ensures
        b == (trimmed(input@) == sprint_name@),
{
    let t = trim_chars(input);
    let name = chars_of(sprint_name);
    crate::text::chars_equal(t.as_slice(), name.as_slice())
}

/// What clearing a sprint's worklogs does first.
pub enum ClearPlan {
    /// The sprint has no worklog to clear.
    Nothing,
    /// A dry run, which deletes nothing: `preview_urls` are the DELETE URLs
    /// of the first five Jira worklogs, `more` tells that there are others.
    DryRun { preview_urls: Vec<String>, more: bool },
    /// Deleting waits for the sprint's name to be typed as confirmation.
    Confirm,
}

/// The DELETE URL of the `k`-th chosen Jira worklog.
pub open spec fn chosen_url(
    jira: Seq<JiraWorklogEntry>,
    chosen: Seq<usize>,
    base_url: Seq<char>,
    pairs: Seq<(String, String)>,
    k: int,
) -> Seq<char> {
    spec_delete_url(
        base_url,
        spec_issue_key_for(jira[chosen[k] as int].issue_id@, pairs),
        jira[chosen[k] as int].id@,
    )
}

/// How many DELETE URLs a dry run shows: five at most.
pub open spec fn preview_count(n: int) -> int {
    if n < 5 { n } else { 5 }
}

/// Plans the clearing of a sprint: `chosen` are the positions in `jira` of
/// the sprint's Jira worklogs, `local_count` the number of its local ones.
/// With no worklog there is nothing to do; a dry run previews the first five
/// DELETE URLs and deletes nothing; otherwise deletion waits for confirmation.
pub fn plan_clear(
    jira: &[JiraWorklogEntry],
    chosen: &[usize],
    local_count: usize,
    dry_run: bool,
    base_url: &str,
    pairs: &[(String, String)],
) -> (plan: ClearPlan)
    requires
        forall|k: int| 0 <= k < chosen@.len() ==> (#[trigger] chosen@[k]) < jira@.len(),
    ensures
        plan is Nothing <==> chosen@.len() == 0 && local_count == 0,
        plan is DryRun <==> !(chosen@.len() == 0 && local_count == 0) && dry_run,
        plan is Confirm <==> !(chosen@.len() == 0 && local_count == 0) && !dry_run,
        plan matches ClearPlan::DryRun { preview_urls, more } ==> (
            preview_urls@.len() == preview_count(chosen@.len() as int)
            && (forall|k: int| 0 <= k < preview_urls@.len() ==> (#[trigger] preview_urls@[k])@ == chosen_url(jira@, chosen@, base_url@, pairs@, k))
            && more == (chosen@.len() > 5)
        ),
{
    if chosen.len() == 0 && local_count == 0 {
        return ClearPlan::Nothing;
    }
    if !dry_run {
        return ClearPlan::Confirm;
    }
    let mut urls: Vec<String> = Vec::new();
    let mut k: usize = 0;
    while k < chosen.len() && k < 5
        invariant
            0 <= k <= chosen@.len(),
            k <= 5,
            forall|j: int| 0 <= j < chosen@.len() ==> (#[trigger] chosen@[j]) < jira@.len(),
            urls@.len() == k,
            forall|j: int| 0 <= j < k ==> (#[trigger] urls@[j])@ == chosen_url(jira@, chosen@, base_url@, pairs@, j),
        decreases 5 - k,
    {
        let w = &jira[chosen[k]];
        let key = issue_key_for(w.issue_id.as_str(), pairs);
        urls.push(worklog_delete_url(base_url, key.as_str(), w.id.as_str()));
        k = k + 1;
    }
    ClearPlan::DryRun { preview_urls: urls, more: chosen.len() > 5 }
}

/// The worklogs a clearing deletes, given as positions among the sprint's
/// Jira and local worklogs: all of them once `input`, the confirmation typed,
/// is the sprint's name (surrounding whitespace aside); none in a dry run,
/// without a confirmation, or when it is wrong, and the clearing stops.
pub fn clear_deletions(
    dry_run: bool,
    input: Option<&str>,
    sprint_name: &str,
    jira_chosen: Vec<usize>,
    local_chosen: Vec<usize>,
) -> (deleted: Option<(Vec<usize>, Vec<usize>)>)
    ensures
        deleted is Some <==> !dry_run && (input matches Some(t) && trimmed(t@) == sprint_name@),
        deleted matches Some((j, l)) ==> j@ == jira_chosen@ && l@ == local_chosen@,
{
    if dry_run {
        return None;
    }
    match input {
        Some(t) => {
            if confirms_sprint_name(t, sprint_name) {
                Some((jira_chosen, local_chosen))
            } else {
                None
            }
        },
        None => None,
    }
}

/// The state a worklog moves to when its stage is toggled: created and
/// staged swap; a pushed worklog cannot change.
pub open spec fn spec_toggle_stage(state: LocalWorklogState) -> Option<LocalWorklogState> {
    match state {
        LocalWorklogState::Created => Some(LocalWorklogState::Staged),
        LocalWorklogState::Staged => Some(LocalWorklogState::Created),
        LocalWorklogState::Pushed => None,
    }
}

/// Toggles a worklog's stage; `None` for a pushed worklog.
pub fn toggle_stage(state: LocalWorklogState) -> (next: Option<LocalWorklogState>)
    ensures
        next == spec_toggle_stage(state),
{
    match state {
        LocalWorklogState::Created => Some(LocalWorklogState::Staged),
        LocalWorklogState::Staged => Some(LocalWorklogState::Created),
        LocalWorklogState::Pushed => None,
    }
}

/// Toggling a worklog's stage twice leaves it as it was.
pub proof fn law_toggle_twice(state: LocalWorklogState)
    requires
        state != LocalWorklogState::Pushed,
    ensures
        spec_toggle_stage(spec_toggle_stage(state).unwrap()) == Some(state),
{
}

/// The positions among the first `n` worklogs of those created (when
/// `created`) or staged (when `staged`), in order.
pub open spec fn positions_where(worklogs: Seq<LocalWorklogEntry>, created: bool, staged: bool, n: int) -> Seq<usize>
    decreases n,
{
    if n <= 0 {
        Seq::empty()
    } else {
        let rest = positions_where(worklogs, created, staged, n - 1);
        let st = worklogs[n - 1].status;
        if (created && st == LocalWorklogState::Created) || (staged && st == LocalWorklogState::Staged) {
            rest.push((n - 1) as usize)
        } else {
            rest
        }
    }
}

fn positions_with(worklogs: &[LocalWorklogEntry], created: bool, staged: bool) -> (found: Vec<usize>)
    ensures
        found@ == positions_where(worklogs@, created, staged, worklogs@.len() as int),
{
    let mut found: Vec<usize> = Vec::new();
    let mut i: usize = 0;
    while i < worklogs.len()
        invariant
            i <= worklogs@.len(),
            found@ == positions_where(worklogs@, created, staged, i as int),
        decreases worklogs@.len() - i,
    {
        let st = worklogs[i].status;
        if (created && st == LocalWorklogState::Created) || (staged && st == LocalWorklogState::Staged) {
            found.push(i);
        }
        i = i + 1;
    }
    found
}

/// The worklogs a reset deletes: every one not pushed yet (created or staged), by position.
pub fn unpushed_worklogs(worklogs: &[LocalWorklogEntry]) -> (found: Vec<usize>)
    ensures
        found@ == positions_where(worklogs@, true, true, worklogs@.len() as int),
{
    positions_with(worklogs, true, true)
}

/// The worklogs "stage all" stages: the created ones, by position.
pub fn created_worklogs(worklogs: &[LocalWorklogEntry]) -> (found: Vec<usize>)
    ensures
        found@ == positions_where(worklogs@, true, false, worklogs@.len() as int),
{
    positions_with(worklogs, true, false)
}

/// The worklogs a push sends: the staged ones, by position.
pub fn staged_worklogs(worklogs: &[LocalWorklogEntry]) -> (found: Vec<usize>)
    ensures
        found@ == positions_where(worklogs@, false, true, worklogs@.len() as int),
{
    positions_with(worklogs, false, true)
}

/// How sending one worklog to Jira went.
pub enum PushOutcome {
    /// Jira took it, under this worklog id.
    Pushed(String),
    /// Jira answered without a worklog.
    Rejected,
    /// The request failed, with this message.
    Failed(String),
}

/// A push of staged worklogs under way, one worklog after the other.
#[derive(Debug, Clone, Copy, PartialEq, Eq, Structural)]
pub struct PushRun {
    /// Worklogs to push.
    pub total: usize,
    /// Worklogs pushed or failed so far.
    pub done: usize,
    pub succeeded: usize,
    pub failed: usize,
}

impl PushRun {
    /// Every worklog sent so far is counted once, as pushed or as failed.
    pub open spec fn wf(&self) -> bool {
        self.done == self.succeeded + self.failed && self.done <= self.total
    }

    /// The run after one more worklog went as `outcome` went.
    pub open spec fn after(self, outcome: PushOutcome) -> PushRun {
        match outcome {
            PushOutcome::Pushed(_) => PushRun { done: (self.done + 1) as usize, succeeded: (self.succeeded + 1) as usize, ..self },
            _ => PushRun { done: (self.done + 1) as usize, failed: (self.failed + 1) as usize, ..self },
        }
    }

    /// Starts pushing `total` staged worklogs; there is no run without any.
    pub fn start(total: usize) -> (run: Option<PushRun>)
        ensures
            run is None <==> total == 0,
            run matches Some(r) ==> r.wf() && r.total == total && r.done == 0 && r.succeeded == 0 && r.failed == 0,
    {
        if total == 0 {
            None
        } else {
            Some(PushRun { total, done: 0, succeeded: 0, failed: 0 })
        }
    }

    /// Whether every worklog has been sent.
    pub fn is_finished(&self) -> (b: bool)
        ensures
            b == (self.done == self.total),
    {
        self.done == self.total
    }

    /// Counts the next worklog as `outcome` says; gives its position, from 1.
    pub fn record(&mut self, outcome: &PushOutcome) -> (position: usize)
        requires
            old(self).wf(),
            old(self).done < old(self).total,
        ensures
            final(self).wf(),
            *final(self) == old(self).after(*outcome),
            position == final(self).done,
    {
        match outcome {
            PushOutcome::Pushed(_) => {
                self.succeeded = self.succeeded + 1;
            },
            _ => {
                self.failed = self.failed + 1;
            },
        }
        self.done = self.done + 1;
        self.done
    }
}

/// The run after worklogs went as `outcomes` say, one after the other.
pub open spec fn run_after(run: PushRun, outcomes: Seq<PushOutcome>) -> PushRun
    decreases outcomes.len(),
{
    if outcomes.len() == 0 {
        run
    } else {
        run_after(run, outcomes.drop_last()).after(outcomes.last())
    }
}

/// How many of `outcomes` are pushes Jira took.
pub open spec fn pushed_count(outcomes: Seq<PushOutcome>) -> nat
    decreases outcomes.len(),
{
    if outcomes.len() == 0 {
        0
    } else {
        pushed_count(outcomes.drop_last()) + if outcomes.last() is Pushed {
            1nat
        } else {
            0nat
        }
    }
}

/// Once a push of `n` worklogs has had `n` outcomes, every worklog is
/// counted exactly once: the run is finished, and it counts as pushed those
/// Jira took and as failed all the others.
pub proof fn law_push_counts_each_worklog_once(n: usize, outcomes: Seq<PushOutcome>)
    requires
        outcomes.len() == n,
    ensures
        run_after(PushRun { total: n, done: 0, succeeded: 0, failed: 0 }, outcomes).done == n,
        run_after(PushRun { total: n, done: 0, succeeded: 0, failed: 0 }, outcomes).succeeded == pushed_count(outcomes),
        run_after(PushRun { total: n, done: 0, succeeded: 0, failed: 0 }, outcomes).failed == n - pushed_count(outcomes),
{
    lemma_run_after(PushRun { total: n, done: 0, succeeded: 0, failed: 0 }, outcomes);
}

proof fn lemma_run_after(run: PushRun, outcomes: Seq<PushOutcome>)
    requires
        run.done + outcomes.len() <= usize::MAX,
        run.succeeded + outcomes.len() <= usize::MAX,
        run.failed + outcomes.len() <= usize::MAX,
    ensures
        run_after(run, outcomes).total == run.total,
        run_after(run, outcomes).done == run.done + outcomes.len(),
        run_after(run, outcomes).succeeded == run.succeeded + pushed_count(outcomes),
        run_after(run, outcomes).failed == run.failed + outcomes.len() - pushed_count(outcomes),
    decreases outcomes.len(),
{
    if outcomes.len() > 0 {
        lemma_run_after(run, outcomes.drop_last());
        lemma_pushed_count_bounded(outcomes.drop_last());
    }
}

proof fn lemma_pushed_count_bounded(outcomes: Seq<PushOutcome>)
    ensures
        pushed_count(outcomes) <= outcomes.len(),
    decreases outcomes.len(),
{
    if outcomes.len() > 0 {
        lemma_pushed_count_bounded(outcomes.drop_last());
    }
}

/// Records what Jira answered for a staged worklog: taken under a Jira
/// worklog id, it becomes pushed and remembers that id; otherwise it stays as
/// it was, to be pushed again later.
pub fn apply_push_outcome(worklog: &mut LocalWorklogEntry, outcome: &PushOutcome)
    ensures
        match outcome {
            PushOutcome::Pushed(id) => final(worklog).status == LocalWorklogState::Pushed && (final(worklog).worklog_id
                matches Some(w) && w@ == id@),
            _ => *final(worklog) == *old(worklog),
        },
        final(worklog).id == old(worklog).id,
        final(worklog).issue_id == old(worklog).issue_id,
        final(worklog).day == old(worklog).day,
        final(worklog).seconds == old(worklog).seconds,
{
    match outcome {
        PushOutcome::Pushed(id) => {
            worklog.status = LocalWorklogState::Pushed;
            worklog.worklog_id = Some(id.clone());
        },
        _ => {},
    }
}

/// A worklog Jira took is pushed: no later push or reset picks it up again.
pub proof fn law_pushed_worklog_leaves_the_queue(before: Seq<LocalWorklogEntry>, i: usize, after: LocalWorklogEntry)
    requires
        i < before.len() <= usize::MAX,
        after.status == LocalWorklogState::Pushed,
    ensures
        !positions_where(before.update(i as int, after), false, true, before.len() as int).contains(i),
        !positions_where(before.update(i as int, after), true, true, before.len() as int).contains(i),
{
    let ws = before.update(i as int, after);
    lemma_positions_where_members(ws, false, true, before.len() as int);
    lemma_positions_where_members(ws, true, true, before.len() as int);
    if positions_where(ws, false, true, before.len() as int).contains(i) {
        let k = choose|k: int| 0 <= k < positions_where(ws, false, true, before.len() as int).len()
            && positions_where(ws, false, true, before.len() as int)[k] == i;
        assert(positions_where(ws, false, true, before.len() as int)[k] == i);
    }
    if positions_where(ws, true, true, before.len() as int).contains(i) {
        let k = choose|k: int| 0 <= k < positions_where(ws, true, true, before.len() as int).len()
            && positions_where(ws, true, true, before.len() as int)[k] == i;
        assert(positions_where(ws, true, true, before.len() as int)[k] == i);
    }
}

proof fn lemma_positions_where_members(worklogs: Seq<LocalWorklogEntry>, created: bool, staged: bool, n: int)
    requires
        0 <= n <= worklogs.len(),
        n <= usize::MAX,
    ensures
        forall|k: int| #![trigger positions_where(worklogs, created, staged, n)[k]]
            0 <= k < positions_where(worklogs, created, staged, n).len() ==> {
            let p = positions_where(worklogs, created, staged, n)[k] as int;
            &&& 0 <= p < n
            &&& (created && worklogs[p].status == LocalWorklogState::Created) || (staged && worklogs[p].status
                == LocalWorklogState::Staged)
        },
    decreases n,
{
    if n > 0 {
        lemma_positions_where_members(worklogs, created, staged, n - 1);
        let rest = positions_where(worklogs, created, staged, n - 1);
        let all = positions_where(worklogs, created, staged, n);
        assert forall|k: int| 0 <= k < all.len() implies {
            let p = #[trigger] all[k] as int;
            &&& 0 <= p < n
            &&& (created && worklogs[p].status == LocalWorklogState::Created) || (staged && worklogs[p].status
                == LocalWorklogState::Staged)
        } by {
            if k < rest.len() {
                assert(all[k] == rest[k]);
            }
        }
    }
}

/// The line logged for the worklog at `position` of `total`, for issue
/// `issue_id`; `hours` is the worklog's time, already written with one decimal.
pub open spec fn spec_progress_line(position: nat, total: nat, issue_id: Seq<char>, outcome: PushOutcome, hours: Seq<char>) -> Seq<
    char,
> {
    let counter = "["@ + decimal(position) + "/"@ + decimal(total) + "] "@;
    match outcome {
        PushOutcome::Pushed(_) => "✅ "@ + counter + "Pushed "@ + issue_id + " ("@ + hours + "h)"@,
        PushOutcome::Rejected => "❌ "@ + counter + "Failed "@ + issue_id,
        PushOutcome::Failed(e) => "❌ "@ + counter + "Error "@ + issue_id + ": "@ + e@,
    }
}

/// The progress line for one pushed worklog.
pub fn progress_line(position: usize, total: usize, issue_id: &str, outcome: &PushOutcome, hours: &str) -> (line: String)
    ensures
        line@ == spec_progress_line(position as nat, total as nat, issue_id@, *outcome, hours@),
{
    let mut counter = "[".to_string();
    counter.append(decimal_string(position as u64).as_str());
    counter.append("/");
    counter.append(decimal_string(total as u64).as_str());
    counter.append("] ");
    proof {
        reveal_strlit("[");
        reveal_strlit("/");
        reveal_strlit("] ");
    }
    let mut line = match outcome {
        PushOutcome::Pushed(_) => "✅ ".to_string(),
        _ => "❌ ".to_string(),
    };
    line.append(counter.as_str());
    match outcome {
        PushOutcome::Pushed(_) => {
            line.append("Pushed ");
            line.append(issue_id);
            line.append(" (");
            line.append(hours);
            line.append("h)");
        },
        PushOutcome::Rejected => {
            line.append("Failed ");
            line.append(issue_id);
        },
        PushOutcome::Failed(e) => {
            line.append("Error ");
            line.append(issue_id);
            line.append(": ");
            line.append(e.as_str());
        },
    }
    line
}

/// The line that closes a push.
pub open spec fn spec_push_summary(run: PushRun) -> Seq<char> {
    "✅ Pushed "@ + decimal(run.succeeded as nat) + " worklogs ("@ + decimal(run.failed as nat) + " errors)"@
}

/// The line that closes a push: how many worklogs went, how many failed.
pub fn push_summary(run: &PushRun) -> (line: String)
    ensures
        line@ == spec_push_summary(*run),
{
    let mut line = "✅ Pushed ".to_string();
    line.append(decimal_string(run.succeeded as u64).as_str());
    line.append(" worklogs (");
    line.append(decimal_string(run.failed as u64).as_str());
    line.append(" errors)");
    line
}

/// The value of the decimal digits `s`.
pub open spec fn digits_value(s: Seq<char>) -> int
    decreases s.len(),
{
    if s.len() == 0 {
        0
    } else {
        digits_value(s.drop_last()) * 10 + (s.last() as int - '0' as int)
    }
}

/// Every character of `s` is an ASCII digit.
pub open spec fn all_ascii_digits(s: Seq<char>) -> bool {
    forall|i: int| 0 <= i < s.len() ==> '0' <= #[trigger] s[i] && s[i] <= '9'
}

/// What `usize::from_str` reads in `s`: an optional `+`, then one or more
/// ASCII digits whose value fits in `usize`; nothing otherwise.
pub open spec fn spec_parse_usize(s: Seq<char>) -> Option<int> {
    let body = if s.len() > 0 && s[0] == '+' {
        s.drop_first()
    } else {
        s
    };
    if body.len() > 0 && all_ascii_digits(body) && digits_value(body) <= usize::MAX {
        Some(digits_value(body))
    } else {
        None
    }
}

/// Reads a number as `usize::from_str` does, from `s[a..b]` trimmed of whitespace.
fn parse_trimmed_usize(s: &Vec<char>, a: usize, b: usize) -> (r: Option<usize>)
    requires
        a <= b <= s@.len(),
    ensures
        match r {
            Some(n) => spec_parse_usize(trimmed(s@.subrange(a as int, b as int))) == Some(n as int),
            None => spec_parse_usize(trimmed(s@.subrange(a as int, b as int))) is None,
        },
{
    let ghost whole = s@.subrange(a as int, b as int);
    let mut lo = a;
    assert(s@.subrange(lo as int, b as int) =~= whole);
    while lo < b && char_is_whitespace(s[lo])
        invariant
            a <= lo <= b <= s@.len(),
            trim_start_ws(whole) == trim_start_ws(s@.subrange(lo as int, b as int)),
        decreases b - lo,
    {
        assert(s@.subrange(lo as int, b as int).drop_first() =~= s@.subrange(lo + 1, b as int));
        lo = lo + 1;
    }
    assert(trim_start_ws(whole) == s@.subrange(lo as int, b as int)) by {
        if lo < b {
            assert(s@.subrange(lo as int, b as int)[0] == s@[lo as int]);
        }
    }
    let mut hi = b;
    while hi > lo && char_is_whitespace(s[hi - 1])
        invariant
            a <= lo <= hi <= b,
            b <= s@.len(),
            trimmed(whole) == trim_end_ws(s@.subrange(lo as int, hi as int)),
        decreases hi - lo,
    {
        assert(s@.subrange(lo as int, hi as int).drop_last() =~= s@.subrange(lo as int, hi - 1));
        hi = hi - 1;
    }
    let ghost t = s@.subrange(lo as int, hi as int);
    assert(trimmed(whole) == t) by {
        if hi > lo {
            assert(t.last() == s@[hi - 1]);
        }
    }
    let mut start = lo;
    if start < hi && s[start] == '+' {
        start = start + 1;
    }
    let ghost body = s@.subrange(start as int, hi as int);
    assert(body =~= (if t.len() > 0 && t[0] == '+' { t.drop_first() } else { t }));
    if start >= hi {
        return None;
    }
    let mut value: usize = 0;
    let mut k = start;
    assert(spec_parse_usize(trimmed(whole)) == (if body.len() > 0 && all_ascii_digits(body) && digits_value(body)
        <= usize::MAX {
        Some(digits_value(body))
    } else {
        None
    }));
    while k < hi
        invariant
            start <= k <= hi <= s@.len(),
            start < hi,
            body == s@.subrange(start as int, hi as int),
            whole == s@.subrange(a as int, b as int),
            all_ascii_digits(s@.subrange(start as int, k as int)),
            value == digits_value(s@.subrange(start as int, k as int)),
            spec_parse_usize(trimmed(whole)) == (if body.len() > 0 && all_ascii_digits(body) && digits_value(body)
                <= usize::MAX {
                Some(digits_value(body))
            } else {
                None
            }),
        decreases hi - k,
    {
        let c = s[k];
        assert(s@.subrange(start as int, k + 1).drop_last() =~= s@.subrange(start as int, k as int));
        assert(s@.subrange(start as int, k + 1).last() == c);
        if !('0' <= c && c <= '9') {
            assert(!all_ascii_digits(body)) by {
                assert(body[k - start] == c);
            }
            return None;
        }
        let d = (c as u32 - '0' as u32) as usize;
        assert(d == c as int - '0' as int);
        proof {
            assert(body.take(k - start) =~= s@.subrange(start as int, k as int));
            assert(body.take(k - start + 1) =~= s@.subrange(start as int, k + 1));
            assert(body[k - start] == c);
            assert(all_ascii_digits(s@.subrange(start as int, k + 1))) by {
                assert forall|i: int| 0 <= i < s@.subrange(start as int, k + 1).len() implies '0'
                    <= #[trigger] s@.subrange(start as int, k + 1)[i] && s@.subrange(start as int, k + 1)[i] <= '9' by {
                    if i < k - start {
                        assert(s@.subrange(start as int, k + 1)[i] == s@.subrange(start as int, k as int)[i]);
                    }
                }
            }
        }
        if value > (usize::MAX - d) / 10 {
            proof {
                assert(value * 10 + d > usize::MAX) by (nonlinear_arith)
                    requires
                        value > (usize::MAX - d) / 10,
                        d <= 9,
                ;
                lemma_digits_value_grows(body, (k - start) as int);
            }
            return None;
        }
        assert(value * 10 + d <= usize::MAX) by (nonlinear_arith)
            requires
                value <= (usize::MAX - d) / 10,
                d <= 9,
        ;
        value = value * 10 + d;
        k = k + 1;
    }
    assert(s@.subrange(start as int, hi as int) == body);
    Some(value)
}

proof fn lemma_digits_value_nonneg(s: Seq<char>)
    requires
        all_ascii_digits(s),
    ensures
        digits_value(s) >= 0,
    decreases s.len(),
{
    if s.len() > 0 {
        assert(all_ascii_digits(s.drop_last())) by {
            assert forall|i: int| 0 <= i < s.drop_last().len() implies '0' <= #[trigger] s.drop_last()[i] && s.drop_last()[i] <= '9' by {
                assert(s.drop_last()[i] == s[i]);
            }
        }
        lemma_digits_value_nonneg(s.drop_last());
        assert('0' <= s[s.len() - 1]);
    }
}

/// Reading more digits never gives a smaller value.
proof fn lemma_digits_value_grows(s: Seq<char>, k: int)
    requires
        0 <= k < s.len(),
        all_ascii_digits(s.take(k + 1)),
        digits_value(s.take(k)) * 10 + (s[k] as int - '0' as int) > usize::MAX,
    ensures
        !(all_ascii_digits(s) && digits_value(s) <= usize::MAX),
    decreases s.len() - k,
{
    if all_ascii_digits(s) {
        lemma_digits_monotone(s, k + 1, s.len() as int);
        assert(s.take(k + 1).drop_last() =~= s.take(k));
        assert(s.take(s.len() as int) =~= s);
    }
}

proof fn lemma_digits_monotone(s: Seq<char>, i: int, j: int)
    requires
        0 <= i <= j <= s.len(),
        all_ascii_digits(s),
    ensures
        digits_value(s.take(i)) <= digits_value(s.take(j)),
    decreases j - i,
{
    if i < j {
        lemma_digits_monotone(s, i, j - 1);
        assert(s.take(j).drop_last() =~= s.take(j - 1));
        assert(all_ascii_digits(s.take(j - 1))) by {
            assert forall|q: int| 0 <= q < s.take(j - 1).len() implies '0' <= #[trigger] s.take(j - 1)[q] && s.take(j - 1)[q] <= '9' by {
                assert(s.take(j - 1)[q] == s[q]);
            }
        }
        lemma_digits_value_nonneg(s.take(j - 1));
        assert(s.take(j).last() == s[j - 1]);
    }
}

/// The position and total that a push progress line `[position/total]`
/// carries: the text between the first `[` and the first `]`, cut at its
/// first `/`, each side trimmed and read as a number.
pub open spec fn spec_push_progress(line: Seq<char>) -> Option<(int, int)> {
    let a = find_from(line, 0, '[');
    let b = find_from(line, 0, ']');
    if a < line.len() && b < line.len() {
        let inner = line.subrange(a + 1, b);
        let k = find_from(inner, 0, '/');
        if k < inner.len() {
            match (spec_parse_usize(trimmed(inner.take(k))), spec_parse_usize(trimmed(inner.skip(k + 1)))) {
                (Some(x), Some(y)) => Some((x, y)),
                _ => None,
            }
        } else {
            None
        }
    } else {
        None
    }
}

/// Reads the position and total out of a push progress line. A line whose
/// first `]` comes before its first `[` is not one.
pub fn parse_push_progress(line: &str) -> (r: Option<(usize, usize)>)
    requires
        !(find_from(line@, 0, '[') < line@.len() && find_from(line@, 0, ']') < find_from(line@, 0, '[')),
    ensures
        match r {
            Some((x, y)) => spec_push_progress(line@) == Some((x as int, y as int)),
            None => spec_push_progress(line@) is None,
        },
{
    let s = chars_of(line);
    let a = find_in(&s, 0, '[');
    let b = find_in(&s, 0, ']');
    if a >= s.len() || b >= s.len() {
        return None;
    }
    proof {
        lemma_find_from(s@, 0, '[');
        lemma_find_from(s@, 0, ']');
    }
    assert(a < b);
    let ghost inner = s@.subrange(a + 1, b as int);
    let k = find_in_range(&s, a + 1, b, '/');
    if k >= b {
        return None;
    }
    proof {
        assert(inner.take(k - a - 1) =~= s@.subrange(a + 1, k as int));
        assert(inner.skip(k - a) =~= s@.subrange(k + 1, b as int));
    }
    match (parse_trimmed_usize(&s, a + 1, k), parse_trimmed_usize(&s, k + 1, b)) {
        (Some(x), Some(y)) => Some((x, y)),
        _ => None,
    }
}

fn find_in(s: &Vec<char>, k: usize, c: char) -> (r: usize)
    requires
        k <= s@.len(),
    ensures
        r == find_from(s@, k as int, c),
        k <= r <= s@.len(),
{
    let mut j = k;
    while j < s.len() && s[j] != c
        invariant
            k <= j <= s@.len(),
            find_from(s@, k as int, c) == find_from(s@, j as int, c),
        decreases s@.len() - j,
    {
        j = j + 1;
    }
    j
}

/// The first position of `c` in `s[a..b]`, counted in `s`; `b` where there is none.
fn find_in_range(s: &Vec<char>, a: usize, b: usize, c: char) -> (r: usize)
    requires
        a <= b <= s@.len(),
    ensures
        a <= r <= b,
        r - a == find_from(s@.subrange(a as int, b as int), 0, c),
{
    let ghost sub = s@.subrange(a as int, b as int);
    let mut j = a;
    while j < b && s[j] != c
        invariant
            a <= j <= b <= s@.len(),
            sub == s@.subrange(a as int, b as int),
            find_from(sub, 0, c) == find_from(sub, j - a, c),
        decreases b - j,
    {
        assert(sub[j - a] == s@[j as int]);
        j = j + 1;
    }
    proof {
        if j < b {
            assert(sub[j - a] == s@[j as int]);
        }
    }
    j
}

proof fn lemma_digit_char_value(d: nat)
    requires
        d < 10,
    ensures
        digit_char(d) as int - '0' as int == d,
        '0' <= digit_char(d) <= '9',
{
}

proof fn lemma_decimal_digits(n: nat)
    ensures
        decimal(n).len() > 0,
        all_ascii_digits(decimal(n)),
        digits_value(decimal(n)) == n,
    decreases n,
{
    lemma_digit_char_value(n % 10);
    let d = decimal(n);
    if n >= 10 {
        lemma_decimal_digits(n / 10);
        assert(d.drop_last() =~= decimal(n / 10));
        assert(d.last() == digit_char(n % 10));
        assert(digits_value(d) == digits_value(decimal(n / 10)) * 10 + (digit_char(n % 10) as int - '0' as int));
        assert(all_ascii_digits(d)) by {
            assert forall|i: int| 0 <= i < d.len() implies '0' <= #[trigger] d[i] && d[i] <= '9' by {
                if i < d.len() - 1 {
                    assert(d[i] == decimal(n / 10)[i]);
                }
            }
        }
    } else {
        assert(n % 10 == n);
        assert(d =~= seq![digit_char(n)]);
        assert(d.drop_last() =~= Seq::<char>::empty());
        assert(digits_value(d) == digits_value(d.drop_last()) * 10 + (d.last() as int - '0' as int));
    }
}

proof fn lemma_digits_untrimmed(s: Seq<char>)
    requires
        s.len() > 0,
        all_ascii_digits(s),
    ensures
        trimmed(s) == s,
{
    assert('0' <= s[0] && s[0] <= '9');
    assert(!is_whitespace_char(s[0]));
    assert(trim_start_ws(s) == s);
    assert('0' <= s.last() && s.last() <= '9');
}

/// The text after the counter of a progress line.
pub open spec fn progress_tail(issue_id: Seq<char>, outcome: PushOutcome, hours: Seq<char>) -> Seq<char> {
    match outcome {
        PushOutcome::Pushed(_) => "Pushed "@ + issue_id + " ("@ + hours + "h)"@,
        PushOutcome::Rejected => "Failed "@ + issue_id,
        PushOutcome::Failed(e) => "Error "@ + issue_id + ": "@ + e@,
    }
}

/// The mark that opens a progress line.
pub open spec fn progress_mark(outcome: PushOutcome) -> Seq<char> {
    match outcome {
        PushOutcome::Pushed(_) => "✅ "@,
        _ => "❌ "@,
    }
}

proof fn lemma_line_shape(position: nat, total: nat, issue_id: Seq<char>, outcome: PushOutcome, hours: Seq<char>)
    ensures
        spec_progress_line(position, total, issue_id, outcome, hours) =~= progress_mark(outcome) + ("["@ + decimal(position)
            + "/"@ + decimal(total) + "] "@) + progress_tail(issue_id, outcome, hours),
{
}

proof fn lemma_head_chars(outcome: PushOutcome)
    ensures
        progress_mark(outcome).len() == 2,
        progress_mark(outcome)[0] != '[',
        progress_mark(outcome)[0] != ']',
        progress_mark(outcome)[1] == ' ',
{
    reveal_strlit("✅ ");
    reveal_strlit("❌ ");
}

/// What a progress line writes, the progress reader reads back: the
/// worklog's position and the push's total.
#[verifier::spinoff_prover]
pub proof fn law_progress_line_round_trip(
    position: usize,
    total: usize,
    issue_id: Seq<char>,
    outcome: PushOutcome,
    hours: Seq<char>,
)
    ensures
        spec_push_progress(spec_progress_line(position as nat, total as nat, issue_id, outcome, hours)) == Some(
            (position as int, total as int),
        ),
{
    reveal_strlit("[");
    reveal_strlit("/");
    reveal_strlit("] ");
    let dp = decimal(position as nat);
    let dt = decimal(total as nat);
    lemma_decimal_digits(position as nat);
    lemma_decimal_digits(total as nat);
    lemma_head_chars(outcome);
    lemma_line_shape(position as nat, total as nat, issue_id, outcome, hours);
    let line = spec_progress_line(position as nat, total as nat, issue_id, outcome, hours);
    let head = progress_mark(outcome);
    let hc = head + ("["@ + dp + "/"@ + dt + "] "@);
    let qb: int = (4 + dp.len() + dt.len()) as int;
    assert(hc.len() == qb + 2);
    assert(forall|j: int| 0 <= j < hc.len() ==> #[trigger] line[j] == hc[j]);
    assert(hc[2] == '[');
    assert(forall|j: int| 0 <= j < dp.len() ==> #[trigger] hc[3 + j] == dp[j]);
    assert(hc[3 + dp.len() as int] == '/');
    assert(forall|j: int| 0 <= j < dt.len() ==> #[trigger] hc[4 + dp.len() + j] == dt[j]);
    assert(hc[qb] == ']');
    assert(line[2] == '[');
    assert(line[0] != '[' && line[1] != '[');
    lemma_find_from_at(line, 0, '[', 2);
    assert forall|j: int| 0 <= j < qb implies line[j] != ']' by {
        assert(line[j] == hc[j]);
        if 3 <= j < 3 + dp.len() {
            assert(hc[3 + (j - 3)] == dp[j - 3]);
        } else if 4 + dp.len() <= j < qb {
            assert(hc[4 + dp.len() + (j - 4 - dp.len())] == dt[j - 4 - dp.len()]);
        }
    }
    assert(line[qb] == ']');
    lemma_find_from_at(line, 0, ']', qb);
    let inner = line.subrange(3, qb);
    assert(inner =~= dp + "/"@ + dt) by {
        assert forall|j: int| 0 <= j < inner.len() implies inner[j] == (dp + "/"@ + dt)[j] by {
            assert(inner[j] == line[3 + j]);
            assert(line[3 + j] == hc[3 + j]);
            if j < dp.len() {
            } else if j == dp.len() {
            } else {
                assert(hc[4 + dp.len() + (j - dp.len() - 1)] == dt[j - dp.len() - 1]);
            }
        }
    }
    assert forall|j: int| 0 <= j < dp.len() implies inner[j] != '/' by {
        assert(inner[j] == dp[j]);
    }
    assert(inner[dp.len() as int] == '/');
    lemma_find_from_at(inner, 0, '/', dp.len() as int);
    assert(inner.take(dp.len() as int) =~= dp);
    assert(inner.skip(dp.len() as int + 1) =~= dt);
    lemma_digits_untrimmed(dp);
    lemma_digits_untrimmed(dt);
    assert(dp[0] != '+');
    assert(dt[0] != '+');
}

} // verus!
