use vstd::prelude::*;
use chrono::{Datelike, NaiveDate};
use crate::text::{str_equal, views};

verus! {

/// Copies an optional string slice into an owned string.
fn owned(date: Option<&str>) -> (r: Option<String>)
    ensures
        r is Some <==> date is Some,
        r matches Some(s) ==> s@ == date.unwrap()@,
{
    match date {
        Some(d) => Some(d.to_string()),
        None => None,
    }
}

/// A parse result with its error message taken as text.
pub open spec fn result_view(r: Result<i32, String>) -> Result<i32, Seq<char>> {
    match r {
        Ok(d) => Ok(d),
        Err(e) => Err(e@),
    }
}

/// What chrono's `NaiveDate::parse_from_str` gives for `text` read with
/// `format`: the day number of the date (see `calendar`), or the text of the
/// parse error.
pub uninterp spec fn date_parse(text: Seq<char>, format: Seq<char>) -> Result<i32, Seq<char>>;

/// Calls `chrono::NaiveDate::parse_from_str(text, format)`, then
/// `Datelike::num_days_from_ce` on a date and `to_string` on an error.
/// Claimed: the result is `date_parse(text, format)`, and a day number lies
/// strictly between -96,000,000 and 96,000,000 (every `NaiveDate` does).
#[verifier::external_body]
fn parse_date(text: &str, format: &str) -> (r: Result<i32, String>)
    ensures
        date_parse(text@, format@) == result_view(r),
        r matches Ok(d) ==> -96_000_000 < d < 96_000_000,
{
    match NaiveDate::parse_from_str(text, format) {
        Ok(date) => Ok(date.num_days_from_ce()),
        Err(e) => Err(e.to_string()),
    }
}

/// The date format the `--date` filters are read in.
pub open spec fn iso_format() -> Seq<char> {
    "%Y-%m-%d"@
}

/// What a date filter selects: every day when there is none, else the day
/// it names, or the message that reports a malformed one.
pub open spec fn spec_filter_day(filter: Option<Seq<char>>) -> Result<Option<i32>, Seq<char>> {
    match filter {
        None => Ok(None),
        Some(text) => match date_parse(text, iso_format()) {
            Ok(d) => Ok(Some(d)),
            Err(e) => Err("Invalid date format: "@ + e + ". Expected YYYY-MM-DD"@),
        },
    }
}

/// The view of an optional owned string.
pub open spec fn opt_view(s: Option<String>) -> Option<Seq<char>> {
    match s {
        Some(t) => Some(t@),
        None => None,
    }
}

/// Reads an optional `YYYY-MM-DD` filter.
fn filter_day(filter: &Option<String>) -> (r: Result<Option<i32>, String>)
    ensures
        match r {
            Ok(d) => spec_filter_day(opt_view(*filter)) == Ok::<Option<i32>, Seq<char>>(d),
            Err(e) => spec_filter_day(opt_view(*filter)) == Err::<Option<i32>, Seq<char>>(e@),
        },
{
    match filter {
        None => Ok(None),
        Some(text) => {
            let format = "%Y-%m-%d";
            proof {
                reveal_strlit("%Y-%m-%d");
            }
            match parse_date(text.as_str(), format) {
                Ok(d) => Ok(Some(d)),
                Err(e) => {
                    let mut message = "Invalid date format: ".to_string();
                    message.append(e.as_str());
                    message.append(". Expected YYYY-MM-DD");
                    Err(message)
                },
            }
        },
    }
}

/// Syncs the GitHub events of the followed sprints.
pub struct FetchGithubEventsTask;

impl FetchGithubEventsTask {
    pub fn new() -> (t: Self)
        ensures
            t == FetchGithubEventsTask,
    {
        FetchGithubEventsTask
    }
}

/// Creates worklogs from the GitHub work sessions.
pub struct LogGithubEventsTask;

impl LogGithubEventsTask {
    pub fn new() -> (t: Self)
        ensures
            t == LogGithubEventsTask,
    {
        LogGithubEventsTask
    }
}

/// Lists the stored GitHub work sessions, of one day or of all.
pub struct ShowGithubSessionsTask {
    date_filter: Option<String>,
}

impl ShowGithubSessionsTask {
    /// The `YYYY-MM-DD` day filter, if any.
    pub closed spec fn filter(&self) -> Option<Seq<char>> {
        opt_view(self.date_filter)
    }

    pub fn new(date: Option<&str>) -> (t: Self)
        ensures
            t.filter() is Some <==> date is Some,
            t.filter() matches Some(f) ==> f == date.unwrap()@,
    {
        ShowGithubSessionsTask { date_filter: owned(date) }
    }

    /// The day the listing is restricted to (`None`: all days), or the
    /// message for a filter that is not a `YYYY-MM-DD` date.
    pub fn filter_day(&self) -> (r: Result<Option<i32>, String>)
        ensures
            match r {
                Ok(d) => spec_filter_day(self.filter()) == Ok::<Option<i32>, Seq<char>>(d),
                Err(e) => spec_filter_day(self.filter()) == Err::<Option<i32>, Seq<char>>(e@),
            },
    {
        filter_day(&self.date_filter)
    }
}

/// Lists the stored GitHub events, of one day or of all.
pub struct ShowGithubEventsTask {
    date_filter: Option<String>,
}

impl ShowGithubEventsTask {
    /// The `YYYY-MM-DD` day filter, if any.
    pub closed spec fn filter(&self) -> Option<Seq<char>> {
        opt_view(self.date_filter)
    }

    pub fn new(date: Option<&str>) -> (t: Self)
        ensures
            t.filter() is Some <==> date is Some,
            t.filter() matches Some(f) ==> f == date.unwrap()@,
    {
        ShowGithubEventsTask { date_filter: owned(date) }
    }

    /// The day the listing is restricted to (`None`: all days), or the
    /// message for a filter that is not a `YYYY-MM-DD` date.
    pub fn filter_day(&self) -> (r: Result<Option<i32>, String>)
        ensures
            match r {
                Ok(d) => spec_filter_day(self.filter()) == Ok::<Option<i32>, Seq<char>>(d),
                Err(e) => spec_filter_day(self.filter()) == Err::<Option<i32>, Seq<char>>(e@),
            },
    {
        filter_day(&self.date_filter)
    }
}

/// Lists Jira sprints: all available ones, or only the followed ones.
pub struct ListJiraSprints {
    fetch_all: bool,
}

impl ListJiraSprints {
    /// Whether all available sprints are listed rather than the followed ones.
    pub closed spec fn lists_all(&self) -> bool {
        self.fetch_all
    }

    pub fn new(fetch_all: bool) -> (t: Self)
        ensures
            t.lists_all() == fetch_all,
    {
        ListJiraSprints { fetch_all }
    }

    /// Whether all available sprints are listed rather than the followed ones.
    pub fn fetch_all(&self) -> (b: bool)
        ensures
            b == self.lists_all(),
    {
        self.fetch_all
    }
}

/// Whether a worklog started at `started` falls within a sprint running from
/// `start` to `end` (both included); a sprint missing either bound holds none.
pub open spec fn within_sprint(start: Option<i64>, end: Option<i64>, started: i64) -> bool {
    match (start, end) {
        (Some(s), Some(e)) => s <= started && started <= e,
        _ => false,
    }
}

/// Seconds of the worklogs (start timestamp, seconds) that fall within the sprint.
pub open spec fn spec_sprint_time_spent(start: Option<i64>, end: Option<i64>, worklogs: Seq<(i64, u64)>) -> int
    decreases worklogs.len(),
{
    if worklogs.len() == 0 {
        0
    } else {
        spec_sprint_time_spent(start, end, worklogs.drop_last())
            + if within_sprint(start, end, worklogs.last().0) { worklogs.last().1 as int } else { 0 }
    }
}

/// Seconds of all the worklogs.
pub open spec fn spec_total_seconds(worklogs: Seq<(i64, u64)>) -> int
    decreases worklogs.len(),
{
    if worklogs.len() == 0 {
        0
    } else {
        spec_total_seconds(worklogs.drop_last()) + worklogs.last().1 as int
    }
}

proof fn lemma_time_spent_bounded(start: Option<i64>, end: Option<i64>, worklogs: Seq<(i64, u64)>)
    ensures
        0 <= spec_sprint_time_spent(start, end, worklogs) <= spec_total_seconds(worklogs),
    decreases worklogs.len(),
{
    if worklogs.len() > 0 {
        lemma_time_spent_bounded(start, end, worklogs.drop_last());
    }
}

proof fn lemma_total_prefix(worklogs: Seq<(i64, u64)>, i: int)
    requires
        0 <= i <= worklogs.len(),
    ensures
        spec_total_seconds(worklogs.take(i)) <= spec_total_seconds(worklogs),
    decreases worklogs.len(),
{
    if i < worklogs.len() {
        assert(worklogs.drop_last().take(i) == worklogs.take(i));
        lemma_total_prefix(worklogs.drop_last(), i);
    } else {
        assert(worklogs.take(i) == worklogs);
    }
}

/// Time logged within a sprint, as the sprint listing shows it: the seconds
/// of the worklogs (start timestamp, seconds) that started within the
/// sprint's start and end.
pub fn sprint_time_spent(start: Option<i64>, end: Option<i64>, worklogs: &[(i64, u64)]) -> (total: u64)
    requires
        spec_total_seconds(worklogs@) <= u64::MAX,
    ensures
        total == spec_sprint_time_spent(start, end, worklogs@),
{
    let mut total: u64 = 0;
    let mut i: usize = 0;
    while i < worklogs.len()
        invariant
            i <= worklogs.len(),
            total == spec_sprint_time_spent(start, end, worklogs@.take(i as int)),
            spec_total_seconds(worklogs@) <= u64::MAX,
        decreases worklogs.len() - i,
    {
        let ghost prefix = worklogs@.take(i as int + 1);
        proof {
            assert(prefix.drop_last() == worklogs@.take(i as int));
            lemma_time_spent_bounded(start, end, prefix);
            lemma_total_prefix(worklogs@, i as int + 1);
        }
        let (started, seconds) = worklogs[i];
        let inside = match (start, end) {
            (Some(s), Some(e)) => s <= started && started <= e,
            _ => false,
        };
        if inside {
            total = total + seconds;
        }
        i = i + 1;
    }
    proof {
        assert(worklogs@.take(worklogs.len() as int) == worklogs@);
    }
    total
}

/// What becomes of a GitHub work session when worklogs are created from the activity.
#[derive(Debug, Clone, PartialEq, Eq)]
pub enum SessionWorklogPlan {
    /// The session names no Jira issue: skipped.
    NoIssue,
    /// Its first issue is not in the local issue cache: skipped.
    UnknownIssue(String),
    /// A worklog is created on its first issue.
    Create(String),
}

/// Whether `key` is among the known issue keys.
fn is_known(known: &[String], key: &str) -> (b: bool)
    ensures
        b == views(known@).contains(key@),
{
    let mut i: usize = 0;
    while i < known.len()
        invariant
            i <= known@.len(),
            forall|j: int| 0 <= j < i ==> known@[j]@ != key@,
        decreases known@.len() - i,
    {
        if str_equal(known[i].as_str(), key) {
            assert(views(known@)[i as int] == key@);
            return true;
        }
        i = i + 1;
    }
    proof {
        if views(known@).contains(key@) {
            let k = choose|k: int| 0 <= k < views(known@).len() && views(known@)[k] == key@;
            assert(known@[k]@ == key@);
        }
    }
    false
}

/// Decides what to do with a session naming the issues `jira_issues`, given
/// the keys of the issues in the local cache: a worklog goes on the first
/// issue, provided the cache knows it.
pub fn plan_session_worklog(jira_issues: &[String], known: &[String]) -> (plan: SessionWorklogPlan)
    ensures
        jira_issues@.len() == 0 ==> plan == SessionWorklogPlan::NoIssue,
        jira_issues@.len() > 0 && views(known@).contains(jira_issues@[0]@) ==> (plan matches SessionWorklogPlan::Create(k)
            && k@ == jira_issues@[0]@),
        jira_issues@.len() > 0 && !views(known@).contains(jira_issues@[0]@) ==> (plan matches SessionWorklogPlan::UnknownIssue(k)
            && k@ == jira_issues@[0]@),
{
    if jira_issues.len() == 0 {
        return SessionWorklogPlan::NoIssue;
    }
    let first = jira_issues[0].clone();
    if is_known(known, first.as_str()) {
        SessionWorklogPlan::Create(first)
    } else {
        SessionWorklogPlan::UnknownIssue(first)
    }
}

/// The state Jira reports for a sprint.
#[derive(Debug, Clone, Copy, PartialEq, Eq, Structural)]
pub enum SprintState {
    Active,
    Closed,
    Future,
}

/// The sprint state Jira names `name`, if it is one of its three states.
pub open spec fn spec_sprint_state(name: Seq<char>) -> Option<SprintState> {
    if name == "active"@ {
        Some(SprintState::Active)
    } else if name == "closed"@ {
        Some(SprintState::Closed)
    } else if name == "future"@ {
        Some(SprintState::Future)
    } else {
        None
    }
}

/// Reads the state of a sprint as Jira reports it (`active`, `closed` or `future`).
pub fn sprint_state(name: &str) -> (s: SprintState)
    requires
        spec_sprint_state(name@) is Some,
    ensures
        spec_sprint_state(name@) == Some(s),
{
    if str_equal(name, "active") {
        SprintState::Active
    } else if str_equal(name, "closed") {
        SprintState::Closed
    } else {
        SprintState::Future
    }
}

impl SprintState {
    /// How the sprint listing names the state.
    pub fn label(self) -> (l: &'static str)
        ensures
            l@ == match self {
                SprintState::Active => "Active"@,
                SprintState::Closed => "Closed"@,
                SprintState::Future => "Future"@,
            },
    {
        match self {
            SprintState::Active => "Active",
            SprintState::Closed => "Closed",
            SprintState::Future => "Future",
        }
    }
}

/// A sprint whose start and end are both known.
pub open spec fn dated(span: (Option<i32>, Option<i32>)) -> bool {
    span.0 is Some && span.1 is Some
}

/// The days whose worklogs a fetch for `spans` replaces: from the earliest
/// start to the latest end among the sprints with both dates, none where no
/// sprint has them.
pub open spec fn spec_sprints_date_range(spans: Seq<(Option<i32>, Option<i32>)>) -> Option<(i32, i32)>
    decreases spans.len(),
{
    if spans.len() == 0 {
        None
    } else {
        let rest = spec_sprints_date_range(spans.drop_last());
        let last = spans.last();
        if !dated(last) {
            rest
        } else {
            match rest {
                None => Some((last.0->0, last.1->0)),
                Some((lo, hi)) => Some(
                    (
                        if last.0->0 < lo { last.0->0 } else { lo },
                        if last.1->0 > hi { last.1->0 } else { hi },
                    ),
                ),
            }
        }
    }
}

proof fn lemma_date_range(spans: Seq<(Option<i32>, Option<i32>)>)
    ensures
        spec_sprints_date_range(spans) is None <==> forall|i: int| 0 <= i < spans.len() ==> !dated(#[trigger] spans[i]),
        spec_sprints_date_range(spans) matches Some((lo, hi)) ==> (
            (exists|i: int| 0 <= i < spans.len() && dated(#[trigger] spans[i]) && spans[i].0 == Some(lo))
            && (exists|i: int| 0 <= i < spans.len() && dated(#[trigger] spans[i]) && spans[i].1 == Some(hi))
            && forall|i: int| 0 <= i < spans.len() && dated(#[trigger] spans[i]) ==> lo <= spans[i].0->0 && spans[i].1->0 <= hi
        ),
    decreases spans.len(),
{
    if spans.len() > 0 {
        let init = spans.drop_last();
        let n = spans.len() - 1;
        let last = spans[n];
        lemma_date_range(init);
        assert forall|i: int| 0 <= i < init.len() implies #[trigger] init[i] == spans[i] by {}
        let r = spec_sprints_date_range(spans);
        let rest = spec_sprints_date_range(init);
        if !dated(last) {
            assert(r == rest);
            assert((forall|i: int| 0 <= i < spans.len() ==> !dated(#[trigger] spans[i])) <==> (forall|i: int|
                0 <= i < init.len() ==> !dated(#[trigger] init[i]))) by {
                if forall|i: int| 0 <= i < init.len() ==> !dated(#[trigger] init[i]) {
                    assert forall|i: int| 0 <= i < spans.len() implies !dated(#[trigger] spans[i]) by {
                        if i < n {
                            assert(!dated(init[i]));
                        }
                    }
                }
                if forall|i: int| 0 <= i < spans.len() ==> !dated(#[trigger] spans[i]) {
                    assert forall|i: int| 0 <= i < init.len() implies !dated(#[trigger] init[i]) by {
                        assert(!dated(spans[i]));
                    }
                }
            }
            if let Some((lo, hi)) = rest {
                let a = choose|i: int| 0 <= i < init.len() && dated(#[trigger] init[i]) && init[i].0 == Some(lo);
                let b = choose|i: int| 0 <= i < init.len() && dated(#[trigger] init[i]) && init[i].1 == Some(hi);
                assert(dated(spans[a]) && spans[a].0 == Some(lo));
                assert(dated(spans[b]) && spans[b].1 == Some(hi));
                assert forall|i: int| 0 <= i < spans.len() && dated(#[trigger] spans[i]) implies lo <= spans[i].0->0
                    && spans[i].1->0 <= hi by {
                    assert(i < n);
                    assert(dated(init[i]));
                }
            }
        } else {
            assert(dated(spans[n]));
            match rest {
                None => {
                    assert(r == Some((last.0->0, last.1->0)));
                    assert forall|i: int| 0 <= i < spans.len() && dated(#[trigger] spans[i]) implies last.0->0
                        <= spans[i].0->0 && spans[i].1->0 <= last.1->0 by {
                        if i < n {
                            assert(!dated(init[i]));
                        }
                    }
                },
                Some((lo, hi)) => {
                    let a = choose|i: int| 0 <= i < init.len() && dated(#[trigger] init[i]) && init[i].0 == Some(lo);
                    let b = choose|i: int| 0 <= i < init.len() && dated(#[trigger] init[i]) && init[i].1 == Some(hi);
                    assert(dated(spans[a]) && spans[a].0 == Some(lo));
                    assert(dated(spans[b]) && spans[b].1 == Some(hi));
                    let lo2 = if last.0->0 < lo { last.0->0 } else { lo };
                    let hi2 = if last.1->0 > hi { last.1->0 } else { hi };
                    assert(r == Some((lo2, hi2)));
                    assert forall|i: int| 0 <= i < spans.len() && dated(#[trigger] spans[i]) implies lo2 <= spans[i].0->0
                        && spans[i].1->0 <= hi2 by {
                        if i < n {
                            assert(dated(init[i]));
                        }
                    }
                },
            }
        }
    }
}

/// The days, as day numbers (see `calendar`), over which fetched worklogs
/// replace the stored ones: the earliest start to the latest end of the
/// sprints that have both.
pub fn sprints_date_range(spans: &[(Option<i32>, Option<i32>)]) -> (r: Option<(i32, i32)>)
    ensures
        r == spec_sprints_date_range(spans@),
        r is None <==> forall|i: int| 0 <= i < spans@.len() ==> !dated(#[trigger] spans@[i]),
        r matches Some((lo, hi)) ==> (
            (exists|i: int| 0 <= i < spans@.len() && dated(#[trigger] spans@[i]) && spans@[i].0 == Some(lo))
            && (exists|i: int| 0 <= i < spans@.len() && dated(#[trigger] spans@[i]) && spans@[i].1 == Some(hi))
            && forall|i: int| 0 <= i < spans@.len() && dated(#[trigger] spans@[i]) ==> lo <= spans@[i].0->0 && spans@[i].1->0 <= hi
        ),
{
    let mut range: Option<(i32, i32)> = None;
    let mut i: usize = 0;
    while i < spans.len()
        invariant
            0 <= i <= spans@.len(),
            range == spec_sprints_date_range(spans@.take(i as int)),
        decreases spans@.len() - i,
    {
        assert(spans@.take(i as int + 1).drop_last() =~= spans@.take(i as int));
        if let (Some(start), Some(end)) = spans[i] {
            range = match range {
                None => Some((start, end)),
                Some((lo, hi)) => Some((if start < lo { start } else { lo }, if end > hi { end } else { hi })),
            };
        }
        i = i + 1;
    }
    proof {
        assert(spans@.take(spans@.len() as int) =~= spans@);
        lemma_date_range(spans@);
    }
    range
}

/// The days of a sprint on which meetings are logged: each day from `start`
/// to `end` (day numbers) on which the user was not absent.
pub open spec fn spec_meeting_days(start: int, end: int, absent: Seq<i32>) -> Seq<i32>
    decreases end - start + 1,
{
    if end < start {
        Seq::empty()
    } else {
        let rest = spec_meeting_days(start, end - 1, absent);
        if absent.contains(end as i32) {
            rest
        } else {
            rest.push(end as i32)
        }
    }
}

fn day_in(days: &[i32], day: i32) -> (b: bool)
    ensures
        b == days@.contains(day),
{
    let mut i: usize = 0;
    while i < days.len()
        invariant
            0 <= i <= days@.len(),
            forall|j: int| 0 <= j < i ==> days@[j] != day,
        decreases days@.len() - i,
    {
        if days[i] == day {
            return true;
        }
        i = i + 1;
    }
    false
}

/// The days from `start` to `end` on which a sprint's meetings are logged:
/// every day but those in `absent`, in order.
pub fn meeting_days(start: i32, end: i32, absent: &[i32]) -> (days: Vec<i32>)
    ensures
        days@ == spec_meeting_days(start as int, end as int, absent@),
{
    let mut days: Vec<i32> = Vec::new();
    if end < start {
        return days;
    }
    let mut d = start;
    loop
        invariant_except_break
            start <= d <= end,
            days@ == spec_meeting_days(start as int, d - 1, absent@),
        ensures
            days@ == spec_meeting_days(start as int, end as int, absent@),
        decreases end - d,
    {
        if !day_in(absent, d) {
            days.push(d);
        }
        assert(days@ == spec_meeting_days(start as int, d as int, absent@));
        if d == end {
            break;
        }
        d = d + 1;
    }
    days
}

/// The worklog logged for a meeting: on its issue, for the meeting's length,
/// commented with its title; none for a meeting without an issue.
pub open spec fn spec_meeting_worklog(jira_link: Option<Seq<char>>, start: i64, end: i64, title: Option<Seq<char>>) -> Option<
    (Seq<char>, int, Seq<char>),
> {
    match jira_link {
        None => None,
        Some(issue) => Some(
            (
                issue,
                end - start,
                match title {
                    Some(t) => t,
                    None => "no title"@,
                },
            ),
        ),
    }
}

/// The issue, length in seconds and comment of the worklog logged for a meeting
/// from `start` to `end` (seconds); none for a meeting without an issue.
pub fn meeting_worklog(jira_link: &Option<String>, start: i64, end: i64, title: &Option<String>) -> (w: Option<(String, i64, String)>)
    requires
        i64::MIN <= end - start <= i64::MAX,
    ensures
        match w {
            None => spec_meeting_worklog(opt_view(*jira_link), start, end, opt_view(*title)) is None,
            Some((issue, seconds, comment)) => spec_meeting_worklog(opt_view(*jira_link), start, end, opt_view(*title))
                == Some((issue@, seconds as int, comment@)),
        },
{
    match jira_link {
        None => None,
        Some(issue) => {
            let comment = match title {
                Some(t) => t.clone(),
                None => "no title".to_string(),
            };
            Some((issue.clone(), end - start, comment))
        },
    }
}

/// A sprint's days on day `today`: its length (both ends counted), the days
/// gone (none before it starts, all once it is over) and the days left.
pub open spec fn spec_sprint_days(start: int, end: int, today: int) -> (int, int, int) {
    let total = end - start + 1;
    let gone = if today - start < 0 { 0 } else if today - start > total { total } else { today - start };
    let left = if end - today < 0 { 0 } else { end - today };
    (total, gone, left)
}

/// The day counts behind a sprint's burn rate, from day numbers (see `calendar`).
pub fn sprint_days(start: i32, end: i32, today: i32) -> (days: (i64, i64, i64))
    ensures
        days.0 == spec_sprint_days(start as int, end as int, today as int).0,
        days.1 == spec_sprint_days(start as int, end as int, today as int).1,
        days.2 == spec_sprint_days(start as int, end as int, today as int).2,
{
    let start = start as i64;
    let end = end as i64;
    let today = today as i64;
    let total = end - start + 1;
    let since = today - start;
    let gone = if since < 0 { 0 } else if since > total { total } else { since };
    let left = if end - today < 0 { 0 } else { end - today };
    (total, gone, left)
}

} // verus!
