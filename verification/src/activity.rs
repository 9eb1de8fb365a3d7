use vstd::prelude::*;
use crate::calendar::{is_workday, spec_is_workday, weekday, spec_weekday};

verus! {

/// A worklog as synced from Jira: the authoritative record of time spent.
#[derive(Debug, Clone)]
pub struct JiraWorklogEntry {
    pub id: String,
    pub author: String,
    pub issue_id: String,
    /// Day the work started (day number, see `calendar`).
    pub day: i32,
    pub seconds: u64,
}

/// Lifecycle of a worklog kept locally: created, staged for pushing, pushed to Jira.
#[derive(Debug, Clone, Copy, PartialEq, Eq, Structural)]
pub enum LocalWorklogState {
    Created,
    Staged,
    Pushed,
}

/// A worklog kept locally.
#[derive(Debug, Clone)]
pub struct LocalWorklogEntry {
    pub id: String,
    pub issue_id: String,
    /// Day the work started (day number, see `calendar`).
    pub day: i32,
    pub seconds: i64,
    /// Id of the Jira worklog it became, once pushed.
    pub worklog_id: Option<String>,
    pub status: LocalWorklogState,
}

/// Time logged on one day.
#[derive(Debug, Clone, Copy, PartialEq, Eq, Structural)]
pub struct DayActivity {
    pub date: i32,
    pub seconds: i128,
    pub is_absence: bool,
}

/// Time credited to a workday of absence on which nothing was logged: 7 hours.
pub const ABSENCE_DAY_SECONDS: i128 = 25200;

/// Some Jira worklog has id `id`.
pub open spec fn jira_has_id(jira: Seq<JiraWorklogEntry>, id: Seq<char>) -> bool {
    exists|j: int| 0 <= j < jira.len() && (#[trigger] jira[j]).id@ == id
}

/// A local worklog counts unless it was pushed to a Jira worklog that the Jira records hold.
pub open spec fn local_counts(local: LocalWorklogEntry, jira: Seq<JiraWorklogEntry>) -> bool {
    match local.worklog_id {
        Some(w) => !jira_has_id(jira, w@),
        None => true,
    }
}

/// Seconds of the Jira worklogs of day `d`.
pub open spec fn jira_day_seconds(jira: Seq<JiraWorklogEntry>, d: int) -> int
    decreases jira.len(),
{
    if jira.len() == 0 {
        0
    } else {
        jira_day_seconds(jira.drop_last(), d) + if jira.last().day == d { jira.last().seconds as int } else { 0 }
    }
}

/// Seconds of the counted local worklogs of day `d`.
pub open spec fn local_day_seconds(local: Seq<LocalWorklogEntry>, jira: Seq<JiraWorklogEntry>, d: int) -> int
    decreases local.len(),
{
    if local.len() == 0 {
        0
    } else {
        local_day_seconds(local.drop_last(), jira, d)
            + if local.last().day == d && local_counts(local.last(), jira) { local.last().seconds as int } else { 0 }
    }
}

/// Some worklog (Jira, or counted local) is dated `d`.
pub open spec fn has_worklog_on(local: Seq<LocalWorklogEntry>, jira: Seq<JiraWorklogEntry>, d: int) -> bool {
    (exists|j: int| 0 <= j < jira.len() && (#[trigger] jira[j]).day == d)
        || (exists|l: int| 0 <= l < local.len() && (#[trigger] local[l]).day == d && local_counts(local[l], jira))
}

/// `d` is a workday on which some absence falls.
pub open spec fn absent_on(absences: Seq<(i32, i32)>, d: int) -> bool {
    spec_is_workday(d) && exists|k: int| 0 <= k < absences.len() && (#[trigger] absences[k]).0 <= d <= absences[k].1
}

/// What the activity view shows for day `d`: the Jira time plus the local time
/// not yet in Jira; a workday of absence with nothing logged counts 7 hours.
pub open spec fn spec_day_activity(
    local: Seq<LocalWorklogEntry>,
    jira: Seq<JiraWorklogEntry>,
    absences: Seq<(i32, i32)>,
    d: int,
) -> DayActivity {
    DayActivity {
        date: d as i32,
        seconds: if has_worklog_on(local, jira, d) {
            (jira_day_seconds(jira, d) + local_day_seconds(local, jira, d)) as i128
        } else if absent_on(absences, d) {
            ABSENCE_DAY_SECONDS
        } else {
            0
        },
        is_absence: absent_on(absences, d),
    }
}

proof fn lemma_jira_day_seconds_bounds(jira: Seq<JiraWorklogEntry>, d: int)
    ensures
        0 <= jira_day_seconds(jira, d) <= jira.len() * 0x1_0000_0000_0000_0000,
    decreases jira.len(),
{
    if jira.len() > 0 {
        lemma_jira_day_seconds_bounds(jira.drop_last(), d);
    }
}

proof fn lemma_local_day_seconds_bounds(local: Seq<LocalWorklogEntry>, jira: Seq<JiraWorklogEntry>, d: int)
    ensures
        -(local.len() * 0x8000_0000_0000_0000) <= local_day_seconds(local, jira, d) <= local.len() * 0x8000_0000_0000_0000,
    decreases local.len(),
{
    if local.len() > 0 {
        lemma_local_day_seconds_bounds(local.drop_last(), jira, d);
    }
}

fn jira_contains_id(jira: &[JiraWorklogEntry], id: &String) -> (b: bool)
    ensures
        b == jira_has_id(jira@, id@),
{
    let mut j: usize = 0;
    while j < jira.len()
        invariant
            0 <= j <= jira@.len(),
            forall|k: int| 0 <= k < j ==> (#[trigger] jira@[k]).id@ != id@,
        decreases jira@.len() - j,
    {
        if jira[j].id == *id {
            return true;
        }
        j = j + 1;
    }
    false
}

/// For each local worklog, whether it counts (it is not already among the Jira worklogs).
fn counted_local(local: &[LocalWorklogEntry], jira: &[JiraWorklogEntry]) -> (flags: Vec<bool>)
    ensures
        flags@.len() == local@.len(),
        forall|l: int| 0 <= l < local@.len() ==> flags@[l] == local_counts(#[trigger] local@[l], jira@),
{
    let mut flags: Vec<bool> = Vec::new();
    let mut l: usize = 0;
    while l < local.len()
        invariant
            0 <= l <= local@.len(),
            flags@.len() == l,
            forall|k: int| 0 <= k < l ==> flags@[k] == local_counts(#[trigger] local@[k], jira@),
        decreases local@.len() - l,
    {
        let counts = match &local[l].worklog_id {
            Some(w) => !jira_contains_id(jira, w),
            None => true,
        };
        flags.push(counts);
        l = l + 1;
    }
    flags
}

fn absent_on_exec(absences: &[(i32, i32)], d: i32) -> (b: bool)
    ensures
        b == absent_on(absences@, d as int),
{
    if !is_workday(d) {
        return false;
    }
    let mut k: usize = 0;
    while k < absences.len()
        invariant
            0 <= k <= absences@.len(),
            spec_is_workday(d as int),
            forall|j: int| 0 <= j < k ==> !((#[trigger] absences@[j]).0 <= d <= absences@[j].1),
        decreases absences@.len() - k,
    {
        if absences[k].0 <= d && d <= absences[k].1 {
            return true;
        }
        k = k + 1;
    }
    false
}

/// The activity of day `d`.
fn day_activity(
    local: &[LocalWorklogEntry],
    counted: &Vec<bool>,
    jira: &[JiraWorklogEntry],
    absences: &[(i32, i32)],
    d: i32,
) -> (a: DayActivity)
    requires
        jira@.len() < 0x1_0000_0000,
        local@.len() < 0x1_0000_0000,
        counted@.len() == local@.len(),
        forall|l: int| 0 <= l < local@.len() ==> counted@[l] == local_counts(#[trigger] local@[l], jira@),
    ensures
        a == spec_day_activity(local@, jira@, absences@, d as int),
{
    let mut jira_sum: i128 = 0;
    let mut found = false;
    let mut j: usize = 0;
    while j < jira.len()
        invariant
            0 <= j <= jira@.len(),
            jira@.len() < 0x1_0000_0000,
            jira_sum == jira_day_seconds(jira@.take(j as int), d as int),
            found == exists|k: int| 0 <= k < j && (#[trigger] jira@[k]).day == d,
        decreases jira@.len() - j,
    {
        proof {
            assert(jira@.take(j as int + 1).drop_last() =~= jira@.take(j as int));
            lemma_jira_day_seconds_bounds(jira@.take(j as int), d as int);
            assert(jira@.take(j as int).len() == j);
        }
        if jira[j].day == d {
            jira_sum = jira_sum + jira[j].seconds as i128;
            found = true;
        }
        j = j + 1;
    }
    proof {
        assert(jira@.take(jira@.len() as int) =~= jira@);
        lemma_jira_day_seconds_bounds(jira@, d as int);
    }
    let mut local_sum: i128 = 0;
    let mut l: usize = 0;
    while l < local.len()
        invariant
            0 <= l <= local@.len(),
            local@.len() < 0x1_0000_0000,
            jira@.len() < 0x1_0000_0000,
            0 <= jira_sum <= jira@.len() * 0x1_0000_0000_0000_0000,
            counted@.len() == local@.len(),
            forall|k: int| 0 <= k < local@.len() ==> counted@[k] == local_counts(#[trigger] local@[k], jira@),
            local_sum == local_day_seconds(local@.take(l as int), jira@, d as int),
            found == ((exists|k: int| 0 <= k < jira@.len() && (#[trigger] jira@[k]).day == d)
                || (exists|k: int| 0 <= k < l && (#[trigger] local@[k]).day == d && local_counts(local@[k], jira@))),
        decreases local@.len() - l,
    {
        proof {
            assert(local@.take(l as int + 1).drop_last() =~= local@.take(l as int));
            lemma_local_day_seconds_bounds(local@.take(l as int), jira@, d as int);
            assert(local@.take(l as int).len() == l);
        }
        if local[l].day == d && counted[l] {
            local_sum = local_sum + local[l].seconds as i128;
            found = true;
        }
        l = l + 1;
    }
    proof {
        assert(jira@.take(jira@.len() as int) =~= jira@);
        assert(local@.take(local@.len() as int) =~= local@);
        lemma_jira_day_seconds_bounds(jira@, d as int);
        lemma_local_day_seconds_bounds(local@, jira@, d as int);
    }
    let is_absence = absent_on_exec(absences, d);
    let seconds = if found {
        jira_sum + local_sum
    } else if is_absence {
        ABSENCE_DAY_SECONDS
    } else {
        0
    };
    DayActivity { date: d, seconds, is_absence }
}

/// Daily activity for every day of `start..=end`, in order: Jira worklogs
/// are authoritative, local worklogs count unless already pushed to one of
/// them, and a workday of absence with nothing logged counts 7 hours.
pub fn calculate_activity(
    start: i32,
    end: i32,
    jira: &[JiraWorklogEntry],
    local: &[LocalWorklogEntry],
    absences: &[(i32, i32)],
) -> (activities: Vec<DayActivity>)
    requires
        end < i32::MAX,
        jira@.len() < 0x1_0000_0000,
        local@.len() < 0x1_0000_0000,
    ensures
        activities@.len() == if end < start { 0 } else { end - start + 1 },
        forall|i: int| 0 <= i < activities@.len()
            ==> #[trigger] activities@[i] == spec_day_activity(local@, jira@, absences@, start + i),
{
    let mut activities: Vec<DayActivity> = Vec::new();
    if end < start {
        return activities;
    }
    let counted = counted_local(local, jira);
    let mut current = start;
    while current <= end
        invariant
            start <= current <= end + 1,
            end < i32::MAX,
            jira@.len() < 0x1_0000_0000,
            local@.len() < 0x1_0000_0000,
            activities@.len() == current - start,
            counted@.len() == local@.len(),
            forall|l: int| 0 <= l < local@.len() ==> counted@[l] == local_counts(#[trigger] local@[l], jira@),
            forall|i: int| 0 <= i < activities@.len()
                ==> #[trigger] activities@[i] == spec_day_activity(local@, jira@, absences@, start + i),
        decreases end - current + 1,
    {
        let a = day_activity(local, &counted, jira, absences, current);
        activities.push(a);
        current = current + 1;
    }
    activities
}

/// Activity of a sprint over its whole period; none for a sprint without both dates.
pub fn calculate_sprint_activity(
    sprint_start: Option<i32>,
    sprint_end: Option<i32>,
    jira: &[JiraWorklogEntry],
    local: &[LocalWorklogEntry],
    absences: &[(i32, i32)],
) -> (activities: Vec<DayActivity>)
    requires
        sprint_end matches Some(e) ==> e < i32::MAX,
        jira@.len() < 0x1_0000_0000,
        local@.len() < 0x1_0000_0000,
    ensures
        match (sprint_start, sprint_end) {
            (Some(s), Some(e)) => activities@.len() == (if e < s { 0 } else { e - s + 1 })
                && forall|i: int| 0 <= i < activities@.len()
                    ==> #[trigger] activities@[i] == spec_day_activity(local@, jira@, absences@, s + i),
            _ => activities@.len() == 0,
        },
{
    match (sprint_start, sprint_end) {
        (Some(s), Some(e)) => calculate_activity(s, e, jira, local, absences),
        _ => Vec::new(),
    }
}

/// The worklog wall spans whole weeks: from the Monday of the week that holds
/// the day 365 days before this week's Monday, to this week's Sunday.
pub open spec fn spec_wall_range(today: int) -> (int, int) {
    let this_monday = today - spec_weekday(today);
    let approx_start = this_monday - 365;
    (approx_start - spec_weekday(approx_start), this_monday + 6)
}

/// First and last day of the worklog wall shown on `today`.
pub fn worklog_wall_range(today: i32) -> (range: (i32, i32))
    requires
        -96_000_000 < today < 96_000_000,
    ensures
        range.0 == spec_wall_range(today as int).0,
        range.1 == spec_wall_range(today as int).1,
{
    let this_monday = today - weekday(today) as i32;
    let approx_start = this_monday - 365;
    let start_monday = approx_start - weekday(approx_start) as i32;
    (start_monday, this_monday + 6)
}

/// The wall starts on a Monday, ends on a Sunday, and covers this week and
/// the 53 weeks before it: 378 days.
pub proof fn law_wall_range_whole_weeks(today: int)
    ensures
        spec_weekday(spec_wall_range(today).0) == 0,
        spec_weekday(spec_wall_range(today).1) == 6,
        spec_wall_range(today).0 <= today - 365,
        today <= spec_wall_range(today).1,
        spec_wall_range(today).1 - spec_wall_range(today).0 + 1 == 378,
        (spec_wall_range(today).1 - spec_wall_range(today).0 + 1) % 7 == 0,
{
    let this_monday = today - spec_weekday(today);
    let approx_start = this_monday - 365;
    let start = approx_start - spec_weekday(approx_start);
    assert(spec_weekday(this_monday) == 0) by (nonlinear_arith)
        requires this_monday == today - (today - 1) % 7;
    assert(spec_weekday(start) == 0) by (nonlinear_arith)
        requires start == approx_start - (approx_start - 1) % 7;
    assert(spec_weekday(this_monday + 6) == 6) by (nonlinear_arith)
        requires (this_monday - 1) % 7 == 0;
    assert((this_monday + 6 - start + 1) % 7 == 0) by (nonlinear_arith)
        requires (this_monday - 1) % 7 == 0, (start - 1) % 7 == 0;
}

/// Logged time of a period, leaving out absence days.
pub open spec fn spec_logged_seconds(activities: Seq<DayActivity>) -> int
    decreases activities.len(),
{
    if activities.len() == 0 {
        0
    } else {
        spec_logged_seconds(activities.drop_last())
            + if activities.last().is_absence { 0 } else { activities.last().seconds as int }
    }
}

/// Sums the time of the days that are not absences.
pub fn logged_seconds(activities: &[DayActivity]) -> (total: i128)
    requires
        forall|i: int| 0 <= i < activities@.len() ==> -0x1_0000_0000_0000_0000_0000 <= (#[trigger] activities@[i]).seconds <= 0x1_0000_0000_0000_0000_0000,
        activities@.len() <= 0x1_0000_0000,
    ensures
        total == spec_logged_seconds(activities@),
{
    let mut total: i128 = 0;
    let mut i: usize = 0;
    while i < activities.len()
        invariant
            0 <= i <= activities@.len(),
            activities@.len() <= 0x1_0000_0000,
            forall|i: int| 0 <= i < activities@.len() ==> -0x1_0000_0000_0000_0000_0000 <= (#[trigger] activities@[i]).seconds <= 0x1_0000_0000_0000_0000_0000,
            total == spec_logged_seconds(activities@.take(i as int)),
            -(i * 0x1_0000_0000_0000_0000_0000) <= total <= i * 0x1_0000_0000_0000_0000_0000,
        decreases activities@.len() - i,
    {
        proof {
            assert(activities@.take(i as int + 1).drop_last() =~= activities@.take(i as int));
        }
        if !activities[i].is_absence {
            total = total + activities[i].seconds;
        }
        i = i + 1;
    }
    proof {
        assert(activities@.take(activities@.len() as int) =~= activities@);
    }
    total
}

} // verus!

verus! {

/// A local worklog that was pushed to a Jira worklog still in the Jira
/// records never counts twice: adding it leaves every day's activity as it was.
pub proof fn law_pushed_local_not_double_counted(
    local: Seq<LocalWorklogEntry>,
    extra: LocalWorklogEntry,
    jira: Seq<JiraWorklogEntry>,
    absences: Seq<(i32, i32)>,
    d: int,
)
    requires
        extra.worklog_id matches Some(w) && jira_has_id(jira, w@),
    ensures
        spec_day_activity(local.push(extra), jira, absences, d) == spec_day_activity(local, jira, absences, d),
{
    let pushed = local.push(extra);
    assert(pushed.drop_last() =~= local);
    assert(!local_counts(extra, jira));
    assert(has_worklog_on(pushed, jira, d) == has_worklog_on(local, jira, d)) by {
        if has_worklog_on(pushed, jira, d) && !(exists|j: int| 0 <= j < jira.len() && (#[trigger] jira[j]).day == d) {
            let l = choose|l: int| 0 <= l < pushed.len() && (#[trigger] pushed[l]).day == d && local_counts(pushed[l], jira);
            assert(l < local.len());
            assert(local[l] == pushed[l]);
        }
        if has_worklog_on(local, jira, d) && !(exists|j: int| 0 <= j < jira.len() && (#[trigger] jira[j]).day == d) {
            let l = choose|l: int| 0 <= l < local.len() && (#[trigger] local[l]).day == d && local_counts(local[l], jira);
            assert(pushed[l] == local[l]);
        }
    }
}

/// A local worklog that is not already among the Jira records adds its
/// seconds to its day, and its day then shows logged time rather than an absence.
pub proof fn law_unpushed_local_counts(
    local: Seq<LocalWorklogEntry>,
    extra: LocalWorklogEntry,
    jira: Seq<JiraWorklogEntry>,
    absences: Seq<(i32, i32)>,
)
    requires
        local_counts(extra, jira),
    ensures
        local_day_seconds(local.push(extra), jira, extra.day as int)
            == local_day_seconds(local, jira, extra.day as int) + extra.seconds,
        has_worklog_on(local.push(extra), jira, extra.day as int),
        spec_day_activity(local.push(extra), jira, absences, extra.day as int).seconds
            == (jira_day_seconds(jira, extra.day as int) + local_day_seconds(local, jira, extra.day as int) + extra.seconds) as i128,
{
    let pushed = local.push(extra);
    let d = extra.day as int;
    assert(pushed.drop_last() =~= local);
    assert(pushed[local.len() as int] == extra);
    assert(has_worklog_on(pushed, jira, d));
}

} // verus!
