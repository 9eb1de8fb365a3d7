use vstd::prelude::*;
use crate::calendar::{
    completes_perfect_sprint, completes_quarter_crunch, spec_completes_perfect_sprint,
    spec_completes_quarter_crunch, spec_weekday, weekday,
};
use crate::text::{insert_sorted, str_equal, strictly_sorted, views};

verus! {

/// The achievements the dashboard can unlock.
#[derive(Debug, Clone, Copy, PartialEq, Eq, Structural)]
pub enum Achievement {
    TimelineFixer,
    GitSquashMaster,
    DeclinedButLogged,
    NightOwl,
    QuarterCrunch,
    ForgotFriday,
    PerfectSprint,
    Overachiever,
    SpeedRunner,
    NoGaps,
    GitHubWhisperer,
    RainbowCalendar,
    TheUndoer,
    AboutClicker,
    ChroniesFriend,
    ChroniesApprentice,
    AutoLinkMaster,
    ColorCoder,
}

/// A worklog of the push being checked.
pub struct PushedWorklog {
    /// When the work started, in seconds since the Unix epoch.
    pub started: i64,
    /// Day of the work (day number, see `calendar`).
    pub day: i32,
    pub seconds: i64,
    pub meeting_id: Option<String>,
}

/// What the achievement checks know of a meeting.
pub struct MeetingFacts {
    pub id: String,
    /// The user's response to the invitation was `declined`.
    pub declined: bool,
    pub color_id: Option<String>,
}

/// Progress of a running wizard.
#[derive(Debug, Clone, Copy, PartialEq, Eq, Structural)]
pub struct WizardProgress {
    /// When the wizard started, in seconds since the Unix epoch.
    pub started_at: i64,
    pub worklogs_from_meetings: usize,
    pub worklogs_from_github: usize,
    pub worklogs_from_gaps: usize,
}

/// Everything the checks of a completed push look at.
pub struct PushContext {
    /// The worklogs of this push.
    pub push: Vec<PushedWorklog>,
    /// Days of every pushed worklog.
    pub pushed_days: Vec<i32>,
    /// First and last day of every followed sprint, when known.
    pub sprints: Vec<(Option<i32>, Option<i32>)>,
    pub meetings: Vec<MeetingFacts>,
    /// The current time, in seconds since the Unix epoch.
    pub now: i64,
    /// Today's day number, local time.
    pub today: i32,
    /// The current hour, local time.
    pub local_hour: u32,
    pub wizard: Option<WizardProgress>,
}

/// What just happened, as far as achievements care.
pub enum AchievementEvent {
    PushComplete(PushContext),
    RevertComplete,
    AboutPopupOpened,
    SecretSequenceTriggered { sequence_name: String },
    AutoLinkComplete { linked_count: usize },
    MeetingColorLinked,
    Other,
}

pub open spec fn opt(b: bool, a: Achievement) -> Seq<Achievement> {
    if b { seq![a] } else { Seq::empty() }
}

/// Some worklog of the push started more than 60 days ago.
pub open spec fn spec_old_worklog(push: Seq<PushedWorklog>, now: i64) -> bool {
    exists|i: int| 0 <= i < push.len() && (#[trigger] push[i]).started < now - 60 * 86400
}

/// How many worklogs of the push started on day `d`.
pub open spec fn worklogs_on(push: Seq<PushedWorklog>, d: i32) -> nat
    decreases push.len(),
{
    if push.len() == 0 {
        0
    } else {
        worklogs_on(push.drop_last(), d) + if push.last().day == d { 1nat } else { 0nat }
    }
}

/// Three or more worklogs of this push started on one day.
pub open spec fn spec_multiple_pushes_same_day(push: Seq<PushedWorklog>) -> bool {
    exists|i: int| 0 <= i < push.len() && worklogs_on(push, (#[trigger] push[i]).day) >= 3
}

proof fn lemma_worklogs_on_step(push: Seq<PushedWorklog>, d: i32, i: int)
    requires
        0 <= i < push.len(),
    ensures
        worklogs_on(push.take(i + 1), d) == worklogs_on(push.take(i), d) + if push[i].day == d { 1nat } else { 0nat },
{
    assert(push.take(i + 1).drop_last() =~= push.take(i));
}

proof fn lemma_worklogs_on_grows(push: Seq<PushedWorklog>, d: i32, i: int, j: int)
    requires
        0 <= i <= j <= push.len(),
    ensures
        worklogs_on(push.take(i), d) <= worklogs_on(push.take(j), d),
    decreases j - i,
{
    if i < j {
        lemma_worklogs_on_grows(push, d, i, j - 1);
        lemma_worklogs_on_step(push, d, j - 1);
    }
}

/// Three worklogs of one push that started on the same day earn the
/// achievement, whatever else the history holds.
pub proof fn law_three_same_day_worklogs_unlock(push: Seq<PushedWorklog>, a: int, b: int, c: int)
    requires
        0 <= a < b < c < push.len(),
        push[a].day == push[b].day,
        push[b].day == push[c].day,
    ensures
        spec_multiple_pushes_same_day(push),
{
    let d = push[a].day;
    lemma_worklogs_on_step(push, d, a);
    lemma_worklogs_on_grows(push, d, a + 1, b);
    lemma_worklogs_on_step(push, d, b);
    lemma_worklogs_on_grows(push, d, b + 1, c);
    lemma_worklogs_on_step(push, d, c);
    lemma_worklogs_on_grows(push, d, c + 1, push.len() as int);
    assert(push.take(push.len() as int) =~= push);
    assert(worklogs_on(push, push[a].day) >= 3);
}

/// The first meeting with id `id`.
pub open spec fn find_meeting(meetings: Seq<MeetingFacts>, id: Seq<char>) -> Option<MeetingFacts>
    decreases meetings.len(),
{
    if meetings.len() == 0 {
        None
    } else if meetings[0].id@ == id {
        Some(meetings[0])
    } else {
        find_meeting(meetings.drop_first(), id)
    }
}

/// The meeting a pushed worklog was logged for.
pub open spec fn meeting_of(w: PushedWorklog, meetings: Seq<MeetingFacts>) -> Option<MeetingFacts> {
    match w.meeting_id {
        Some(m) => find_meeting(meetings, m@),
        None => None,
    }
}

/// A meeting was found and the user declined it.
pub open spec fn declined_meeting(m: Option<MeetingFacts>) -> bool {
    match m {
        Some(m) => m.declined,
        None => false,
    }
}

/// Some worklog of the push was logged for a meeting the user declined.
pub open spec fn spec_declined_meeting_worklog(push: Seq<PushedWorklog>, meetings: Seq<MeetingFacts>) -> bool {
    exists|i: int| 0 <= i < push.len() && declined_meeting(#[trigger] meeting_of(push[i], meetings))
}

/// The calendar color of the meeting a pushed worklog was logged for.
pub open spec fn color_of(w: PushedWorklog, meetings: Seq<MeetingFacts>) -> Option<Seq<char>> {
    match meeting_of(w, meetings) {
        Some(m) => match m.color_id {
            Some(c) => Some(c@),
            None => None,
        },
        None => None,
    }
}

/// At least three different calendar colors among the meetings of the push.
pub open spec fn spec_rainbow(push: Seq<PushedWorklog>, meetings: Seq<MeetingFacts>) -> bool {
    exists|a: int, b: int, c: int|
        0 <= a < push.len() && 0 <= b < push.len() && 0 <= c < push.len()
            && (#[trigger] color_of(push[a], meetings)) is Some && (#[trigger] color_of(push[b], meetings)) is Some
            && (#[trigger] color_of(push[c], meetings)) is Some
            && color_of(push[a], meetings) != color_of(push[b], meetings)
            && color_of(push[a], meetings) != color_of(push[c], meetings)
            && color_of(push[b], meetings) != color_of(push[c], meetings)
}

/// Some worklog of the push is for a Friday that is already over.
pub open spec fn spec_forgotten_friday(push: Seq<PushedWorklog>, today: i32) -> bool {
    exists|i: int| 0 <= i < push.len() && spec_weekday((#[trigger] push[i]).day as int) == 4 && today > push[i].day
}

/// Some worklog of the push is for today.
pub open spec fn spec_today_worklog(push: Seq<PushedWorklog>, today: i32) -> bool {
    exists|i: int| 0 <= i < push.len() && (#[trigger] push[i]).day == today
}

/// The outcome of each check made on a completed push.
#[derive(Debug, Clone, Copy, PartialEq, Eq, Structural)]
pub struct PushChecks {
    pub old_worklog: bool,
    pub same_day_worklogs: bool,
    pub declined_meeting: bool,
    pub night: bool,
    pub quarter_crunch: bool,
    pub forgotten_friday: bool,
    pub perfect_sprint: bool,
    pub today_worklog: bool,
    pub rainbow: bool,
}

/// The checks of a completed push: a worklog over 60 days old; three worklogs
/// of one day; a worklog for a declined meeting; a push between 22:00
/// and 06:00; a crunched quarter; a Friday logged after the fact; a fully
/// covered sprint; a worklog for today; three meeting colors.
pub open spec fn spec_push_checks(ctx: PushContext) -> PushChecks {
    PushChecks {
        old_worklog: spec_old_worklog(ctx.push@, ctx.now),
        same_day_worklogs: spec_multiple_pushes_same_day(ctx.push@),
        declined_meeting: spec_declined_meeting_worklog(ctx.push@, ctx.meetings@),
        night: ctx.local_hour >= 22 || ctx.local_hour < 6,
        quarter_crunch: spec_completes_quarter_crunch(ctx.pushed_days@, ctx.today),
        forgotten_friday: spec_forgotten_friday(ctx.push@, ctx.today),
        perfect_sprint: spec_completes_perfect_sprint(ctx.pushed_days@, ctx.sprints@),
        today_worklog: spec_today_worklog(ctx.push@, ctx.today),
        rainbow: spec_rainbow(ctx.push@, ctx.meetings@),
    }
}

/// The achievements that the checks of a push earn, in checking order; the
/// wizard ones (finished within 3 minutes, no gap filling needed, a worklog
/// from GitHub) only while the wizard runs.
pub open spec fn spec_candidates_from(checks: PushChecks, wizard: Option<WizardProgress>, now: i64) -> Seq<Achievement> {
    let wizard_part = match wizard {
        Some(w) => opt(now - w.started_at < 180, Achievement::SpeedRunner)
            + opt(
                w.worklogs_from_gaps == 0 && w.worklogs_from_meetings + w.worklogs_from_github > 0,
                Achievement::NoGaps,
            ) + opt(w.worklogs_from_github >= 1, Achievement::GitHubWhisperer),
        None => Seq::empty(),
    };
    opt(checks.old_worklog, Achievement::TimelineFixer)
        + opt(checks.same_day_worklogs, Achievement::GitSquashMaster)
        + opt(checks.declined_meeting, Achievement::DeclinedButLogged)
        + opt(checks.night, Achievement::NightOwl)
        + opt(checks.quarter_crunch, Achievement::QuarterCrunch)
        + opt(checks.forgotten_friday, Achievement::ForgotFriday)
        + opt(checks.perfect_sprint, Achievement::PerfectSprint)
        + opt(checks.today_worklog, Achievement::Overachiever)
        + wizard_part
        + opt(checks.rainbow, Achievement::RainbowCalendar)
}

/// The achievements a completed push may unlock, in checking order.
pub open spec fn spec_push_candidates(ctx: PushContext) -> Seq<Achievement> {
    spec_candidates_from(spec_push_checks(ctx), ctx.wizard, ctx.now)
}

/// The achievements an event may unlock, in checking order.
pub open spec fn spec_unlock_candidates(event: AchievementEvent) -> Seq<Achievement> {
    match event {
        AchievementEvent::PushComplete(ctx) => spec_push_candidates(ctx),
        AchievementEvent::RevertComplete => seq![Achievement::TheUndoer],
        AchievementEvent::AboutPopupOpened => seq![Achievement::AboutClicker],
        AchievementEvent::SecretSequenceTriggered { sequence_name } => opt(sequence_name@ == "chronie"@, Achievement::ChroniesFriend),
        AchievementEvent::AutoLinkComplete { linked_count } => opt(linked_count >= 10, Achievement::AutoLinkMaster),
        AchievementEvent::MeetingColorLinked => seq![Achievement::ColorCoder],
        AchievementEvent::Other => Seq::empty(),
    }
}

} // verus!

verus! {

fn has_old_worklog_in_push(push: &[PushedWorklog], now: i64) -> (b: bool)
    requires
        now >= i64::MIN + 60 * 86400,
    ensures
        b == spec_old_worklog(push@, now),
{
    let limit = now - 60 * 86400;
    let mut i: usize = 0;
    while i < push.len()
        invariant
            0 <= i <= push@.len(),
            limit == now - 60 * 86400,
            forall|j: int| 0 <= j < i ==> !((#[trigger] push@[j]).started < limit),
        decreases push@.len() - i,
    {
        if push[i].started < limit {
            return true;
        }
        i = i + 1;
    }
    false
}

fn count_worklogs_on(push: &[PushedWorklog], d: i32) -> (n: usize)
    ensures
        n == worklogs_on(push@, d),
{
    let mut n: usize = 0;
    let mut i: usize = 0;
    while i < push.len()
        invariant
            0 <= i <= push@.len(),
            n == worklogs_on(push@.take(i as int), d),
            n <= i,
        decreases push@.len() - i,
    {
        assert(push@.take(i as int + 1).drop_last() =~= push@.take(i as int));
        if push[i].day == d {
            n = n + 1;
        }
        i = i + 1;
    }
    assert(push@.take(push@.len() as int) =~= push@);
    n
}

fn has_multiple_pushes_same_day(push: &[PushedWorklog]) -> (b: bool)
    ensures
        b == spec_multiple_pushes_same_day(push@),
{
    let mut i: usize = 0;
    while i < push.len()
        invariant
            0 <= i <= push@.len(),
            forall|j: int| 0 <= j < i ==> !(worklogs_on(push@, (#[trigger] push@[j]).day) >= 3),
        decreases push@.len() - i,
    {
        if count_worklogs_on(push, push[i].day) >= 3 {
            return true;
        }
        i = i + 1;
    }
    false
}

fn find_meeting_index(meetings: &[MeetingFacts], id: &str) -> (r: Option<usize>)
    ensures
        match r {
            Some(k) => k < meetings@.len() && find_meeting(meetings@, id@) == Some(meetings@[k as int]),
            None => find_meeting(meetings@, id@) is None,
        },
{
    let mut k: usize = 0;
    assert(meetings@.skip(0) =~= meetings@);
    while k < meetings.len()
        invariant
            0 <= k <= meetings@.len(),
            find_meeting(meetings@, id@) == find_meeting(meetings@.skip(k as int), id@),
        decreases meetings@.len() - k,
    {
        assert(meetings@.skip(k as int)[0] == meetings@[k as int]);
        if str_equal(meetings[k].id.as_str(), id) {
            return Some(k);
        }
        assert(meetings@.skip(k as int).drop_first() =~= meetings@.skip(k as int + 1));
        k = k + 1;
    }
    None
}

fn has_declined_meeting_worklog(push: &[PushedWorklog], meetings: &[MeetingFacts]) -> (b: bool)
    ensures
        b == spec_declined_meeting_worklog(push@, meetings@),
{
    let mut i: usize = 0;
    while i < push.len()
        invariant
            0 <= i <= push@.len(),
            forall|j: int| 0 <= j < i ==> !declined_meeting(#[trigger] meeting_of(push@[j], meetings@)),
        decreases push@.len() - i,
    {
        match &push[i].meeting_id {
            Some(mid) => {
                match find_meeting_index(meetings, mid.as_str()) {
                    Some(k) => {
                        if meetings[k].declined {
                            assert(declined_meeting(meeting_of(push@[i as int], meetings@)));
                            return true;
                        }
                    },
                    None => {},
                }
            },
            None => {},
        }
        i = i + 1;
    }
    false
}

fn color_of_exec(w: &PushedWorklog, meetings: &[MeetingFacts]) -> (c: Option<String>)
    ensures
        match c {
            Some(s) => color_of(*w, meetings@) == Some(s@),
            None => color_of(*w, meetings@) is None,
        },
{
    match &w.meeting_id {
        Some(mid) => match find_meeting_index(meetings, mid.as_str()) {
            Some(k) => match &meetings[k].color_id {
                Some(c) => Some(c.clone()),
                None => None,
            },
            None => None,
        },
        None => None,
    }
}

fn has_rainbow_calendar(push: &[PushedWorklog], meetings: &[MeetingFacts]) -> (b: bool)
    ensures
        b == spec_rainbow(push@, meetings@),
{
    let mut colors: Vec<String> = Vec::new();
    let mut i: usize = 0;
    while i < push.len()
        invariant
            0 <= i <= push@.len(),
            strictly_sorted(views(colors@)),
            forall|k: Seq<char>| #[trigger] views(colors@).contains(k)
                <==> exists|j: int| 0 <= j < i && #[trigger] color_of(push@[j], meetings@) == Some(k),
        decreases push@.len() - i,
    {
        let ghost before = views(colors@);
        match color_of_exec(&push[i], meetings) {
            Some(c) => {
                insert_sorted(&mut colors, c);
                proof {
                    assert forall|k: Seq<char>| #[trigger] views(colors@).contains(k)
                        <==> exists|j: int| 0 <= j < i + 1 && #[trigger] color_of(push@[j], meetings@) == Some(k) by {
                        assert(before.contains(k) <==> exists|j: int| 0 <= j < i && #[trigger] color_of(push@[j], meetings@) == Some(k));
                    }
                }
            },
            None => {
                proof {
                    assert forall|k: Seq<char>| #[trigger] views(colors@).contains(k)
                        <==> exists|j: int| 0 <= j < i + 1 && #[trigger] color_of(push@[j], meetings@) == Some(k) by {
                        assert(before.contains(k) <==> exists|j: int| 0 <= j < i && #[trigger] color_of(push@[j], meetings@) == Some(k));
                    }
                }
            },
        }
        i = i + 1;
    }
    let ghost cv = views(colors@);
    proof {
        if colors@.len() >= 3 {
            assert(cv.contains(cv[0]));
            assert(cv.contains(cv[1]));
            assert(cv.contains(cv[2]));
            let a = choose|j: int| 0 <= j < push@.len() && #[trigger] color_of(push@[j], meetings@) == Some(cv[0]);
            let b = choose|j: int| 0 <= j < push@.len() && #[trigger] color_of(push@[j], meetings@) == Some(cv[1]);
            let c = choose|j: int| 0 <= j < push@.len() && #[trigger] color_of(push@[j], meetings@) == Some(cv[2]);
            crate::text::lemma_lex_irreflexive(cv[0]);
            crate::text::lemma_lex_irreflexive(cv[1]);
            assert(crate::text::lex_lt(cv[0], cv[1]));
            assert(crate::text::lex_lt(cv[0], cv[2]));
            assert(crate::text::lex_lt(cv[1], cv[2]));
            assert(color_of(push@[a], meetings@) is Some);
            assert(color_of(push@[b], meetings@) is Some);
            assert(color_of(push@[c], meetings@) is Some);
        } else {
            assert forall|a: int, b: int, c: int|
                0 <= a < push@.len() && 0 <= b < push@.len() && 0 <= c < push@.len()
                    && (#[trigger] color_of(push@[a], meetings@)) is Some && (#[trigger] color_of(push@[b], meetings@)) is Some
                    && (#[trigger] color_of(push@[c], meetings@)) is Some
                    && color_of(push@[a], meetings@) != color_of(push@[b], meetings@)
                    && color_of(push@[a], meetings@) != color_of(push@[c], meetings@)
                implies color_of(push@[b], meetings@) == color_of(push@[c], meetings@) by {
                let ca = color_of(push@[a], meetings@)->0;
                let cb = color_of(push@[b], meetings@)->0;
                let cc = color_of(push@[c], meetings@)->0;
                assert(cv.contains(ca));
                assert(cv.contains(cb));
                assert(cv.contains(cc));
                let ia = choose|q: int| 0 <= q < cv.len() && cv[q] == ca;
                let ib = choose|q: int| 0 <= q < cv.len() && cv[q] == cb;
                let ic = choose|q: int| 0 <= q < cv.len() && cv[q] == cc;
            }
        }
    }
    colors.len() >= 3
}

fn has_forgotten_friday(push: &[PushedWorklog], today: i32) -> (b: bool)
    ensures
        b == spec_forgotten_friday(push@, today),
{
    let mut i: usize = 0;
    while i < push.len()
        invariant
            0 <= i <= push@.len(),
            forall|j: int| 0 <= j < i ==> !(spec_weekday((#[trigger] push@[j]).day as int) == 4 && today > push@[j].day),
        decreases push@.len() - i,
    {
        if weekday(push[i].day) == 4 && today > push[i].day {
            return true;
        }
        i = i + 1;
    }
    false
}

fn has_today_worklog(push: &[PushedWorklog], today: i32) -> (b: bool)
    ensures
        b == spec_today_worklog(push@, today),
{
    let mut i: usize = 0;
    while i < push.len()
        invariant
            0 <= i <= push@.len(),
            forall|j: int| 0 <= j < i ==> (#[trigger] push@[j]).day != today,
        decreases push@.len() - i,
    {
        if push[i].day == today {
            return true;
        }
        i = i + 1;
    }
    false
}

fn push_if(v: &mut Vec<Achievement>, b: bool, a: Achievement)
    ensures
        final(v)@ == old(v)@ + opt(b, a),
{
    if b {
        v.push(a);
    }
    assert(v@ =~= old(v)@ + opt(b, a));
}

/// Runs every check of a completed push.
pub fn run_push_checks(ctx: &PushContext) -> (checks: PushChecks)
    requires
        ctx.now >= i64::MIN + 60 * 86400,
        forall|k: int| 0 <= k < ctx.sprints@.len() ==> ((#[trigger] ctx.sprints@[k]).0 matches Some(s) ==> -96_000_000 < s),
        forall|k: int| 0 <= k < ctx.sprints@.len() ==> ((#[trigger] ctx.sprints@[k]).1 matches Some(e) ==> e < 96_000_000),
    ensures
        checks == spec_push_checks(*ctx),
{
    PushChecks {
        old_worklog: has_old_worklog_in_push(ctx.push.as_slice(), ctx.now),
        same_day_worklogs: has_multiple_pushes_same_day(ctx.push.as_slice()),
        declined_meeting: has_declined_meeting_worklog(ctx.push.as_slice(), ctx.meetings.as_slice()),
        night: ctx.local_hour >= 22 || ctx.local_hour < 6,
        quarter_crunch: completes_quarter_crunch(ctx.pushed_days.as_slice(), ctx.today),
        forgotten_friday: has_forgotten_friday(ctx.push.as_slice(), ctx.today),
        perfect_sprint: completes_perfect_sprint(ctx.pushed_days.as_slice(), ctx.sprints.as_slice()),
        today_worklog: has_today_worklog(ctx.push.as_slice(), ctx.today),
        rainbow: has_rainbow_calendar(ctx.push.as_slice(), ctx.meetings.as_slice()),
    }
}

/// The achievements earned by the outcome of a push's checks.
#[verifier::spinoff_prover]
#[verifier::rlimit(40)]
pub fn candidates_from(checks: PushChecks, wizard: Option<WizardProgress>, now: i64) -> (c: Vec<Achievement>)
    requires
        wizard matches Some(w) ==> now - w.started_at >= i64::MIN && now - w.started_at <= i64::MAX
            && w.worklogs_from_meetings + w.worklogs_from_github <= usize::MAX,
    ensures
        c@ == spec_candidates_from(checks, wizard, now),
{
    let mut c: Vec<Achievement> = Vec::new();
    assert(Seq::<Achievement>::empty() + opt(checks.old_worklog, Achievement::TimelineFixer)
        =~= opt(checks.old_worklog, Achievement::TimelineFixer));
    push_if(&mut c, checks.old_worklog, Achievement::TimelineFixer);
    push_if(&mut c, checks.same_day_worklogs, Achievement::GitSquashMaster);
    push_if(&mut c, checks.declined_meeting, Achievement::DeclinedButLogged);
    push_if(&mut c, checks.night, Achievement::NightOwl);
    push_if(&mut c, checks.quarter_crunch, Achievement::QuarterCrunch);
    push_if(&mut c, checks.forgotten_friday, Achievement::ForgotFriday);
    push_if(&mut c, checks.perfect_sprint, Achievement::PerfectSprint);
    push_if(&mut c, checks.today_worklog, Achievement::Overachiever);
    let ghost base = c@;
    match wizard {
        Some(w) => {
            let mut wz: Vec<Achievement> = Vec::new();
            let speed = now - w.started_at < 180;
            assert(Seq::<Achievement>::empty() + opt(speed, Achievement::SpeedRunner) =~= opt(speed, Achievement::SpeedRunner));
            push_if(&mut wz, speed, Achievement::SpeedRunner);
            push_if(
                &mut wz,
                w.worklogs_from_gaps == 0 && w.worklogs_from_meetings + w.worklogs_from_github > 0,
                Achievement::NoGaps,
            );
            push_if(&mut wz, w.worklogs_from_github >= 1, Achievement::GitHubWhisperer);
            let ghost wv = wz@;
            let mut k: usize = 0;
            while k < wz.len()
                invariant
                    0 <= k <= wz@.len(),
                    wz@ == wv,
                    c@ == base + wv.take(k as int),
                decreases wz@.len() - k,
            {
                c.push(wz[k]);
                assert(wv.take(k as int + 1) =~= wv.take(k as int).push(wv[k as int]));
                assert(c@ =~= base + wv.take(k as int + 1));
                k = k + 1;
            }
            assert(wv.take(wv.len() as int) =~= wv);
        },
        None => {
            assert(base =~= base + Seq::<Achievement>::empty());
        },
    }
    push_if(&mut c, checks.rainbow, Achievement::RainbowCalendar);
    c
}

/// Which achievements a completed push may unlock.
pub fn check_push_candidates(ctx: &PushContext) -> (candidates: Vec<Achievement>)
    requires
        ctx.now >= i64::MIN + 60 * 86400,
        forall|k: int| 0 <= k < ctx.sprints@.len() ==> ((#[trigger] ctx.sprints@[k]).0 matches Some(s) ==> -96_000_000 < s),
        forall|k: int| 0 <= k < ctx.sprints@.len() ==> ((#[trigger] ctx.sprints@[k]).1 matches Some(e) ==> e < 96_000_000),
        ctx.wizard matches Some(w) ==> ctx.now - w.started_at >= i64::MIN && ctx.now - w.started_at <= i64::MAX
            && w.worklogs_from_meetings + w.worklogs_from_github <= usize::MAX,
    ensures
        candidates@ == spec_push_candidates(*ctx),
{
    let checks = run_push_checks(ctx);
    candidates_from(checks, ctx.wizard, ctx.now)
}

/// Listens to application events and unlocks the achievements they earn.
pub struct AchievementTracker;

impl AchievementTracker {
    /// Which achievements an event may unlock (those not yet unlocked are then unlocked).
    pub fn check_unlock_candidates(event: &AchievementEvent) -> (candidates: Vec<Achievement>)
        requires
            event matches AchievementEvent::PushComplete(ctx) ==> {
                &&& ctx.now >= i64::MIN + 60 * 86400
                &&& forall|k: int| 0 <= k < ctx.sprints@.len() ==> ((#[trigger] ctx.sprints@[k]).0 matches Some(s) ==> -96_000_000 < s)
                &&& forall|k: int| 0 <= k < ctx.sprints@.len() ==> ((#[trigger] ctx.sprints@[k]).1 matches Some(e) ==> e < 96_000_000)
                &&& ctx.wizard matches Some(w) ==> ctx.now - w.started_at >= i64::MIN && ctx.now - w.started_at <= i64::MAX
                    && w.worklogs_from_meetings + w.worklogs_from_github <= usize::MAX
            },
        ensures
            candidates@ == spec_unlock_candidates(*event),
    {
        match event {
            AchievementEvent::PushComplete(ctx) => check_push_candidates(ctx),
            AchievementEvent::RevertComplete => vec![Achievement::TheUndoer],
            AchievementEvent::AboutPopupOpened => vec![Achievement::AboutClicker],
            AchievementEvent::SecretSequenceTriggered { sequence_name } => {
                let mut c: Vec<Achievement> = Vec::new();
                push_if(&mut c, str_equal(sequence_name.as_str(), "chronie"), Achievement::ChroniesFriend);
                c
            },
            AchievementEvent::AutoLinkComplete { linked_count } => {
                let mut c: Vec<Achievement> = Vec::new();
                push_if(&mut c, *linked_count >= 10, Achievement::AutoLinkMaster);
                c
            },
            AchievementEvent::MeetingColorLinked => vec![Achievement::ColorCoder],
            AchievementEvent::Other => Vec::new(),
        }
    }
}

/// The achievement that unlocks Chronie's messages of a category: the
/// `secret` and `friend` ones need Chronie's Friend, all others Chronie's Apprentice.
pub open spec fn spec_required_for_chronie(category: Seq<char>) -> Achievement {
    if category == "secret"@ || category == "friend"@ {
        Achievement::ChroniesFriend
    } else {
        Achievement::ChroniesApprentice
    }
}

/// Which achievement a Chronie message category requires.
pub fn required_for_chronie(category: &str) -> (a: Achievement)
    ensures
        a == spec_required_for_chronie(category@),
{
    if str_equal(category, "secret") || str_equal(category, "friend") {
        Achievement::ChroniesFriend
    } else {
        Achievement::ChroniesApprentice
    }
}

} // verus!
