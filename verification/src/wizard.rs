use vstd::prelude::*;
use crate::keys::Key;
use crate::layout::{boundary_at, byte_len, shorten, spec_shorten};
use crate::text::{decimal, decimal_string, str_equal, views};

verus! {

/// The steps of the sprint wizard, without the data each one carries.
#[derive(Debug, Clone, Copy, PartialEq, Eq, Structural)]
pub enum WizardStepKind {
    Syncing,
    AutoLinking,
    ManualLinking,
    CreatingMeetingWorklogs,
    CreatingGitHubWorklogs,
    FillingGaps,
    ReviewingWorklogs,
    Pushing,
    Complete,
}

/// What the wizard records so that a cancellation can undo its work: the
/// meetings it linked, the worklogs it created, and the link each linked
/// meeting had before.
#[derive(Clone)]
pub struct WizardRollbackLog {
    pub linked_meeting_ids: Vec<String>,
    pub created_worklog_ids: Vec<String>,
    pub original_meeting_links: Vec<(String, Option<String>)>,
}

/// The view of an optional string.
pub open spec fn opt_chars(o: Option<String>) -> Option<Seq<char>> {
    match o {
        Some(s) => Some(s@),
        None => None,
    }
}

/// Whether the first `n` entries of `links` have a key other than `key`.
pub open spec fn key_absent(links: Seq<(String, Option<String>)>, key: Seq<char>, n: int) -> bool {
    forall|j: int| 0 <= j < n ==> (#[trigger] links[j]).0@ != key
}

/// The recorded former links as a map from meeting id to link; a later
/// entry for the same meeting takes precedence.
pub open spec fn links_map(links: Seq<(String, Option<String>)>) -> Map<Seq<char>, Option<Seq<char>>>
    decreases links.len(),
{
    if links.len() == 0 {
        Map::empty()
    } else {
        links_map(links.drop_last()).insert(links.last().0@, opt_chars(links.last().1))
    }
}

impl Default for WizardRollbackLog {
    fn default() -> (log: Self)
        ensures
            log.linked_meeting_ids@.len() == 0,
            log.created_worklog_ids@.len() == 0,
            log.original_meeting_links@.len() == 0,
    {
        WizardRollbackLog {
            linked_meeting_ids: Vec::new(),
            created_worklog_ids: Vec::new(),
            original_meeting_links: Vec::new(),
        }
    }
}

proof fn lemma_links_update(links: Seq<(String, Option<String>)>, i: int, entry: (String, Option<String>))
    requires
        0 <= i < links.len(),
        links[i].0@ == entry.0@,
        forall|j: int| 0 <= j < links.len() && j != i ==> (#[trigger] links[j]).0@ != entry.0@,
    ensures
        links_map(links.update(i, entry)) == links_map(links).insert(entry.0@, opt_chars(entry.1)),
    decreases links.len(),
{
    let n = links.len() - 1;
    if i == n {
        assert(links.update(i, entry).drop_last() == links.drop_last());
        assert(links_map(links.update(i, entry)) =~= links_map(links).insert(entry.0@, opt_chars(entry.1)));
    } else {
        lemma_links_update(links.drop_last(), i, entry);
        assert(links.update(i, entry).drop_last() == links.drop_last().update(i, entry));
        assert(links_map(links.update(i, entry)) =~= links_map(links).insert(entry.0@, opt_chars(entry.1)));
    }
}

impl WizardRollbackLog {
    /// Every meeting id occurs at most once among the recorded former links.
    pub open spec fn wf(&self) -> bool {
        forall|a: int, b: int|
            0 <= a < b < self.original_meeting_links@.len() ==> (#[trigger] self.original_meeting_links@[a]).0@
                != (#[trigger] self.original_meeting_links@[b]).0@
    }

    /// Records that the wizard linked a meeting that had no link before.
    pub fn record_link(&mut self, meeting_id: String)
        requires
            old(self).wf(),
        ensures
            final(self).wf(),
            views(final(self).linked_meeting_ids@) == views(old(self).linked_meeting_ids@).push(meeting_id@),
            links_map(final(self).original_meeting_links@) == links_map(old(self).original_meeting_links@).insert(
                meeting_id@,
                None,
            ),
            final(self).created_worklog_ids == old(self).created_worklog_ids,
    {
        let ghost before = self.original_meeting_links@;
        let mut i: usize = 0;
        let mut found = false;
        while !found && i < self.original_meeting_links.len()
            invariant
                i <= self.original_meeting_links@.len(),
                self.original_meeting_links@ == before,
                found ==> i < before.len() && before[i as int].0@ == meeting_id@,
                !found ==> key_absent(before, meeting_id@, i as int),
            decreases self.original_meeting_links@.len() - i + if found { 0int } else { 1int },
        {
            if str_equal(self.original_meeting_links[i].0.as_str(), meeting_id.as_str()) {
                found = true;
            } else {
                i = i + 1;
            }
        }
        let entry = (meeting_id.clone(), None);
        if found {
            proof {
                assert forall|j: int| 0 <= j < before.len() && j != i implies (#[trigger] before[j]).0@ != entry.0@ by {
                    if j < i {
                        assert(before[j].0@ != before[i as int].0@);
                    } else {
                        assert(before[i as int].0@ != before[j].0@);
                    }
                }
                lemma_links_update(before, i as int, entry);
            }
            self.original_meeting_links.set(i, entry);
            proof {
                assert(self.original_meeting_links@ == before.update(i as int, entry));
                let after = self.original_meeting_links@;
                assert forall|a: int, b: int| 0 <= a < b < after.len() implies (#[trigger] after[a]).0@ != (#[trigger] after[b]).0@ by {
                    if a != i && b != i {
                        assert(after[a] == before[a] && after[b] == before[b]);
                    } else if a == i {
                        assert(before[i as int].0@ != before[b].0@);
                    } else {
                        assert(before[a].0@ != before[i as int].0@);
                    }
                }
            }
        } else {
            self.original_meeting_links.push(entry);
            proof {
                assert(self.original_meeting_links@.drop_last() == before);
                assert(links_map(self.original_meeting_links@) == links_map(before).insert(meeting_id@, opt_chars(
                    None,
                )));
                let after = self.original_meeting_links@;
                assert forall|a: int, b: int| 0 <= a < b < after.len() implies (#[trigger] after[a]).0@ != (#[trigger] after[b]).0@ by {
                    if b == before.len() {
                        assert(after[a] == before[a]);
                    } else {
                        assert(after[a] == before[a] && after[b] == before[b]);
                    }
                }
            }
        }
        let ghost linked_before = self.linked_meeting_ids@;
        self.linked_meeting_ids.push(meeting_id);
        proof {
            assert(views(self.linked_meeting_ids@) =~= views(linked_before).push(meeting_id@));
        }
    }

    /// Records a worklog the wizard created.
    pub fn record_worklog(&mut self, worklog_id: String)
        ensures
            views(final(self).created_worklog_ids@) == views(old(self).created_worklog_ids@).push(worklog_id@),
            final(self).linked_meeting_ids == old(self).linked_meeting_ids,
            final(self).original_meeting_links == old(self).original_meeting_links,
    {
        let ghost before = self.created_worklog_ids@;
        self.created_worklog_ids.push(worklog_id);
        proof {
            assert(views(self.created_worklog_ids@) =~= views(before).push(worklog_id@));
        }
    }
}

/// The popup that asks whether to cancel the wizard.
pub struct WizardCancelConfirmation;

/// The answer to the cancel confirmation.
#[derive(Debug, Clone, Copy, PartialEq, Eq, Structural)]
pub enum CancelChoice {
    /// Cancel and undo everything the wizard did.
    Rollback,
    /// Leave the wizard, keeping its worklogs staged.
    KeepStaged,
    /// Go on with the wizard.
    Continue,
    /// The key answers nothing; the popup stays.
    Undecided,
}

/// The cancel confirmation's reading of a key.
pub open spec fn spec_cancel_choice(key: Key) -> CancelChoice {
    match key {
        Key::Char('y') | Key::Char('Y') => CancelChoice::Rollback,
        Key::Char('k') | Key::Char('K') => CancelChoice::KeepStaged,
        Key::Char('n') | Key::Char('N') | Key::Esc => CancelChoice::Continue,
        _ => CancelChoice::Undecided,
    }
}

impl WizardCancelConfirmation {
    /// Reads the answer a key gives.
    pub fn choice(&self, key: Key) -> (c: CancelChoice)
        ensures
            c == spec_cancel_choice(key),
    {
        match key {
            Key::Char('y') | Key::Char('Y') => CancelChoice::Rollback,
            Key::Char('k') | Key::Char('K') => CancelChoice::KeepStaged,
            Key::Char('n') | Key::Char('N') | Key::Esc => CancelChoice::Continue,
            _ => CancelChoice::Undecided,
        }
    }
}

/// The answer to the prompt shown when unpushed worklogs exist as the wizard starts.
#[derive(Debug, Clone, Copy, PartialEq, Eq, Structural)]
pub enum PreLaunchChoice {
    /// Keep the existing worklogs and start.
    Keep,
    /// Delete the unpushed worklogs, then start.
    Reset,
    /// Do not start the wizard.
    Abort,
    /// The key answers nothing; the prompt stays.
    Undecided,
}

/// The pre-launch prompt's reading of a key.
pub open spec fn spec_pre_launch_choice(key: Key) -> PreLaunchChoice {
    match key {
        Key::Char('k') | Key::Char('K') => PreLaunchChoice::Keep,
        Key::Char('r') | Key::Char('R') => PreLaunchChoice::Reset,
        Key::Esc => PreLaunchChoice::Abort,
        _ => PreLaunchChoice::Undecided,
    }
}

/// Reads the answer a key gives to the pre-launch prompt.
pub fn pre_launch_choice(key: Key) -> (c: PreLaunchChoice)
    ensures
        c == spec_pre_launch_choice(key),
{
    match key {
        Key::Char('k') | Key::Char('K') => PreLaunchChoice::Keep,
        Key::Char('r') | Key::Char('R') => PreLaunchChoice::Reset,
        Key::Esc => PreLaunchChoice::Abort,
        _ => PreLaunchChoice::Undecided,
    }
}

/// The answer to the "unlink this meeting?" prompt: `Some(true)` to unlink,
/// `Some(false)` to keep the link, `None` when the key answers nothing.
pub open spec fn spec_unlink_choice(key: Key) -> Option<bool> {
    match key {
        Key::Char('y') | Key::Char('Y') | Key::Enter => Some(true),
        Key::Char('n') | Key::Char('N') | Key::Esc => Some(false),
        _ => None,
    }
}

/// Reads the answer a key gives to the unlink prompt.
pub fn unlink_choice(key: Key) -> (c: Option<bool>)
    ensures
        c == spec_unlink_choice(key),
{
    match key {
        Key::Char('y') | Key::Char('Y') | Key::Enter => Some(true),
        Key::Char('n') | Key::Char('N') | Key::Esc => Some(false),
        _ => None,
    }
}

/// The application events the wizard listens to.
pub enum WizardEvent {
    FetchComplete,
    PushComplete,
    PushProgress { current: usize, total: usize, message: String },
    Other,
}

/// How the wizard reacts to an event.
#[derive(Debug, Clone, Copy, PartialEq, Eq, Structural)]
pub enum WizardReaction {
    /// Syncing finished: go on to auto-linking.
    StartAutoLinking,
    /// The push finished: complete the wizard.
    FinishPush,
    /// Record the push progress.
    RecordProgress,
    Ignore,
}

/// The wizard's reaction to an event in a step: a finished fetch moves on
/// from syncing, a finished push or its progress matters while pushing.
pub open spec fn spec_reaction(step: WizardStepKind, event: WizardEvent) -> WizardReaction {
    match (event, step) {
        (WizardEvent::FetchComplete, WizardStepKind::Syncing) => WizardReaction::StartAutoLinking,
        (WizardEvent::PushComplete, WizardStepKind::Pushing) => WizardReaction::FinishPush,
        (WizardEvent::PushProgress { .. }, WizardStepKind::Pushing) => WizardReaction::RecordProgress,
        _ => WizardReaction::Ignore,
    }
}

/// Most push log lines the wizard keeps.
pub const PUSH_LOG_LINES: usize = 10;

/// The push log after a new line: the line is appended and, past ten
/// lines, the oldest is dropped.
pub open spec fn spec_push_log(logs: Seq<Seq<char>>, message: Seq<char>) -> Seq<Seq<char>> {
    let appended = logs.push(message);
    if appended.len() > PUSH_LOG_LINES { appended.drop_first() } else { appended }
}

/// The wizard's subscriber to application events.
pub struct WizardEventHandler;

impl WizardEventHandler {
    /// Decides how the wizard, in `step`, reacts to `event`.
    pub fn react(&self, step: WizardStepKind, event: &WizardEvent) -> (r: WizardReaction)
        ensures
            r == spec_reaction(step, *event),
    {
        match (event, step) {
            (WizardEvent::FetchComplete, WizardStepKind::Syncing) => WizardReaction::StartAutoLinking,
            (WizardEvent::PushComplete, WizardStepKind::Pushing) => WizardReaction::FinishPush,
            (WizardEvent::PushProgress { .. }, WizardStepKind::Pushing) => WizardReaction::RecordProgress,
            _ => WizardReaction::Ignore,
        }
    }

    /// Appends a push log line, keeping only the last ten.
    pub fn record_push_log(&self, logs: &mut Vec<String>, message: String)
        ensures
            views(final(logs)@) == spec_push_log(views(old(logs)@), message@),
    {
        let ghost before = logs@;
        logs.push(message);
        proof {
            assert(views(logs@) =~= views(before).push(message@));
        }
        if logs.len() > PUSH_LOG_LINES {
            let ghost appended = logs@;
            logs.remove(0);
            proof {
                assert(views(logs@) =~= views(appended).drop_first());
            }
        }
    }
}

/// The push log never holds more than ten lines, and its newest line is the last one recorded.
pub proof fn law_push_log_bounded(logs: Seq<Seq<char>>, message: Seq<char>)
    requires
        logs.len() <= PUSH_LOG_LINES,
    ensures
        spec_push_log(logs, message).len() <= PUSH_LOG_LINES,
        spec_push_log(logs, message).last() == message,
{
}

/// The spinner frame after a tick: it cycles through ten frames, and stands still once the wizard is complete.
pub open spec fn spec_spinner_frame(frame: usize, step: WizardStepKind) -> usize {
    if step == WizardStepKind::Complete { frame } else { ((frame + 1) % 10) as usize }
}

/// Advances the wizard's spinner.
pub fn next_spinner_frame(frame: usize, step: WizardStepKind) -> (f: usize)
    requires
        step != WizardStepKind::Complete ==> frame < usize::MAX,
    ensures
        f == spec_spinner_frame(frame, step),
{
    if step == WizardStepKind::Complete {
        frame
    } else {
        (frame + 1) % 10
    }
}

/// What a key in the wizard's manual-linking step asks for.
#[derive(Debug, Clone, Copy, PartialEq, Eq, Structural)]
pub enum ManualLinkStep {
    Nothing,
    /// Open the issue picker for this unlinked meeting (by index).
    Link(usize),
    /// Leave the remaining meetings unlinked and move on.
    SkipRemaining,
}

/// The manual-linking step's response to `key`, with `count` meetings still
/// unlinked: the new selection and what to do.
pub open spec fn spec_manual_link_key(count: int, selected: usize, key: Key) -> (usize, ManualLinkStep) {
    let max_index: usize = if count > 0 { (count - 1) as usize } else { 0 };
    if key == Key::Char('l') || key == Key::Char('L') || key == Key::Enter {
        (selected, if selected < count { ManualLinkStep::Link(selected) } else { ManualLinkStep::Nothing })
    } else if key == Key::Up || key == Key::Char('k') {
        (if selected > 0 { (selected - 1) as usize } else { selected }, ManualLinkStep::Nothing)
    } else if key == Key::Down || key == Key::Char('j') {
        (if selected < max_index { (selected + 1) as usize } else { selected }, ManualLinkStep::Nothing)
    } else if key == Key::Char('s') || key == Key::Char('S') {
        (selected, ManualLinkStep::SkipRemaining)
    } else {
        (selected, ManualLinkStep::Nothing)
    }
}

/// Handles a key in the manual-linking step.
pub fn manual_link_key(count: usize, selected: &mut usize, key: Key) -> (step: ManualLinkStep)
    ensures
        (*final(selected), step) == spec_manual_link_key(count as int, *old(selected), key),
{
    let max_index = if count > 0 { count - 1 } else { 0 };
    match key {
        Key::Char('l') | Key::Char('L') | Key::Enter => {
            if *selected < count {
                ManualLinkStep::Link(*selected)
            } else {
                ManualLinkStep::Nothing
            }
        },
        Key::Up | Key::Char('k') => {
            if *selected > 0 {
                *selected = *selected - 1;
            }
            ManualLinkStep::Nothing
        },
        Key::Down | Key::Char('j') => {
            if *selected < max_index {
                *selected = *selected + 1;
            }
            ManualLinkStep::Nothing
        },
        Key::Char('s') | Key::Char('S') => ManualLinkStep::SkipRemaining,
        _ => ManualLinkStep::Nothing,
    }
}

/// Takes a linked meeting off the wizard's unlinked list, keeping the
/// selection within the list; says whether every meeting is now linked.
pub fn record_manual_link(unlinked: &mut Vec<String>, selected: &mut usize, meeting_id: &str) -> (all_done: bool)
    ensures
        views(final(unlinked)@) == views(old(unlinked)@).filter(|id: Seq<char>| id != meeting_id@),
        all_done == (final(unlinked)@.len() == 0),
        *final(selected) == if !all_done && *old(selected) >= final(unlinked)@.len() {
            (final(unlinked)@.len() - 1) as usize
        } else {
            *old(selected)
        },
{
    let ghost keep = |id: Seq<char>| id != meeting_id@;
    let ghost before = views(unlinked@);
    let mut kept: Vec<String> = Vec::new();
    let mut i: usize = 0;
    while i < unlinked.len()
        invariant
            i <= unlinked@.len(),
            before == views(unlinked@),
            views(kept@) == before.take(i as int).filter(keep),
            keep == (|id: Seq<char>| id != meeting_id@),
        decreases unlinked@.len() - i,
    {
        proof {
            reveal_with_fuel(Seq::filter, 1);
            assert(before.take(i as int + 1).drop_last() == before.take(i as int));
        }
        let ghost kb = kept@;
        if !str_equal(unlinked[i].as_str(), meeting_id) {
            kept.push(unlinked[i].clone());
            assert(views(kept@) == views(kb).push(unlinked@[i as int]@));
        }
        i = i + 1;
    }
    proof {
        assert(before.take(before.len() as int) == before);
    }
    *unlinked = kept;
    proof {
        assert(views(unlinked@).len() == unlinked@.len());
    }
    if unlinked.len() == 0 {
        true
    } else {
        if *selected >= unlinked.len() {
            *selected = unlinked.len() - 1;
        }
        false
    }
}

/// The answer to the worklog creation confirmation for a GitHub session.
#[derive(Debug, Clone, Copy, PartialEq, Eq, Structural)]
pub enum CreationChoice {
    /// Log the session's full duration.
    Full,
    /// Log only the time left up to the daily limit.
    Partial,
    /// Log nothing and go on to the next session.
    Skip,
    /// Leave the confirmation and ask whether to cancel the wizard.
    CancelWizard,
    /// The key answers nothing.
    Undecided,
}

/// The creation confirmation's reading of a key.
pub open spec fn spec_creation_choice(key: Key) -> CreationChoice {
    match key {
        Key::Char('f') | Key::Char('F') => CreationChoice::Full,
        Key::Char('p') | Key::Char('P') => CreationChoice::Partial,
        Key::Char('s') | Key::Char('S') => CreationChoice::Skip,
        Key::Esc => CreationChoice::CancelWizard,
        _ => CreationChoice::Undecided,
    }
}

/// Reads the answer a key gives to the worklog creation confirmation.
pub fn creation_choice(key: Key) -> (c: CreationChoice)
    ensures
        c == spec_creation_choice(key),
{
    match key {
        Key::Char('f') | Key::Char('F') => CreationChoice::Full,
        Key::Char('p') | Key::Char('P') => CreationChoice::Partial,
        Key::Char('s') | Key::Char('S') => CreationChoice::Skip,
        Key::Esc => CreationChoice::CancelWizard,
        _ => CreationChoice::Undecided,
    }
}

/// The time each issue of a session gets: the total split evenly (rounding
/// toward zero) when the session names several issues, else the whole total.
pub open spec fn spec_time_per_issue(total_seconds: int, issue_count: int) -> int {
    if issue_count > 1 {
        if total_seconds >= 0 { total_seconds / issue_count } else { -((-total_seconds) / issue_count) }
    } else {
        total_seconds
    }
}

/// Splits a session's time between its issues.
pub fn time_per_issue(total_seconds: i64, issue_count: usize) -> (t: i64)
    ensures
        t == spec_time_per_issue(total_seconds as int, issue_count as int),
{
    if issue_count > 1 {
        let n = issue_count as u128;
        if total_seconds >= 0 {
            let q = (total_seconds as u128) / n;
            proof {
                assert(q <= total_seconds as u128) by (nonlinear_arith)
                    requires q == (total_seconds as u128) / n, n > 1;
            }
            q as i64
        } else {
            let magnitude = (-(total_seconds as i128)) as u128;
            let q = magnitude / n;
            proof {
                assert(q <= magnitude) by (nonlinear_arith)
                    requires q == magnitude / n, n > 1;
            }
            -(q as i128) as i64
        }
    } else {
        total_seconds
    }
}

/// Whether displayed step `step_num` (1 to 8) is the wizard's current step;
/// the second displayed step covers auto- and manual linking.
pub open spec fn spec_matches_current_step(step_num: usize, current: WizardStepKind) -> bool {
    match current {
        WizardStepKind::Syncing => step_num == 1,
        WizardStepKind::AutoLinking | WizardStepKind::ManualLinking => step_num == 2,
        WizardStepKind::CreatingMeetingWorklogs => step_num == 3,
        WizardStepKind::CreatingGitHubWorklogs => step_num == 4,
        WizardStepKind::FillingGaps => step_num == 5,
        WizardStepKind::ReviewingWorklogs => step_num == 6,
        WizardStepKind::Pushing => step_num == 7,
        WizardStepKind::Complete => step_num == 8,
    }
}

/// Whether displayed step `step_num` is the one under way.
pub fn matches_current_step(step_num: usize, current: WizardStepKind) -> (b: bool)
    ensures
        b == spec_matches_current_step(step_num, current),
{
    match current {
        WizardStepKind::Syncing => step_num == 1,
        WizardStepKind::AutoLinking | WizardStepKind::ManualLinking => step_num == 2,
        WizardStepKind::CreatingMeetingWorklogs => step_num == 3,
        WizardStepKind::CreatingGitHubWorklogs => step_num == 4,
        WizardStepKind::FillingGaps => step_num == 5,
        WizardStepKind::ReviewingWorklogs => step_num == 6,
        WizardStepKind::Pushing => step_num == 7,
        WizardStepKind::Complete => step_num == 8,
    }
}

/// How a step is marked in the wizard's progress list.
pub enum StepMark {
    /// Done, but skipped for this reason.
    Skipped(String),
    Done,
    /// Under way: the spinner shows.
    Current,
    Pending,
}

/// No step has two recorded skip reasons, as in a map keyed by step.
pub open spec fn one_reason_per_step(reasons: Seq<(usize, String)>) -> bool {
    forall|a: int, b: int| #![trigger reasons[a], reasons[b]] 0 <= a < b < reasons.len() ==> reasons[a].0 != reasons[b].0
}

/// The reason recorded for skipping `step_num`, if any.
pub open spec fn skip_reason(reasons: Seq<(usize, String)>, step_num: usize) -> Option<Seq<char>>
    decreases reasons.len(),
{
    if reasons.len() == 0 {
        None
    } else if reasons[0].0 == step_num {
        Some(reasons[0].1@)
    } else {
        skip_reason(reasons.drop_first(), step_num)
    }
}

/// With one reason per step, the reason found for the step of any entry is
/// that entry's reason.
pub proof fn law_skip_reason_finds_each_entry(reasons: Seq<(usize, String)>, i: int)
    requires
        one_reason_per_step(reasons),
        0 <= i < reasons.len(),
    ensures
        skip_reason(reasons, reasons[i].0) == Some(reasons[i].1@),
    decreases i,
{
    if i > 0 {
        let rest = reasons.drop_first();
        assert(rest[i - 1] == reasons[i]);
        assert(reasons[0].0 != reasons[i].0);
        assert forall|a: int, b: int| 0 <= a < b < rest.len() implies rest[a].0 != rest[b].0 by {
            assert(rest[a] == reasons[a + 1]);
            assert(rest[b] == reasons[b + 1]);
        }
        law_skip_reason_finds_each_entry(rest, i - 1);
    }
}

/// The mark of step `step_num`: a completed step is done, or skipped where
/// a reason is recorded; else the current step is under way; else pending.
pub open spec fn spec_step_mark(
    step_num: usize,
    completed: Seq<usize>,
    reasons: Seq<(usize, String)>,
    current: WizardStepKind,
) -> (int, Option<Seq<char>>) {
    if completed.contains(step_num) {
        match skip_reason(reasons, step_num) {
            Some(r) => (0, Some(r)),
            None => (1, None),
        }
    } else if spec_matches_current_step(step_num, current) {
        (2, None)
    } else {
        (3, None)
    }
}

pub open spec fn mark_view(m: StepMark) -> (int, Option<Seq<char>>) {
    match m {
        StepMark::Skipped(r) => (0, Some(r@)),
        StepMark::Done => (1, None),
        StepMark::Current => (2, None),
        StepMark::Pending => (3, None),
    }
}

/// Marks step `step_num` in the wizard's progress list; `completed` lists
/// the completed steps, `reasons` why steps were skipped (one reason per step).
pub fn step_mark(step_num: usize, completed: &[usize], reasons: &[(usize, String)], current: WizardStepKind) -> (m: StepMark)
    requires
        one_reason_per_step(reasons@),
    ensures
        mark_view(m) == spec_step_mark(step_num, completed@, reasons@, current),
{
    let mut done = false;
    let mut i: usize = 0;
    while i < completed.len()
        invariant
            0 <= i <= completed@.len(),
            done == completed@.take(i as int).contains(step_num),
        decreases completed@.len() - i,
    {
        if completed[i] == step_num {
            done = true;
        }
        proof {
            assert(completed@.take(i + 1) =~= completed@.take(i as int).push(completed@[i as int]));
            assert(completed@.take(i + 1)[i as int] == completed@[i as int]);
            if completed@.take(i as int).contains(step_num) {
                let j = choose|j: int| 0 <= j < completed@.take(i as int).len() && #[trigger] completed@.take(i as int)[j] == step_num;
                assert(completed@.take(i + 1)[j] == step_num);
            }
            if completed@.take(i + 1).contains(step_num) && !completed@.take(i as int).contains(step_num) {
                let j = choose|j: int| 0 <= j < completed@.take(i + 1).len() && #[trigger] completed@.take(i + 1)[j] == step_num;
                if j < i {
                    assert(completed@.take(i as int)[j] == step_num);
                }
            }
        }
        i = i + 1;
    }
    assert(completed@.take(completed@.len() as int) =~= completed@);
    if done {
        let mut j: usize = 0;
        assert(reasons@.skip(0) =~= reasons@);
        while j < reasons.len()
            invariant
                0 <= j <= reasons@.len(),
                completed@.contains(step_num),
                skip_reason(reasons@, step_num) == skip_reason(reasons@.skip(j as int), step_num),
            decreases reasons@.len() - j,
        {
            assert(reasons@.skip(j as int)[0] == reasons@[j as int]);
            assert(reasons@.skip(j as int).drop_first() =~= reasons@.skip(j + 1));
            if reasons[j].0 == step_num {
                return StepMark::Skipped(reasons[j].1.clone());
            }
            j = j + 1;
        }
        StepMark::Done
    } else if matches_current_step(step_num, current) {
        StepMark::Current
    } else {
        StepMark::Pending
    }
}

/// The spinner's character at frame `frame`: ten braille frames in turn.
pub open spec fn spec_spinner_char(frame: usize) -> char {
    let f = frame % 10;
    if f == 0 { '⠋' } else if f == 1 { '⠙' } else if f == 2 { '⠹' } else if f == 3 { '⠸' } else if f == 4 { '⠼' }
    else if f == 5 { '⠴' } else if f == 6 { '⠦' } else if f == 7 { '⠧' } else if f == 8 { '⠇' } else { '⠏' }
}

/// The spinner's character at a frame.
pub fn spinner_char(frame: usize) -> (c: char)
    ensures
        c == spec_spinner_char(frame),
{
    let f = frame % 10;
    if f == 0 { '⠋' } else if f == 1 { '⠙' } else if f == 2 { '⠹' } else if f == 3 { '⠸' } else if f == 4 { '⠼' }
    else if f == 5 { '⠴' } else if f == 6 { '⠦' } else if f == 7 { '⠧' } else if f == 8 { '⠇' } else { '⠏' }
}

/// Most meetings the manual-linking list shows at once.
pub const LINKING_ROWS: usize = 10;

/// The rows `[start, end)` of the manual-linking list shown, for `total`
/// meetings with `selected` selected: all when they fit, else ten rows kept
/// around the selection.
pub open spec fn spec_linking_window(total: usize, selected: usize) -> (int, int) {
    let start: int = if total <= 10 {
        0
    } else if selected < 5 {
        0
    } else if selected >= total - 5 {
        total - 10
    } else {
        selected - 5
    };
    (start, if start + 10 < total { start + 10 } else { total as int })
}

/// The rows of the manual-linking list that are shown.
pub fn linking_window(total: usize, selected: usize) -> (w: (usize, usize))
    ensures
        w.0 as int == spec_linking_window(total, selected).0,
        w.1 as int == spec_linking_window(total, selected).1,
{
    let start = if total <= LINKING_ROWS {
        0
    } else if selected < LINKING_ROWS / 2 {
        0
    } else if selected >= total - LINKING_ROWS / 2 {
        total - LINKING_ROWS
    } else {
        selected - LINKING_ROWS / 2
    };
    let end = if start + LINKING_ROWS < total { start + LINKING_ROWS } else { total };
    (start, end)
}

/// The scroll markers of the manual-linking list: how many meetings lie
/// above and below the rows shown, each only where there are any.
pub open spec fn spec_linking_markers(total: usize, selected: usize) -> (Option<Seq<char>>, Option<Seq<char>>) {
    let (start, end) = spec_linking_window(total, selected);
    (
        if start > 0 { Some("  ▲ "@ + decimal(start as nat) + " more above"@) } else { None },
        if end < total { Some("  ▼ "@ + decimal((total - end) as nat) + " more below"@) } else { None },
    )
}

/// The text of an optional marker, by its view.
pub open spec fn marker_view(m: Option<String>) -> Option<Seq<char>> {
    match m {
        Some(t) => Some(t@),
        None => None,
    }
}

/// The scroll markers shown above and below the manual-linking list.
pub fn linking_markers(total: usize, selected: usize) -> (m: (Option<String>, Option<String>))
    ensures
        marker_view(m.0) == spec_linking_markers(total, selected).0,
        marker_view(m.1) == spec_linking_markers(total, selected).1,
{
    let (start, end) = linking_window(total, selected);
    let above = if start > 0 {
        let mut t = "  ▲ ".to_string();
        t.append(decimal_string(start as u64).as_str());
        t.append(" more above");
        Some(t)
    } else {
        None
    };
    let below = if end < total {
        let mut t = "  ▼ ".to_string();
        t.append(decimal_string((total - end) as u64).as_str());
        t.append(" more below");
        Some(t)
    } else {
        None
    };
    (above, below)
}

/// A row of the manual-linking list: the meeting's title indented by two
/// spaces, past 65 bytes cut to its first 62 and `...`; `Untitled` for a
/// meeting without one.
pub open spec fn spec_linking_row(title: Option<Seq<char>>) -> Seq<char> {
    match title {
        Some(t) => "  "@ + spec_shorten(t, 65, 62),
        None => "  Untitled"@,
    }
}

/// The row shown for a meeting in the manual-linking list. A long title is
/// cut at byte 62, which must fall between characters.
pub fn linking_row(title: &Option<String>) -> (row: String)
    requires
        title matches Some(t) ==> (byte_len(t@) > 65 ==> boundary_at(t@, 62)),
    ensures
        row@ == spec_linking_row(marker_view(*title)),
{
    match title {
        Some(t) => {
            let mut row = "  ".to_string();
            row.append(shorten(t.as_str(), 65, 62).as_str());
            row
        },
        None => "  Untitled".to_string(),
    }
}

/// The window always holds the selected meeting, and as many rows as fit:
/// ten, or all of them.
pub proof fn law_linking_window_shows_selection(total: usize, selected: usize)
    requires
        selected < total,
    ensures
        spec_linking_window(total, selected).0 <= selected < spec_linking_window(total, selected).1,
        spec_linking_window(total, selected).1 - spec_linking_window(total, selected).0 == if total < 10 {
            total as int
        } else {
            10
        },
{
}

} // verus!
