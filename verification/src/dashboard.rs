use vstd::prelude::*;
use crate::keys::Key;
use crate::tabs::{spec_next, spec_previous, Tab};
use crate::text::{decimal, decimal_string};
use crate::wizard::WizardStepKind;

verus! {

/// State of a Jira issue title lookup, for the Settings colour labels.
#[derive(Debug, Clone)]
pub enum IssueTitleState {
    Loading,
    Found(String),
    NotFound,
}

/// Meeting statistics shown on the dashboard.
#[derive(Debug, Clone, Copy, PartialEq, Eq, Structural)]
pub struct MeetingStats {
    /// Meetings neither linked to an issue nor marked untracked.
    pub pending: usize,
}

/// What a background fetch is doing.
#[derive(Debug, Clone)]
pub enum FetchStatus {
    Idle,
    Fetching(String),
    Complete,
    Error(String),
}

/// Where a worklog about to be created comes from.
#[derive(Debug, Clone)]
pub enum WorklogSource {
    Meeting { meeting_id: String, title: String },
    GitHub { session_id: String, description: String },
}

/// The tabs' UI state: selections, filters, expansions and the Settings editor.
#[derive(Debug, Clone)]
pub struct TabUiState {
    pub selected_sprint_index: usize,
    pub selected_meeting_index: usize,
    pub selected_worklog_index: usize,
    pub selected_github_session_index: usize,
    pub selected_history_index: usize,
    /// The Meetings tab's search: whether typing goes into it, and its text.
    pub meeting_search_active: bool,
    pub meeting_search_query: String,
    /// History ids (and virtual sprint ids) whose rows are expanded.
    pub expanded_history_ids: Vec<String>,
    pub filter_unlinked_only: bool,
    pub filter_staged_only: bool,
    pub achievements_scroll_offset: usize,
    pub settings_selected_field: usize,
    pub settings_editing: bool,
    pub settings_input_buffer: String,
    /// Settings fields whose sensitive value is shown in clear.
    pub settings_show_sensitive: Vec<usize>,
    pub settings_dirty: bool,
    pub settings_status: Option<String>,
    /// Issue titles looked up for colour labels, by issue id.
    pub settings_color_issue_titles: Vec<(String, IssueTitleState)>,
}

impl Default for TabUiState {
    /// Nothing selected beyond the first rows, nothing expanded, filtered or edited.
    fn default() -> (s: Self)
        ensures
            s.selected_sprint_index == 0,
            s.selected_meeting_index == 0,
            s.selected_worklog_index == 0,
            s.selected_github_session_index == 0,
            s.selected_history_index == 0,
            !s.meeting_search_active,
            s.meeting_search_query@.len() == 0,
            s.expanded_history_ids@.len() == 0,
            !s.filter_unlinked_only,
            !s.filter_staged_only,
            s.achievements_scroll_offset == 0,
            s.settings_selected_field == 0,
            !s.settings_editing,
            s.settings_input_buffer@.len() == 0,
            s.settings_show_sensitive@.len() == 0,
            !s.settings_dirty,
            s.settings_status is None,
            s.settings_color_issue_titles@.len() == 0,
    {
        TabUiState {
            selected_sprint_index: 0,
            selected_meeting_index: 0,
            selected_worklog_index: 0,
            selected_github_session_index: 0,
            selected_history_index: 0,
            meeting_search_active: false,
            meeting_search_query: String::new(),
            expanded_history_ids: Vec::new(),
            filter_unlinked_only: false,
            filter_staged_only: false,
            achievements_scroll_offset: 0,
            settings_selected_field: 0,
            settings_editing: false,
            settings_input_buffer: String::new(),
            settings_show_sensitive: Vec::new(),
            settings_dirty: false,
            settings_status: None,
            settings_color_issue_titles: Vec::new(),
        }
    }
}

/// Which popups, prompts and input modes of the dashboard are open.
#[derive(Debug, Clone, Copy, PartialEq, Eq, Structural)]
pub struct UiModes {
    pub current_tab: Tab,
    pub has_achievements: bool,
    pub revert_confirmation: bool,
    pub wizard_pre_launch_prompt: bool,
    pub wizard_cancel_confirmation: bool,
    /// The wizard's current step, while the wizard runs.
    pub wizard_step: Option<WizardStepKind>,
    /// The wizard shows the introduction of its GitHub step.
    pub github_step_intro: bool,
    pub issue_selection: bool,
    pub worklog_creation_confirmation: bool,
    pub gap_fill_confirmation: bool,
    pub gap_fill_selection: bool,
    pub sprint_follow: bool,
    pub settings_editing: bool,
    pub unlink_confirmation: bool,
    pub show_about_popup: bool,
}

/// Where the dashboard sends a key.
#[derive(Debug, Clone, Copy, PartialEq, Eq, Structural)]
pub enum KeyRoute {
    /// To the History tab, which runs the revert confirmation.
    RevertConfirmation,
    WizardPreLaunch,
    WizardCancelConfirmation,
    IssueSelection,
    /// Open the wizard's cancel confirmation.
    AskCancelWizard,
    WizardManualLinking,
    /// Skip the wizard's GitHub step and move on to filling gaps.
    SkipGitHubStep,
    /// Leave the GitHub step's introduction and process the next session.
    NextGitHubSession,
    WorklogCreationConfirmation,
    GapFillConfirmation,
    GapFillIssueSelection,
    /// Start the wizard's push.
    WizardPush,
    /// Escape during the push: warn that it cannot be cancelled.
    PushInProgress,
    /// Close the completed wizard.
    CloseWizard,
    SprintFollow,
    /// To the Settings tab while a field is being edited.
    SettingsEditing,
    UnlinkConfirmation,
    ToggleAbout,
    /// Show a friend-tier message from Chronie.
    ChronieFriend,
    /// Copy the collected log to the clipboard.
    ExportLogs,
    CloseAbout,
    Quit,
    SwitchTab(Tab),
    /// To the current tab's own key handling.
    TabKey(Tab),
    /// The key does nothing.
    Ignore,
}

/// Typing goes into an input (the wizard, an issue search, a sprint search
/// or a Settings field), so keys do not count toward secret sequences.
pub open spec fn in_input_mode(m: UiModes) -> bool {
    m.wizard_step is Some || m.gap_fill_selection || m.issue_selection || m.sprint_follow || (
    m.current_tab == Tab::Settings && m.settings_editing)
}

/// Where the running wizard, in `step`, sends a key; `None` when it leaves
/// the key to the rest of the dashboard.
pub open spec fn spec_wizard_route(m: UiModes, step: WizardStepKind, key: Key) -> Option<KeyRoute> {
    match step {
        WizardStepKind::ManualLinking => if m.issue_selection {
            Some(KeyRoute::IssueSelection)
        } else if key == Key::Esc {
            Some(KeyRoute::AskCancelWizard)
        } else {
            Some(KeyRoute::WizardManualLinking)
        },
        WizardStepKind::CreatingGitHubWorklogs => if m.github_step_intro {
            if key == Key::Esc {
                Some(KeyRoute::SkipGitHubStep)
            } else if key == Key::Enter || key == Key::Char(' ') {
                Some(KeyRoute::NextGitHubSession)
            } else {
                Some(KeyRoute::Ignore)
            }
        } else if m.worklog_creation_confirmation {
            Some(KeyRoute::WorklogCreationConfirmation)
        } else if key == Key::Esc {
            Some(KeyRoute::AskCancelWizard)
        } else {
            None
        },
        WizardStepKind::FillingGaps => if m.gap_fill_confirmation {
            Some(KeyRoute::GapFillConfirmation)
        } else if m.gap_fill_selection {
            Some(KeyRoute::GapFillIssueSelection)
        } else if key == Key::Esc {
            Some(KeyRoute::AskCancelWizard)
        } else {
            None
        },
        WizardStepKind::ReviewingWorklogs => if key == Key::Char('p') || key == Key::Char('P') || key == Key::Enter {
            Some(KeyRoute::WizardPush)
        } else if key == Key::Esc {
            Some(KeyRoute::AskCancelWizard)
        } else {
            None
        },
        WizardStepKind::Pushing => if key == Key::Esc {
            Some(KeyRoute::PushInProgress)
        } else {
            Some(KeyRoute::Ignore)
        },
        WizardStepKind::Complete => Some(KeyRoute::CloseWizard),
        _ => if key == Key::Esc {
            Some(KeyRoute::AskCancelWizard)
        } else {
            None
        },
    }
}

/// The tab a digit key selects, if any.
pub open spec fn digit_tab(key: Key, has_achievements: bool) -> Option<Tab> {
    match key {
        Key::Char('1') => Some(Tab::Sprints),
        Key::Char('2') => Some(Tab::Meetings),
        Key::Char('3') => Some(Tab::Worklogs),
        Key::Char('4') => Some(Tab::GitHub),
        Key::Char('5') => Some(Tab::History),
        Key::Char('6') => Some(Tab::Settings),
        Key::Char('7') => if has_achievements { Some(Tab::Achievements) } else { None },
        _ => None,
    }
}

/// Where a key goes once no popup holds it: quitting, tab switching, or the current tab.
pub open spec fn spec_global_route(m: UiModes, key: Key, ctrl: bool) -> KeyRoute {
    if key == Key::Char('q') || key == Key::Char('Q') {
        KeyRoute::Quit
    } else if (key == Key::Esc || key == Key::Char('c')) && ctrl {
        KeyRoute::Quit
    } else if key == Key::Tab {
        KeyRoute::SwitchTab(spec_next(m.current_tab, m.has_achievements))
    } else if key == Key::BackTab {
        KeyRoute::SwitchTab(spec_previous(m.current_tab, m.has_achievements))
    } else if key == Key::Char('7') && !m.has_achievements {
        KeyRoute::Ignore
    } else if digit_tab(key, m.has_achievements) is Some {
        KeyRoute::SwitchTab(digit_tab(key, m.has_achievements).unwrap())
    } else {
        KeyRoute::TabKey(m.current_tab)
    }
}

/// Where the dashboard sends `key` (`ctrl`: with the Control modifier), by
/// priority: the revert confirmation, the wizard's prompts, the running
/// wizard, the other popups and input modes, the About popup's keys, and
/// finally the global keys and the current tab.
pub open spec fn spec_route(m: UiModes, key: Key, ctrl: bool) -> KeyRoute {
    if m.revert_confirmation {
        KeyRoute::RevertConfirmation
    } else if m.wizard_pre_launch_prompt {
        KeyRoute::WizardPreLaunch
    } else if m.wizard_cancel_confirmation {
        KeyRoute::WizardCancelConfirmation
    } else if m.wizard_step is Some && spec_wizard_route(m, m.wizard_step.unwrap(), key) is Some {
        spec_wizard_route(m, m.wizard_step.unwrap(), key).unwrap()
    } else if m.gap_fill_confirmation {
        KeyRoute::GapFillConfirmation
    } else if m.gap_fill_selection {
        KeyRoute::GapFillIssueSelection
    } else if m.worklog_creation_confirmation {
        KeyRoute::WorklogCreationConfirmation
    } else if m.issue_selection {
        KeyRoute::IssueSelection
    } else if m.sprint_follow {
        KeyRoute::SprintFollow
    } else if m.current_tab == Tab::Settings && m.settings_editing {
        KeyRoute::SettingsEditing
    } else if m.unlink_confirmation {
        KeyRoute::UnlinkConfirmation
    } else if key == Key::Char('h') || key == Key::Char('H') {
        KeyRoute::ToggleAbout
    } else if key == Key::Char('²') {
        KeyRoute::ChronieFriend
    } else if key == Key::Char('l') && ctrl {
        KeyRoute::ExportLogs
    } else if m.show_about_popup {
        if key == Key::Esc { KeyRoute::CloseAbout } else { KeyRoute::Ignore }
    } else {
        spec_global_route(m, key, ctrl)
    }
}

/// Where the running wizard sends a key, if it takes it.
fn wizard_route(m: &UiModes, step: WizardStepKind, key: Key) -> (r: Option<KeyRoute>)
    ensures
        r == spec_wizard_route(*m, step, key),
{
    match step {
        WizardStepKind::ManualLinking => {
            if m.issue_selection {
                Some(KeyRoute::IssueSelection)
            } else if key == Key::Esc {
                Some(KeyRoute::AskCancelWizard)
            } else {
                Some(KeyRoute::WizardManualLinking)
            }
        },
        WizardStepKind::CreatingGitHubWorklogs => {
            if m.github_step_intro {
                if key == Key::Esc {
                    Some(KeyRoute::SkipGitHubStep)
                } else if key == Key::Enter || key == Key::Char(' ') {
                    Some(KeyRoute::NextGitHubSession)
                } else {
                    Some(KeyRoute::Ignore)
                }
            } else if m.worklog_creation_confirmation {
                Some(KeyRoute::WorklogCreationConfirmation)
            } else if key == Key::Esc {
                Some(KeyRoute::AskCancelWizard)
            } else {
                None
            }
        },
        WizardStepKind::FillingGaps => {
            if m.gap_fill_confirmation {
                Some(KeyRoute::GapFillConfirmation)
            } else if m.gap_fill_selection {
                Some(KeyRoute::GapFillIssueSelection)
            } else if key == Key::Esc {
                Some(KeyRoute::AskCancelWizard)
            } else {
                None
            }
        },
        WizardStepKind::ReviewingWorklogs => {
            if key == Key::Char('p') || key == Key::Char('P') || key == Key::Enter {
                Some(KeyRoute::WizardPush)
            } else if key == Key::Esc {
                Some(KeyRoute::AskCancelWizard)
            } else {
                None
            }
        },
        WizardStepKind::Pushing => {
            if key == Key::Esc {
                Some(KeyRoute::PushInProgress)
            } else {
                Some(KeyRoute::Ignore)
            }
        },
        WizardStepKind::Complete => Some(KeyRoute::CloseWizard),
        _ => {
            if key == Key::Esc {
                Some(KeyRoute::AskCancelWizard)
            } else {
                None
            }
        },
    }
}

/// Where a key goes once no popup holds it.
fn global_route(m: &UiModes, key: Key, ctrl: bool) -> (r: KeyRoute)
    ensures
        r == spec_global_route(*m, key, ctrl),
{
    match key {
        Key::Char('q') | Key::Char('Q') => KeyRoute::Quit,
        Key::Esc if ctrl => KeyRoute::Quit,
        Key::Char('c') if ctrl => KeyRoute::Quit,
        Key::Tab => KeyRoute::SwitchTab(m.current_tab.next(m.has_achievements)),
        Key::BackTab => KeyRoute::SwitchTab(m.current_tab.previous(m.has_achievements)),
        Key::Char('1') => KeyRoute::SwitchTab(Tab::Sprints),
        Key::Char('2') => KeyRoute::SwitchTab(Tab::Meetings),
        Key::Char('3') => KeyRoute::SwitchTab(Tab::Worklogs),
        Key::Char('4') => KeyRoute::SwitchTab(Tab::GitHub),
        Key::Char('5') => KeyRoute::SwitchTab(Tab::History),
        Key::Char('6') => KeyRoute::SwitchTab(Tab::Settings),
        Key::Char('7') => {
            if m.has_achievements {
                KeyRoute::SwitchTab(Tab::Achievements)
            } else {
                KeyRoute::Ignore
            }
        },
        _ => KeyRoute::TabKey(m.current_tab),
    }
}

/// Routes a key: where it goes, and whether it counts toward secret key sequences.
pub fn route_key(m: &UiModes, key: Key, ctrl: bool) -> (r: (KeyRoute, bool))
    ensures
        r.0 == spec_route(*m, key, ctrl),
        r.1 == !in_input_mode(*m),
{
    let in_input = m.wizard_step.is_some() || m.gap_fill_selection || m.issue_selection || m.sprint_follow || (
    m.current_tab == Tab::Settings && m.settings_editing);
    let track = !in_input;
    if m.revert_confirmation {
        return (KeyRoute::RevertConfirmation, track);
    }
    if m.wizard_pre_launch_prompt {
        return (KeyRoute::WizardPreLaunch, track);
    }
    if m.wizard_cancel_confirmation {
        return (KeyRoute::WizardCancelConfirmation, track);
    }
    match m.wizard_step {
        Some(step) => {
            match wizard_route(m, step, key) {
                Some(r) => {
                    return (r, track);
                },
                None => {},
            }
        },
        None => {},
    }
    let r = if m.gap_fill_confirmation {
        KeyRoute::GapFillConfirmation
    } else if m.gap_fill_selection {
        KeyRoute::GapFillIssueSelection
    } else if m.worklog_creation_confirmation {
        KeyRoute::WorklogCreationConfirmation
    } else if m.issue_selection {
        KeyRoute::IssueSelection
    } else if m.sprint_follow {
        KeyRoute::SprintFollow
    } else if m.current_tab == Tab::Settings && m.settings_editing {
        KeyRoute::SettingsEditing
    } else if m.unlink_confirmation {
        KeyRoute::UnlinkConfirmation
    } else if key == Key::Char('h') || key == Key::Char('H') {
        KeyRoute::ToggleAbout
    } else if key == Key::Char('²') {
        KeyRoute::ChronieFriend
    } else if key == Key::Char('l') && ctrl {
        KeyRoute::ExportLogs
    } else if m.show_about_popup {
        if key == Key::Esc {
            KeyRoute::CloseAbout
        } else {
            KeyRoute::Ignore
        }
    } else {
        global_route(m, key, ctrl)
    };
    (r, track)
}

/// While a revert confirmation is open, every key goes to it.
pub proof fn law_revert_confirmation_holds_keys(m: UiModes, key: Key, ctrl: bool)
    requires
        m.revert_confirmation,
    ensures
        spec_route(m, key, ctrl) == KeyRoute::RevertConfirmation,
{
}

/// While the wizard pushes (and none of its prompts is open), no key leaves
/// it: Escape only warns, any other key is ignored.
pub proof fn law_push_cannot_be_interrupted(m: UiModes, key: Key, ctrl: bool)
    requires
        !m.revert_confirmation,
        !m.wizard_pre_launch_prompt,
        !m.wizard_cancel_confirmation,
        m.wizard_step == Some(WizardStepKind::Pushing),
    ensures
        spec_route(m, key, ctrl) == if key == Key::Esc { KeyRoute::PushInProgress } else { KeyRoute::Ignore },
{
}

/// The dashboard quits only when no popup, prompt or search holds the keys.
pub proof fn law_quit_only_when_idle(m: UiModes, key: Key, ctrl: bool)
    requires
        spec_route(m, key, ctrl) == KeyRoute::Quit,
    ensures
        !m.revert_confirmation && !m.wizard_pre_launch_prompt && !m.wizard_cancel_confirmation,
        !m.gap_fill_confirmation && !m.gap_fill_selection && !m.worklog_creation_confirmation,
        !m.issue_selection && !m.sprint_follow && !m.unlink_confirmation && !m.show_about_popup,
        !(m.current_tab == Tab::Settings && m.settings_editing),
        m.wizard_step != Some(WizardStepKind::Pushing) && m.wizard_step != Some(WizardStepKind::Complete),
{
}

/// How long a fetch status message stays up, in nanoseconds: five seconds
/// for an error, three otherwise.
pub open spec fn spec_status_timeout(status: FetchStatus) -> u128 {
    match status {
        FetchStatus::Error(_) => 5_000_000_000,
        _ => 3_000_000_000,
    }
}

/// Whether a status message shown `elapsed_nanos` ago is cleared now.
pub fn status_expired(status: &FetchStatus, elapsed_nanos: u128) -> (b: bool)
    ensures
        b == (elapsed_nanos > spec_status_timeout(*status)),
{
    let timeout: u128 = match status {
        FetchStatus::Error(_) => 5_000_000_000,
        _ => 3_000_000_000,
    };
    elapsed_nanos > timeout
}

/// What the dashboard does when a background fetch reports its status.
#[derive(Debug, Clone, Copy, PartialEq, Eq, Structural)]
pub enum FetchReaction {
    /// Still fetching (or idle): only show the status.
    ShowStatus,
    /// Done: stop listening, reload the data, link meetings once it is
    /// fresh, and start the status timer.
    Completed,
    /// Failed: stop listening, report the error, and start the status timer.
    Failed,
}

/// The dashboard's reaction to a reported fetch status.
pub open spec fn spec_fetch_reaction(status: FetchStatus) -> FetchReaction {
    match status {
        FetchStatus::Complete => FetchReaction::Completed,
        FetchStatus::Error(_) => FetchReaction::Failed,
        _ => FetchReaction::ShowStatus,
    }
}

/// Decides how to react to a reported fetch status.
pub fn fetch_reaction(status: &FetchStatus) -> (r: FetchReaction)
    ensures
        r == spec_fetch_reaction(*status),
{
    match status {
        FetchStatus::Complete => FetchReaction::Completed,
        FetchStatus::Error(_) => FetchReaction::Failed,
        _ => FetchReaction::ShowStatus,
    }
}

/// One step of a data refresh, run in the background.
#[derive(Debug, Clone, Copy, PartialEq, Eq, Structural)]
pub enum FetchStep {
    Boards,
    Sprints,
    Issues,
    Worklogs,
    Meetings,
}

/// The steps a refresh runs from tab `tab`, in order: everything from the
/// Sprints tab, calendar events from the Meetings tab, worklogs from the
/// Worklogs tab, nothing elsewhere.
pub open spec fn spec_refresh_steps(tab: Tab) -> Seq<FetchStep> {
    match tab {
        Tab::Sprints => seq![FetchStep::Boards, FetchStep::Sprints, FetchStep::Issues, FetchStep::Worklogs, FetchStep::Meetings],
        Tab::Meetings => seq![FetchStep::Meetings],
        Tab::Worklogs => seq![FetchStep::Worklogs],
        _ => Seq::empty(),
    }
}

/// The steps of the refresh that the refresh key starts from tab `tab`;
/// `None` while a fetch is already running.
pub fn refresh_plan(tab: Tab, status: &FetchStatus) -> (steps: Option<Vec<FetchStep>>)
    ensures
        match steps {
            None => status is Fetching,
            Some(v) => !(status is Fetching) && v@ == spec_refresh_steps(tab),
        },
{
    if let FetchStatus::Fetching(_) = status {
        return None;
    }
    let mut v: Vec<FetchStep> = Vec::new();
    match tab {
        Tab::Sprints => {
            v.push(FetchStep::Boards);
            v.push(FetchStep::Sprints);
            v.push(FetchStep::Issues);
            v.push(FetchStep::Worklogs);
            v.push(FetchStep::Meetings);
        },
        Tab::Meetings => {
            v.push(FetchStep::Meetings);
        },
        Tab::Worklogs => {
            v.push(FetchStep::Worklogs);
        },
        _ => {},
    }
    assert(v@ =~= spec_refresh_steps(tab));
    Some(v)
}

/// The status shown while step `step` of a refresh from tab `tab` runs.
pub open spec fn spec_step_message(tab: Tab, step: FetchStep) -> Seq<char> {
    match step {
        FetchStep::Boards => "Fetching boards..."@,
        FetchStep::Sprints => "Fetching sprints..."@,
        FetchStep::Issues => "Fetching issues..."@,
        FetchStep::Worklogs => "Fetching worklogs..."@,
        FetchStep::Meetings => if tab == Tab::Meetings {
            "Fetching Google Calendar events..."@
        } else {
            "Fetching meetings..."@
        },
    }
}

/// The status shown while a step of a refresh runs.
pub fn step_message(tab: Tab, step: FetchStep) -> (m: String)
    ensures
        m@ == spec_step_message(tab, step),
{
    match step {
        FetchStep::Boards => "Fetching boards...".to_string(),
        FetchStep::Sprints => "Fetching sprints...".to_string(),
        FetchStep::Issues => "Fetching issues...".to_string(),
        FetchStep::Worklogs => "Fetching worklogs...".to_string(),
        FetchStep::Meetings => if tab == Tab::Meetings {
            "Fetching Google Calendar events...".to_string()
        } else {
            "Fetching meetings...".to_string()
        },
    }
}

/// Cells of a ten-cell progress bar filled after `done` of `total` steps.
pub open spec fn spec_bar_fill(done: usize, total: usize) -> int {
    let f = done * 10 / total as int;
    if f < 10 { f } else { 10 }
}

/// How many of the status bar's ten progress cells are filled.
pub fn bar_fill(done: usize, total: usize) -> (filled: usize)
    requires
        total > 0,
        done * 10 <= usize::MAX,
    ensures
        filled == spec_bar_fill(done, total),
        filled <= 10,
{
    let f = done * 10 / total;
    if f < 10 { f } else { 10 }
}

/// `n` written in decimal, with a minus sign when negative.
pub open spec fn signed_decimal(n: int) -> Seq<char> {
    if n < 0 {
        "-"@ + decimal((-n) as nat)
    } else {
        decimal(n as nat)
    }
}

/// How long ago the last sync was, `elapsed` seconds back: in seconds under
/// a minute, else in whole minutes.
pub open spec fn spec_sync_age(elapsed: i64) -> Seq<char> {
    if elapsed < 60 {
        signed_decimal(elapsed as int) + "s ago"@
    } else {
        decimal((elapsed / 60) as nat) + "m ago"@
    }
}

/// The "last sync" age shown in the status bar.
pub fn sync_age(elapsed: i64) -> (text: String)
    ensures
        text@ == spec_sync_age(elapsed),
{
    if elapsed < 60 {
        let mut text = if elapsed < 0 {
            let magnitude: u64 = if elapsed == i64::MIN { 9223372036854775808u64 } else { (-elapsed) as u64 };
            let mut t = "-".to_string();
            t.append(decimal_string(magnitude).as_str());
            t
        } else {
            decimal_string(elapsed as u64)
        };
        text.append("s ago");
        text
    } else {
        let mut text = decimal_string((elapsed / 60) as u64);
        text.append("m ago");
        text
    }
}

} // verus!
