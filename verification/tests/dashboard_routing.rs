use wtf_cli::dashboard::{bar_fill, refresh_plan, route_key, sync_age, step_message, FetchStatus, FetchStep, KeyRoute, TabUiState, UiModes};
use wtf_cli::keys::Key;
use wtf_cli::tabs::Tab;
use wtf_cli::wizard::WizardStepKind;

fn plain(tab: Tab) -> UiModes {
    UiModes {
        current_tab: tab,
        has_achievements: false,
        revert_confirmation: false,
        wizard_pre_launch_prompt: false,
        wizard_cancel_confirmation: false,
        wizard_step: None,
        github_step_intro: false,
        issue_selection: false,
        worklog_creation_confirmation: false,
        gap_fill_confirmation: false,
        gap_fill_selection: false,
        sprint_follow: false,
        settings_editing: false,
        unlink_confirmation: false,
        show_about_popup: false,
    }
}

#[test]
fn global_keys_quit_and_switch_tabs() {
    let m = plain(Tab::Sprints);
    assert_eq!(route_key(&m, Key::Char('q'), false), (KeyRoute::Quit, true));
    assert_eq!(route_key(&m, Key::Char('c'), true).0, KeyRoute::Quit);
    assert_eq!(route_key(&m, Key::Esc, true).0, KeyRoute::Quit);
    assert_eq!(route_key(&m, Key::Esc, false).0, KeyRoute::TabKey(Tab::Sprints));
    assert_eq!(route_key(&m, Key::Tab, false).0, KeyRoute::SwitchTab(Tab::Meetings));
    assert_eq!(route_key(&m, Key::BackTab, false).0, KeyRoute::SwitchTab(Tab::Settings));
    assert_eq!(route_key(&m, Key::Char('5'), false).0, KeyRoute::SwitchTab(Tab::History));
    assert_eq!(route_key(&m, Key::Char('7'), false).0, KeyRoute::Ignore);
    let with = UiModes { has_achievements: true, ..m };
    assert_eq!(route_key(&with, Key::Char('7'), false).0, KeyRoute::SwitchTab(Tab::Achievements));
    assert_eq!(route_key(&m, Key::Char('j'), false).0, KeyRoute::TabKey(Tab::Sprints));
}

#[test]
fn about_popup_keys() {
    let m = plain(Tab::Meetings);
    assert_eq!(route_key(&m, Key::Char('h'), false).0, KeyRoute::ToggleAbout);
    assert_eq!(route_key(&m, Key::Char('²'), false).0, KeyRoute::ChronieFriend);
    assert_eq!(route_key(&m, Key::Char('l'), true).0, KeyRoute::ExportLogs);
    let open = UiModes { show_about_popup: true, ..m };
    assert_eq!(route_key(&open, Key::Esc, false).0, KeyRoute::CloseAbout);
    assert_eq!(route_key(&open, Key::Char('q'), false).0, KeyRoute::Ignore);
    assert_eq!(route_key(&open, Key::Char('H'), false).0, KeyRoute::ToggleAbout);
}

#[test]
fn revert_confirmation_takes_every_key() {
    let m = UiModes { revert_confirmation: true, wizard_step: Some(WizardStepKind::Pushing), ..plain(Tab::History) };
    assert_eq!(route_key(&m, Key::Char('q'), false).0, KeyRoute::RevertConfirmation);
    assert_eq!(route_key(&m, Key::Esc, true).0, KeyRoute::RevertConfirmation);
}

#[test]
fn wizard_steps_route_their_keys() {
    let base = plain(Tab::Sprints);
    let pushing = UiModes { wizard_step: Some(WizardStepKind::Pushing), ..base };
    assert_eq!(route_key(&pushing, Key::Esc, false), (KeyRoute::PushInProgress, false));
    assert_eq!(route_key(&pushing, Key::Char('q'), false).0, KeyRoute::Ignore);
    let complete = UiModes { wizard_step: Some(WizardStepKind::Complete), ..base };
    assert_eq!(route_key(&complete, Key::Char('x'), false).0, KeyRoute::CloseWizard);
    let review = UiModes { wizard_step: Some(WizardStepKind::ReviewingWorklogs), ..base };
    assert_eq!(route_key(&review, Key::Char('P'), false).0, KeyRoute::WizardPush);
    assert_eq!(route_key(&review, Key::Esc, false).0, KeyRoute::AskCancelWizard);
    assert_eq!(route_key(&review, Key::Char('q'), false).0, KeyRoute::Quit);
    let linking = UiModes { wizard_step: Some(WizardStepKind::ManualLinking), ..base };
    assert_eq!(route_key(&linking, Key::Down, false).0, KeyRoute::WizardManualLinking);
    let picking = UiModes { issue_selection: true, ..linking };
    assert_eq!(route_key(&picking, Key::Esc, false).0, KeyRoute::IssueSelection);
    let intro = UiModes { wizard_step: Some(WizardStepKind::CreatingGitHubWorklogs), github_step_intro: true, ..base };
    assert_eq!(route_key(&intro, Key::Esc, false).0, KeyRoute::SkipGitHubStep);
    assert_eq!(route_key(&intro, Key::Char(' '), false).0, KeyRoute::NextGitHubSession);
    assert_eq!(route_key(&intro, Key::Char('z'), false).0, KeyRoute::Ignore);
    let gaps = UiModes { wizard_step: Some(WizardStepKind::FillingGaps), gap_fill_selection: true, ..base };
    assert_eq!(route_key(&gaps, Key::Char('a'), false).0, KeyRoute::GapFillIssueSelection);
    let syncing = UiModes { wizard_step: Some(WizardStepKind::Syncing), ..base };
    assert_eq!(route_key(&syncing, Key::Esc, false).0, KeyRoute::AskCancelWizard);
}

#[test]
fn prompts_come_before_the_wizard() {
    let m = UiModes {
        wizard_pre_launch_prompt: true,
        wizard_step: Some(WizardStepKind::Complete),
        ..plain(Tab::Sprints)
    };
    assert_eq!(route_key(&m, Key::Char('k'), false).0, KeyRoute::WizardPreLaunch);
    let c = UiModes { wizard_cancel_confirmation: true, wizard_step: Some(WizardStepKind::FillingGaps), ..plain(Tab::Sprints) };
    assert_eq!(route_key(&c, Key::Char('y'), false).0, KeyRoute::WizardCancelConfirmation);
}

#[test]
fn popups_and_inputs_hold_keys_and_stop_sequence_tracking() {
    let base = plain(Tab::Settings);
    let editing = UiModes { settings_editing: true, ..base };
    assert_eq!(route_key(&editing, Key::Char('q'), false), (KeyRoute::SettingsEditing, false));
    let follow = UiModes { sprint_follow: true, ..base };
    assert_eq!(route_key(&follow, Key::Char('q'), false), (KeyRoute::SprintFollow, false));
    let unlink = UiModes { unlink_confirmation: true, ..base };
    assert_eq!(route_key(&unlink, Key::Char('y'), false), (KeyRoute::UnlinkConfirmation, true));
    let confirm = UiModes { worklog_creation_confirmation: true, ..base };
    assert_eq!(route_key(&confirm, Key::Char('f'), false).0, KeyRoute::WorklogCreationConfirmation);
    let gap_confirm = UiModes { gap_fill_confirmation: true, ..base };
    assert_eq!(route_key(&gap_confirm, Key::Enter, false).0, KeyRoute::GapFillConfirmation);
}

#[test]
fn tab_ui_state_starts_empty() {
    let s = TabUiState::default();
    assert_eq!(s.selected_sprint_index, 0);
    assert_eq!(s.selected_history_index, 0);
    assert!(s.expanded_history_ids.is_empty());
    assert!(!s.filter_unlinked_only);
    assert!(!s.settings_editing);
    assert!(s.settings_input_buffer.is_empty());
    assert!(s.settings_status.is_none());
    assert!(!s.meeting_search_active);
}

use wtf_cli::dashboard::{fetch_reaction, status_expired, FetchReaction};

#[test]
fn fetch_status_messages_and_reactions() {
    let err = FetchStatus::Error("boom".to_string());
    assert!(!status_expired(&err, 4_000_000_000));
    assert!(status_expired(&err, 5_000_000_001));
    assert!(!status_expired(&FetchStatus::Complete, 3_000_000_000));
    assert!(status_expired(&FetchStatus::Complete, 3_000_000_001));
    assert_eq!(fetch_reaction(&FetchStatus::Complete), FetchReaction::Completed);
    assert_eq!(fetch_reaction(&err), FetchReaction::Failed);
    assert_eq!(fetch_reaction(&FetchStatus::Fetching("boards".to_string())), FetchReaction::ShowStatus);
    assert_eq!(fetch_reaction(&FetchStatus::Idle), FetchReaction::ShowStatus);
}

#[test]
fn a_refresh_fetches_what_the_tab_shows() {
    let idle = FetchStatus::Idle;
    assert_eq!(
        refresh_plan(Tab::Sprints, &idle),
        Some(vec![FetchStep::Boards, FetchStep::Sprints, FetchStep::Issues, FetchStep::Worklogs, FetchStep::Meetings])
    );
    assert_eq!(refresh_plan(Tab::Meetings, &FetchStatus::Complete), Some(vec![FetchStep::Meetings]));
    assert_eq!(refresh_plan(Tab::History, &idle), Some(vec![]));
    assert_eq!(refresh_plan(Tab::Sprints, &FetchStatus::Fetching("x".to_string())), None);
    assert_eq!(step_message(Tab::Meetings, FetchStep::Meetings), "Fetching Google Calendar events...");
    assert_eq!(step_message(Tab::Sprints, FetchStep::Meetings), "Fetching meetings...");
}

#[test]
fn the_status_bar_shows_progress_and_sync_age() {
    assert_eq!(bar_fill(0, 5), 0);
    assert_eq!(bar_fill(2, 5), 4);
    assert_eq!(bar_fill(5, 5), 10);
    assert_eq!(bar_fill(7, 5), 10);
    assert_eq!(sync_age(42), "42s ago");
    assert_eq!(sync_age(-3), "-3s ago");
    assert_eq!(sync_age(60), "1m ago");
    assert_eq!(sync_age(3599), "59m ago");
    assert_eq!(sync_age(i64::MIN), "-9223372036854775808s ago");
}
