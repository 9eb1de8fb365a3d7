use wtf_cli::keys::Key;
use wtf_cli::wizard::{
    linking_window, matches_current_step, next_spinner_frame, pre_launch_choice, spinner_char, step_mark, unlink_choice,
    CancelChoice, PreLaunchChoice, StepMark,
    WizardCancelConfirmation, WizardEvent, WizardEventHandler, WizardReaction, WizardRollbackLog,
    WizardStepKind,
};

#[test]
fn rollback_log_records_links_and_worklogs() {
    let mut log = WizardRollbackLog::default();
    assert!(log.linked_meeting_ids.is_empty());
    log.record_link("m1".to_string());
    log.record_link("m2".to_string());
    log.record_link("m1".to_string());
    log.record_worklog("w1".to_string());
    assert_eq!(log.linked_meeting_ids, vec!["m1", "m2", "m1"]);
    assert_eq!(log.created_worklog_ids, vec!["w1"]);
    assert_eq!(
        log.original_meeting_links,
        vec![("m1".to_string(), None), ("m2".to_string(), None)]
    );
}

#[test]
fn cancel_confirmation_reads_answers() {
    let c = WizardCancelConfirmation;
    assert_eq!(c.choice(Key::Char('y')), CancelChoice::Rollback);
    assert_eq!(c.choice(Key::Char('K')), CancelChoice::KeepStaged);
    assert_eq!(c.choice(Key::Esc), CancelChoice::Continue);
    assert_eq!(c.choice(Key::Char('n')), CancelChoice::Continue);
    assert_eq!(c.choice(Key::Enter), CancelChoice::Undecided);
}

#[test]
fn pre_launch_and_unlink_prompts_read_answers() {
    assert_eq!(pre_launch_choice(Key::Char('k')), PreLaunchChoice::Keep);
    assert_eq!(pre_launch_choice(Key::Char('R')), PreLaunchChoice::Reset);
    assert_eq!(pre_launch_choice(Key::Esc), PreLaunchChoice::Abort);
    assert_eq!(pre_launch_choice(Key::Char('x')), PreLaunchChoice::Undecided);
    assert_eq!(unlink_choice(Key::Enter), Some(true));
    assert_eq!(unlink_choice(Key::Char('Y')), Some(true));
    assert_eq!(unlink_choice(Key::Char('n')), Some(false));
    assert_eq!(unlink_choice(Key::Esc), Some(false));
    assert_eq!(unlink_choice(Key::Char('q')), None);
}

#[test]
fn wizard_reacts_to_events_of_its_step() {
    let h = WizardEventHandler;
    assert_eq!(h.react(WizardStepKind::Syncing, &WizardEvent::FetchComplete), WizardReaction::StartAutoLinking);
    assert_eq!(h.react(WizardStepKind::Pushing, &WizardEvent::FetchComplete), WizardReaction::Ignore);
    assert_eq!(h.react(WizardStepKind::Pushing, &WizardEvent::PushComplete), WizardReaction::FinishPush);
    let progress = WizardEvent::PushProgress { current: 1, total: 3, message: "pushed".to_string() };
    assert_eq!(h.react(WizardStepKind::Pushing, &progress), WizardReaction::RecordProgress);
    assert_eq!(h.react(WizardStepKind::Complete, &progress), WizardReaction::Ignore);
    assert_eq!(h.react(WizardStepKind::Syncing, &WizardEvent::Other), WizardReaction::Ignore);
}

#[test]
fn push_log_keeps_the_last_ten_lines() {
    let h = WizardEventHandler;
    let mut logs: Vec<String> = Vec::new();
    for i in 0..12 {
        h.record_push_log(&mut logs, format!("line {}", i));
    }
    assert_eq!(logs.len(), 10);
    assert_eq!(logs[0], "line 2");
    assert_eq!(logs[9], "line 11");
}

#[test]
fn spinner_cycles_until_complete() {
    assert_eq!(next_spinner_frame(0, WizardStepKind::Syncing), 1);
    assert_eq!(next_spinner_frame(9, WizardStepKind::Pushing), 0);
    assert_eq!(next_spinner_frame(4, WizardStepKind::Complete), 4);
}

use wtf_cli::wizard::{manual_link_key, record_manual_link, ManualLinkStep};

#[test]
fn manual_linking_keys() {
    let mut selected = 0;
    assert_eq!(manual_link_key(3, &mut selected, Key::Char('j')), ManualLinkStep::Nothing);
    assert_eq!(selected, 1);
    assert_eq!(manual_link_key(3, &mut selected, Key::Enter), ManualLinkStep::Link(1));
    assert_eq!(manual_link_key(3, &mut selected, Key::Char('S')), ManualLinkStep::SkipRemaining);
    assert_eq!(manual_link_key(0, &mut selected, Key::Char('l')), ManualLinkStep::Nothing);
    selected = 2;
    manual_link_key(3, &mut selected, Key::Down);
    assert_eq!(selected, 2);
}

#[test]
fn linked_meetings_leave_the_unlinked_list() {
    let mut unlinked = vec!["a".to_string(), "b".to_string(), "c".to_string()];
    let mut selected = 2;
    assert!(!record_manual_link(&mut unlinked, &mut selected, "c"));
    assert_eq!(unlinked, vec!["a", "b"]);
    assert_eq!(selected, 1);
    assert!(!record_manual_link(&mut unlinked, &mut selected, "zz"));
    assert_eq!(selected, 1);
    assert!(!record_manual_link(&mut unlinked, &mut selected, "a"));
    assert_eq!(selected, 0);
    assert!(record_manual_link(&mut unlinked, &mut selected, "b"));
    assert!(unlinked.is_empty());
}

use wtf_cli::wizard::{creation_choice, time_per_issue, CreationChoice};

#[test]
fn worklog_creation_answers_and_time_split() {
    assert_eq!(creation_choice(Key::Char('F')), CreationChoice::Full);
    assert_eq!(creation_choice(Key::Char('p')), CreationChoice::Partial);
    assert_eq!(creation_choice(Key::Char('s')), CreationChoice::Skip);
    assert_eq!(creation_choice(Key::Esc), CreationChoice::CancelWizard);
    assert_eq!(creation_choice(Key::Enter), CreationChoice::Undecided);
    assert_eq!(time_per_issue(3600, 3), 1200);
    assert_eq!(time_per_issue(3601, 2), 1800);
    assert_eq!(time_per_issue(3600, 1), 3600);
    assert_eq!(time_per_issue(3600, 0), 3600);
    assert_eq!(time_per_issue(-7, 2), -7 / 2);
    assert_eq!(time_per_issue(i64::MIN, 2), i64::MIN / 2);
}

#[test]
fn the_progress_list_marks_each_step() {
    let completed = vec![1, 2, 3];
    let reasons = vec![(3, "no meetings".to_string())];
    let mark = |n: usize| step_mark(n, &completed, &reasons, WizardStepKind::CreatingGitHubWorklogs);
    assert!(matches!(mark(1), StepMark::Done));
    assert!(matches!(mark(3), StepMark::Skipped(r) if r == "no meetings"));
    assert!(matches!(mark(4), StepMark::Current));
    assert!(matches!(mark(5), StepMark::Pending));
    assert!(matches_current_step(2, WizardStepKind::ManualLinking));
    assert!(matches_current_step(2, WizardStepKind::AutoLinking));
    assert!(!matches_current_step(1, WizardStepKind::AutoLinking));
    assert_eq!(spinner_char(0), '⠋');
    assert_eq!(spinner_char(13), '⠸');
}

#[test]
fn the_linking_list_scrolls_with_the_selection() {
    assert_eq!(linking_window(4, 3), (0, 4));
    assert_eq!(linking_window(30, 2), (0, 10));
    assert_eq!(linking_window(30, 12), (7, 17));
    assert_eq!(linking_window(30, 27), (20, 30));
}
