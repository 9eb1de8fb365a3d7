use chrono::NaiveDate;
use chrono::Datelike;
use wtf_cli::activity::{JiraWorklogEntry, LocalWorklogEntry, LocalWorklogState};
use wtf_cli::history::{
    build_flat_rows, count_tier, day_totals, history_handle_key, is_last_day, jira_only_by_sprint, jira_only_id, jira_only_preview,
    longest_day, utc_day_of, CountTier, HistoryAction,
    HistoryBatch, HistoryRow, RevertConfirmationState, RevertOutcome, SprintWindow,
};
use wtf_cli::keys::Key;

fn day(y: i32, m: u32, d: u32) -> i32 {
    NaiveDate::from_ymd_opt(y, m, d).unwrap().num_days_from_ce()
}

fn batches() -> Vec<HistoryBatch> {
    vec![
        HistoryBatch { id: "h1".to_string(), days: vec![day(2026, 3, 2), day(2026, 3, 3)] },
        HistoryBatch { id: "h2".to_string(), days: vec![day(2026, 3, 4)] },
    ]
}

#[test]
fn rows_list_expanded_days_under_their_batch_and_sprints_last() {
    let rows = build_flat_rows(&batches(), &vec!["h1".to_string()], 1);
    assert_eq!(
        rows,
        vec![
            HistoryRow::Batch(0),
            HistoryRow::Day(0, day(2026, 3, 2)),
            HistoryRow::Day(0, day(2026, 3, 3)),
            HistoryRow::Batch(1),
            HistoryRow::JiraOnly(0),
        ]
    );
}

#[test]
fn right_expands_and_left_on_a_day_collapses_to_the_header() {
    let b = batches();
    let jira: Vec<String> = vec![];
    let mut selected = 0;
    let mut expanded: Vec<String> = vec![];
    assert_eq!(history_handle_key(&b, &jira, &mut selected, &mut expanded, Key::Right), HistoryAction::Nothing);
    assert_eq!(expanded, vec!["h1".to_string()]);
    assert!(history_handle_key(&b, &jira, &mut selected, &mut expanded, Key::Down) == HistoryAction::Nothing);
    assert!(history_handle_key(&b, &jira, &mut selected, &mut expanded, Key::Down) == HistoryAction::Nothing);
    assert_eq!(selected, 2);
    history_handle_key(&b, &jira, &mut selected, &mut expanded, Key::Char('h'));
    assert_eq!(selected, 0);
    assert!(expanded.is_empty());
}

#[test]
fn enter_twice_on_a_batch_restores_the_view() {
    let b = batches();
    let jira: Vec<String> = vec![];
    let mut selected = 1;
    let mut expanded: Vec<String> = vec![];
    history_handle_key(&b, &jira, &mut selected, &mut expanded, Key::Enter);
    assert_eq!(expanded, vec!["h2".to_string()]);
    assert_eq!(selected, 1);
    history_handle_key(&b, &jira, &mut selected, &mut expanded, Key::Enter);
    assert!(expanded.is_empty());
    assert_eq!(selected, 1);
}

#[test]
fn collapsing_with_enter_keeps_the_selection_within_the_rows() {
    let b = vec![HistoryBatch { id: "h1".to_string(), days: vec![1, 2, 3] }];
    let jira: Vec<String> = vec![];
    let mut selected = 0;
    let mut expanded = vec!["h1".to_string()];
    history_handle_key(&b, &jira, &mut selected, &mut expanded, Key::Enter);
    assert_eq!(selected, 0);
    assert!(expanded.is_empty());
}

#[test]
fn action_keys_name_the_selected_row() {
    let b = batches();
    let jira = vec![jira_only_id(7)];
    let mut selected = 1;
    let mut expanded: Vec<String> = vec![];
    assert_eq!(history_handle_key(&b, &jira, &mut selected, &mut expanded, Key::Delete), HistoryAction::ConfirmRevert(1));
    assert_eq!(history_handle_key(&b, &jira, &mut selected, &mut expanded, Key::Char('D')), HistoryAction::DeleteHistory(1));
    assert_eq!(history_handle_key(&b, &jira, &mut selected, &mut expanded, Key::Char('c')), HistoryAction::CreateRecoveryHistory);
    selected = 2;
    assert_eq!(history_handle_key(&b, &jira, &mut selected, &mut expanded, Key::Char('C')), HistoryAction::ImportJiraOnly(0));
    assert_eq!(history_handle_key(&b, &jira, &mut selected, &mut expanded, Key::Delete), HistoryAction::Nothing);
    history_handle_key(&b, &jira, &mut selected, &mut expanded, Key::Right);
    assert_eq!(expanded, vec!["__jira_only__7".to_string()]);
}

#[test]
fn page_keys_move_ten_rows_within_the_list() {
    let b: Vec<HistoryBatch> = (0..30).map(|i| HistoryBatch { id: format!("h{}", i), days: vec![] }).collect();
    let jira: Vec<String> = vec![];
    let mut selected = 5;
    let mut expanded: Vec<String> = vec![];
    history_handle_key(&b, &jira, &mut selected, &mut expanded, Key::PageUp);
    assert_eq!(selected, 0);
    history_handle_key(&b, &jira, &mut selected, &mut expanded, Key::PageDown);
    assert_eq!(selected, 10);
    selected = 25;
    history_handle_key(&b, &jira, &mut selected, &mut expanded, Key::PageDown);
    assert_eq!(selected, 29);
}

#[test]
fn an_empty_history_ignores_keys() {
    let b: Vec<HistoryBatch> = vec![];
    let jira: Vec<String> = vec![];
    let mut selected = 3;
    let mut expanded: Vec<String> = vec![];
    assert_eq!(history_handle_key(&b, &jira, &mut selected, &mut expanded, Key::Down), HistoryAction::Nothing);
    assert_eq!(selected, 3);
}

#[test]
fn revert_confirmation_accepts_hours_and_answers() {
    let mut state = RevertConfirmationState::new("h1".to_string());
    assert_eq!(state.handle_key(Key::Char('1'), None), RevertOutcome::Edited);
    assert_eq!(state.handle_key(Key::Char('x'), None), RevertOutcome::Ignored);
    assert_eq!(state.handle_key(Key::Char('.'), None), RevertOutcome::Edited);
    assert_eq!(state.handle_key(Key::Char('5'), None), RevertOutcome::Edited);
    assert_eq!(state.user_input, "1.5");
    assert_eq!(state.handle_key(Key::Backspace, None), RevertOutcome::Edited);
    assert_eq!(state.user_input, "1.");
    assert_eq!(state.handle_key(Key::Enter, Some(false)), RevertOutcome::WrongHours);
    assert_eq!(state.handle_key(Key::Enter, None), RevertOutcome::Ignored);
    assert_eq!(state.handle_key(Key::Enter, Some(true)), RevertOutcome::Revert);
    assert_eq!(state.handle_key(Key::Esc, None), RevertOutcome::Closed);
    state.reverting = true;
    assert_eq!(state.handle_key(Key::Char('2'), None), RevertOutcome::Ignored);
    assert_eq!(state.user_input, "1.");
}

fn jira_worklog(id: &str, d: i32) -> JiraWorklogEntry {
    JiraWorklogEntry { id: id.to_string(), author: "me".to_string(), issue_id: "PAT-1".to_string(), day: d, seconds: 3600 }
}

fn ts(y: i32, m: u32, d: u32) -> i64 {
    NaiveDate::from_ymd_opt(y, m, d).unwrap().and_hms_opt(9, 0, 0).unwrap().and_utc().timestamp()
}

#[test]
fn untracked_jira_worklogs_are_grouped_by_sprint_latest_first() {
    let local = vec![LocalWorklogEntry {
        id: "l1".to_string(),
        issue_id: "PAT-1".to_string(),
        day: day(2026, 3, 2),
        seconds: 3600,
        worklog_id: Some("w1".to_string()),
        status: LocalWorklogState::Pushed,
    }];
    let jira = vec![
        jira_worklog("w1", day(2026, 3, 2)),
        jira_worklog("w2", day(2026, 3, 3)),
        jira_worklog("w3", day(2026, 3, 17)),
        jira_worklog("w4", day(2026, 4, 20)),
    ];
    let sprints = vec![
        SprintWindow { id: 1, start: Some(ts(2026, 3, 2)), end: Some(ts(2026, 3, 13)) },
        SprintWindow { id: 2, start: Some(ts(2026, 3, 16)), end: Some(ts(2026, 3, 27)) },
        SprintWindow { id: 3, start: None, end: Some(ts(2026, 4, 30)) },
        SprintWindow { id: 4, start: Some(ts(2026, 5, 1)), end: Some(ts(2026, 5, 15)) },
    ];
    let entries = jira_only_by_sprint(&local, &jira, &sprints);
    assert_eq!(entries, vec![(1, vec![2]), (0, vec![1])]);
}

#[test]
fn sprints_starting_together_keep_their_order() {
    let jira = vec![jira_worklog("w1", day(2026, 3, 3))];
    let window = SprintWindow { id: 5, start: Some(ts(2026, 3, 2)), end: Some(ts(2026, 3, 13)) };
    let other = SprintWindow { id: 6, ..window };
    let entries = jira_only_by_sprint(&[], &jira, &[window, other]);
    assert_eq!(entries, vec![(0, vec![0]), (1, vec![0])]);
}

#[test]
fn utc_days_follow_the_epoch() {
    assert_eq!(utc_day_of(0), day(1970, 1, 1) as i64);
    assert_eq!(utc_day_of(-1), day(1969, 12, 31) as i64);
    assert_eq!(utc_day_of(86_399), day(1970, 1, 1) as i64);
    assert_eq!(utc_day_of(86_400), day(1970, 1, 2) as i64);
    assert_eq!(utc_day_of(ts(2026, 3, 16)), day(2026, 3, 16) as i64);
}

#[test]
fn virtual_ids_name_the_sprint() {
    assert_eq!(jira_only_id(0), "__jira_only__0");
    assert_eq!(jira_only_id(1234), "__jira_only__1234");
}

#[test]
fn batch_days_are_distinct_and_ordered() {
    let b = HistoryBatch::from_worklog_days("h9".to_string(), &[5, 3, 5, 9, 3, 1]);
    assert_eq!(b.id, "h9");
    assert_eq!(b.days, vec![1, 3, 5, 9]);
    assert!(HistoryBatch::from_worklog_days("e".to_string(), &[]).days.is_empty());
}

#[test]
fn a_batch_is_summed_per_day() {
    let wls = vec![(10, 3600), (11, 1800), (10, 900), (12, 0)];
    assert_eq!(day_totals(&wls, 10), (4500, 2));
    assert_eq!(day_totals(&wls, 13), (0, 0));
    assert_eq!(longest_day(&wls, &[10, 11, 12]), 4500);
    assert_eq!(longest_day(&[(12, 0)], &[12]), 1);
    assert_eq!(count_tier(101), CountTier::VeryMany);
    assert_eq!(count_tier(51), CountTier::Many);
    assert_eq!(count_tier(11), CountTier::Several);
    assert_eq!(count_tier(10), CountTier::Few);
    assert_eq!(jira_only_preview(3), (3, false));
    assert_eq!(jira_only_preview(8), (5, true));
}

#[test]
fn the_last_day_of_a_batch_closes_its_branch() {
    let rows = vec![HistoryRow::Batch(0), HistoryRow::Day(0, 1), HistoryRow::Day(0, 2), HistoryRow::Batch(1), HistoryRow::Day(1, 5)];
    assert!(!is_last_day(&rows, 0));
    assert!(!is_last_day(&rows, 1));
    assert!(is_last_day(&rows, 2));
    assert!(is_last_day(&rows, 4));
}
