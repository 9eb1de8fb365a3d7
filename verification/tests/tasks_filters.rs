use chrono::{Datelike, NaiveDate};
use wtf_cli::storage::FileStorage;
use wtf_cli::tasks::{
    meeting_days, meeting_worklog, sprint_days, sprint_time_spent, sprints_date_range, FetchGithubEventsTask, ListJiraSprints, LogGithubEventsTask, ShowGithubEventsTask,
    ShowGithubSessionsTask,
};

#[test]
fn session_listing_reads_its_date_filter() {
    let all = ShowGithubSessionsTask::new(None);
    assert_eq!(all.filter_day(), Ok(None));
    let one = ShowGithubSessionsTask::new(Some("2026-03-16"));
    let expected = NaiveDate::from_ymd_opt(2026, 3, 16).unwrap().num_days_from_ce();
    assert_eq!(one.filter_day(), Ok(Some(expected)));
}

#[test]
fn a_malformed_date_filter_is_reported() {
    let bad = ShowGithubEventsTask::new(Some("16/03/2026"));
    let err = bad.filter_day().unwrap_err();
    let chrono_err = NaiveDate::parse_from_str("16/03/2026", "%Y-%m-%d").unwrap_err();
    assert_eq!(err, format!("Invalid date format: {}. Expected YYYY-MM-DD", chrono_err));
    assert!(ShowGithubEventsTask::new(Some("2026-02-30")).filter_day().is_err());
}

#[test]
fn sprint_listing_mode() {
    assert!(ListJiraSprints::new(true).fetch_all());
    assert!(!ListJiraSprints::new(false).fetch_all());
    let _ = FetchGithubEventsTask::new();
    let _ = LogGithubEventsTask::new();
}

#[test]
fn sprint_time_counts_worklogs_within_the_window() {
    let worklogs = vec![(100, 3600), (200, 1800), (300, 600), (50, 7)];
    assert_eq!(sprint_time_spent(Some(100), Some(250), &worklogs), 5400);
    assert_eq!(sprint_time_spent(None, Some(250), &worklogs), 0);
    assert_eq!(sprint_time_spent(Some(0), None, &worklogs), 0);
    assert_eq!(sprint_time_spent(Some(0), Some(1000), &[]), 0);
}

#[test]
fn file_storage_remembers_its_path() {
    let s = FileStorage::new("/tmp/wtf.json");
    assert_eq!(s.file_path(), "/tmp/wtf.json");
}

use wtf_cli::tasks::{plan_session_worklog, SessionWorklogPlan};

#[test]
fn sessions_become_worklogs_on_their_first_known_issue() {
    let known = vec!["PAT-1".to_string(), "APP-2".to_string()];
    assert_eq!(plan_session_worklog(&[], &known), SessionWorklogPlan::NoIssue);
    assert_eq!(
        plan_session_worklog(&["APP-2".to_string(), "X-1".to_string()], &known),
        SessionWorklogPlan::Create("APP-2".to_string())
    );
    assert_eq!(
        plan_session_worklog(&["X-1".to_string(), "PAT-1".to_string()], &known),
        SessionWorklogPlan::UnknownIssue("X-1".to_string())
    );
}

use wtf_cli::tasks::{sprint_state, SprintState};

#[test]
fn sprint_states_from_jira() {
    assert_eq!(sprint_state("active"), SprintState::Active);
    assert_eq!(sprint_state("closed"), SprintState::Closed);
    assert_eq!(sprint_state("future"), SprintState::Future);
    assert_eq!(SprintState::Future.label(), "Future");
}

#[test]
fn fetched_worklogs_replace_the_sprints_whole_span() {
    assert_eq!(sprints_date_range(&[]), None);
    assert_eq!(sprints_date_range(&[(Some(10), None), (None, Some(20))]), None);
    assert_eq!(
        sprints_date_range(&[(Some(30), Some(44)), (None, Some(99)), (Some(15), Some(29)), (Some(45), Some(59))]),
        Some((15, 59))
    );
}

#[test]
fn meetings_are_logged_on_days_present() {
    assert_eq!(meeting_days(10, 14, &[11, 13, 20]), vec![10, 12, 14]);
    assert_eq!(meeting_days(5, 4, &[]), Vec::<i32>::new());
    assert_eq!(meeting_days(7, 7, &[7]), Vec::<i32>::new());
}

#[test]
fn a_meeting_worklog_needs_an_issue() {
    assert_eq!(meeting_worklog(&None, 0, 1800, &Some("Standup".to_string())), None);
    assert_eq!(
        meeting_worklog(&Some("PROJ-1".to_string()), 1000, 4600, &Some("Standup".to_string())),
        Some(("PROJ-1".to_string(), 3600, "Standup".to_string()))
    );
    assert_eq!(
        meeting_worklog(&Some("PROJ-1".to_string()), 0, 900, &None),
        Some(("PROJ-1".to_string(), 900, "no title".to_string()))
    );
}

#[test]
fn sprint_days_for_the_burn_rate() {
    assert_eq!(sprint_days(100, 113, 105), (14, 5, 8));
    assert_eq!(sprint_days(100, 113, 90), (14, 0, 23));
    assert_eq!(sprint_days(100, 113, 200), (14, 14, 0));
}
