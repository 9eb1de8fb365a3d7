use wtf_cli::activity::{JiraWorklogEntry, LocalWorklogEntry, LocalWorklogState};
use wtf_cli::worklogs::{
    compute_worklogs_stats, crossed_tiers, day_status, find_duplicate_worklogs, hours_in_push,
    is_unfollow_all, select_worklogs, should_report_progress, sprint_jira_worklogs, sprint_local_worklogs,
    time_spent_level, DayStatus, SpentLevel, WorklogStats,
};

fn local(id: &str, day: i32, seconds: i64, worklog_id: Option<&str>, status: LocalWorklogState) -> LocalWorklogEntry {
    LocalWorklogEntry {
        id: id.to_string(),
        issue_id: "PAT-1".to_string(),
        day,
        seconds,
        worklog_id: worklog_id.map(|w| w.to_string()),
        status,
    }
}

fn jira(id: &str, author: &str, day: i32, seconds: u64) -> JiraWorklogEntry {
    JiraWorklogEntry { id: id.to_string(), author: author.to_string(), issue_id: "PAT-1".to_string(), day, seconds }
}

#[test]
fn stats_count_states_and_time() {
    let ws = vec![
        local("a", 1, 3600, None, LocalWorklogState::Created),
        local("b", 1, 1800, None, LocalWorklogState::Staged),
        local("c", 2, 600, Some("w"), LocalWorklogState::Pushed),
        local("d", 2, 60, None, LocalWorklogState::Staged),
    ];
    assert_eq!(compute_worklogs_stats(&ws), WorklogStats { created: 1, staged: 2, pushed: 1, total_seconds: 6060 });
}

#[test]
fn day_status_grades_logged_time() {
    assert_eq!(day_status(0), DayStatus::Missing { hours: 7, minutes: 0 });
    assert_eq!(day_status(3600 * 5 + 60 * 30), DayStatus::Missing { hours: 1, minutes: 30 });
    assert_eq!(day_status(25200), DayStatus::Good);
    assert_eq!(day_status(28799), DayStatus::Good);
    assert_eq!(day_status(28800), DayStatus::Overload);
}

#[test]
fn spent_level_compares_with_seven_hours_a_workday() {
    assert_eq!(time_spent_level(10, 0), SpentLevel::Low);
    assert_eq!(time_spent_level(10, 226_800), SpentLevel::Partial);
    assert_eq!(time_spent_level(10, 226_799), SpentLevel::Low);
    assert_eq!(time_spent_level(10, 252_000), SpentLevel::Complete);
    assert_eq!(time_spent_level(0, 0), SpentLevel::Complete);
}

#[test]
fn push_hours_and_tiers() {
    assert_eq!(hours_in_push(&[3600, 1800, 1800]), 2);
    assert_eq!(hours_in_push(&[-7200, 3600]), 0);
    assert_eq!(crossed_tiers(5, 60, &[1, 10, 50, 100]), vec![1, 2]);
    assert!(crossed_tiers(60, 60, &[10, 50]).is_empty());
}

#[test]
fn progress_is_reported_every_tenth_and_at_the_end() {
    assert!(should_report_progress(9, 25));
    assert!(!should_report_progress(10, 25));
    assert!(should_report_progress(24, 25));
}

#[test]
fn sprint_clearing_selects_own_worklogs_in_the_sprint() {
    let j = vec![jira("1", "me", 10, 60), jira("2", "you", 11, 60), jira("3", "me", 20, 60), jira("4", "me", 12, 60)];
    assert_eq!(sprint_jira_worklogs(&j, 10, 12, "me"), vec![0, 3]);
    let l = vec![local("a", 9, 1, None, LocalWorklogState::Created), local("b", 10, 1, None, LocalWorklogState::Created)];
    assert_eq!(sprint_local_worklogs(&l, 10, 12), vec![1]);
}

#[test]
fn duplicates_are_local_worklogs_already_in_jira() {
    let l = vec![
        local("a", 1, 60, Some("w1"), LocalWorklogState::Pushed),
        local("b", 1, 60, Some("w9"), LocalWorklogState::Pushed),
        local("c", 1, 60, None, LocalWorklogState::Created),
    ];
    let j = vec![jira("w1", "me", 1, 60)];
    assert_eq!(find_duplicate_worklogs(&l, &j), vec![0]);
}

#[test]
fn worklog_selection_by_id_prefix_or_all() {
    let ids = vec!["abc123".to_string(), "abd456".to_string(), "xyz".to_string()];
    assert_eq!(select_worklogs(&ids, &["ab".to_string()]), vec![0, 1]);
    assert_eq!(select_worklogs(&ids, &["all".to_string()]), vec![0, 1, 2]);
    assert!(select_worklogs(&ids, &[]).is_empty());
    assert!(is_unfollow_all(&["all".to_string()]));
    assert!(!is_unfollow_all(&["all".to_string(), "1".to_string()]));
}

use wtf_cli::worklogs::{confirms_sprint_name, issue_key_for, trim_chars, worklog_delete_url};

#[test]
fn sprint_clearing_helpers() {
    let pairs = vec![
        ("100".to_string(), "PAT-1".to_string()),
        ("200".to_string(), "APP-2".to_string()),
        ("100".to_string(), "PAT-9".to_string()),
    ];
    assert_eq!(issue_key_for("100", &pairs), "PAT-9");
    assert_eq!(issue_key_for("200", &pairs), "APP-2");
    assert_eq!(issue_key_for("300", &pairs), "300");
    assert_eq!(
        worklog_delete_url("https://x.atlassian.net", "PAT-1", "42"),
        "https://x.atlassian.net/rest/api/3/issue/PAT-1/worklog/42"
    );
    assert_eq!(trim_chars("  Sprint 12 \n"), "Sprint 12".chars().collect::<Vec<_>>());
    assert!(trim_chars(" \t ").is_empty());
    assert!(confirms_sprint_name("Sprint 12\n", "Sprint 12"));
    assert!(!confirms_sprint_name("sprint 12", "Sprint 12"));
}

use wtf_cli::worklogs::{created_worklogs, toggle_stage, unpushed_worklogs};

#[test]
fn staging_toggles_and_bulk_selections() {
    assert_eq!(toggle_stage(LocalWorklogState::Created), Some(LocalWorklogState::Staged));
    assert_eq!(toggle_stage(LocalWorklogState::Staged), Some(LocalWorklogState::Created));
    assert_eq!(toggle_stage(LocalWorklogState::Pushed), None);
    let ws = vec![
        local("a", 1, 1, None, LocalWorklogState::Created),
        local("b", 1, 1, Some("w"), LocalWorklogState::Pushed),
        local("c", 1, 1, None, LocalWorklogState::Staged),
        local("d", 1, 1, None, LocalWorklogState::Created),
    ];
    assert_eq!(unpushed_worklogs(&ws), vec![0, 2, 3]);
    assert_eq!(created_worklogs(&ws), vec![0, 3]);
}

#[test]
fn toggling_twice_restores_the_stage() {
    for s in [LocalWorklogState::Created, LocalWorklogState::Staged] {
        assert_eq!(toggle_stage(toggle_stage(s).unwrap()), Some(s));
    }
}
