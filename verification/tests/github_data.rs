use chrono::{Datelike, TimeZone, Utc};
use wtf_cli::github::{
    collect_detected_github_issue_keys, filter_github_sessions_with_usable_issues, GitHubEvent,
    GitHubIssueValidation, GitHubSession,
};

fn instant(y: i32, mo: u32, d: u32, h: u32, mi: u32) -> (i64, i32) {
    let t = Utc.with_ymd_and_hms(y, mo, d, h, mi, 0).unwrap();
    (t.timestamp(), t.date_naive().num_days_from_ce())
}

fn session(id: &str, start: (i32, u32, u32, u32, u32), end: (i32, u32, u32, u32, u32), duration: i64,
    description: &str, issues: &str, events: &str) -> GitHubSession {
    let (s, day) = instant(start.0, start.1, start.2, start.3, start.4);
    let (e, _) = instant(end.0, end.1, end.2, end.3, end.4);
    GitHubSession {
        id: id.to_string(),
        start_time: s,
        end_time: e,
        duration_seconds: duration,
        repo: "org/repo".to_string(),
        description: description.to_string(),
        jira_issues: issues.to_string(),
        event_ids: events.to_string(),
        date: day,
    }
}

#[test]
fn collect_detected_github_issue_keys_deduplicates_session_and_event_keys() {
    let s = session("session", (2026, 3, 16, 9, 0), (2026, 3, 16, 10, 0), 3600, "Pushed: PAT-11", "PAT-11,APP-7", "evt-1,evt-2");
    let (ts, day) = instant(2026, 3, 16, 9, 30);
    let event = GitHubEvent {
        id: "evt-1".to_string(),
        event_type: "PushEvent".to_string(),
        repo: "org/repo".to_string(),
        timestamp: ts,
        description: "Pushed: PAT-11 and WEB-3".to_string(),
        jira_issues: "PAT-11,WEB-3".to_string(),
        date: day,
    };

    let keys = collect_detected_github_issue_keys(&[s], &[event]);

    assert_eq!(
        keys.into_iter().collect::<Vec<_>>(),
        vec!["APP-7".to_string(), "PAT-11".to_string(), "WEB-3".to_string()]
    );
}

#[test]
fn filter_github_sessions_with_usable_issues_removes_missing_only_sessions() {
    let missing_only = session("missing-only", (2026, 3, 16, 9, 0), (2026, 3, 16, 9, 15), 900, "", "MISS-1", "");
    let mixed = session("mixed", (2026, 3, 16, 10, 0), (2026, 3, 16, 10, 30), 1800, "", "MISS-1,OK-2", "");
    let mixed_id = mixed.id.clone();

    let validations = vec![
        ("MISS-1".to_string(), GitHubIssueValidation::Missing),
        ("OK-2".to_string(), GitHubIssueValidation::Remote),
    ];

    let filtered = filter_github_sessions_with_usable_issues(vec![missing_only, mixed], &validations);

    assert_eq!(filtered.len(), 1);
    assert_eq!(filtered[0].id, mixed_id);
}

#[test]
fn sessions_without_issue_keys_are_kept() {
    let bare = session("bare", (2026, 3, 16, 9, 0), (2026, 3, 16, 9, 15), 900, "", "", "");
    let filtered = filter_github_sessions_with_usable_issues(vec![bare], &[]);
    assert_eq!(filtered.len(), 1);
}
