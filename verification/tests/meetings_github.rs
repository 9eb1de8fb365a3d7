use wtf_cli::github::{
    collect_session_repos, fetched_validation, group_activity_events, lookup_validation,
    normalized_activity_name, partition_detected_keys, split_issue_keys, valid_github_issues_for_session,
    GitHubEvent, GitHubIssueValidation, GitHubSession,
};
use wtf_cli::meetings::{
    is_absence_title, parse_issue_key_input, pending_meeting_count, LinkAction, LinkPlanner, MeetingSummary,
    StringMap,
};

fn session(issues: &str, repo: &str) -> GitHubSession {
    GitHubSession {
        id: "s".to_string(),
        start_time: 0,
        end_time: 3600,
        duration_seconds: 3600,
        repo: repo.to_string(),
        description: String::new(),
        jira_issues: issues.to_string(),
        event_ids: String::new(),
        date: 1,
    }
}

fn event(kind: &str, repo: &str, ts: i64, issues: &str) -> GitHubEvent {
    GitHubEvent {
        id: format!("e{}", ts),
        event_type: kind.to_string(),
        repo: repo.to_string(),
        timestamp: ts,
        description: String::new(),
        jira_issues: issues.to_string(),
        date: 1,
    }
}

#[test]
fn issue_key_lists_drop_empty_pieces() {
    assert_eq!(split_issue_keys("PAT-1,,APP-2,"), vec!["PAT-1", "APP-2"]);
    assert!(split_issue_keys("").is_empty());
    assert_eq!(session("A-1,B-2", "r").get_jira_issues(), vec!["A-1", "B-2"]);
}

#[test]
fn validations_keep_keys_not_missing() {
    let v = vec![("A-1".to_string(), GitHubIssueValidation::Missing), ("B-2".to_string(), GitHubIssueValidation::Cached)];
    assert_eq!(lookup_validation(&v, "B-2"), Some(GitHubIssueValidation::Cached));
    assert_eq!(lookup_validation(&v, "C-3"), None);
    assert_eq!(valid_github_issues_for_session(&session("A-1,B-2,C-3", "r"), &v), vec!["B-2", "C-3"]);
    assert_eq!(fetched_validation(true), GitHubIssueValidation::Remote);
    assert_eq!(fetched_validation(false), GitHubIssueValidation::Missing);
}

#[test]
fn detected_keys_split_between_cache_and_lookup() {
    let keys = vec!["A-1".to_string(), "B-2".to_string(), "C-3".to_string()];
    let (cached, to_fetch) = partition_detected_keys(&keys, &["B-2".to_string()]);
    assert_eq!(cached, vec![("B-2".to_string(), GitHubIssueValidation::Cached)]);
    assert_eq!(to_fetch, vec!["A-1", "C-3"]);
}

#[test]
fn activity_names_are_normalised() {
    assert_eq!(normalized_activity_name("PullRequestReviewCommentEvent"), "PR review");
    assert_eq!(normalized_activity_name("PushEvent"), "Push");
    assert_eq!(normalized_activity_name("IssueCommentEvent"), "Issue comment");
    assert_eq!(normalized_activity_name("CreateEvent"), "Create");
    assert_eq!(normalized_activity_name("ForkEventEvent"), "Fork");
}

#[test]
fn consecutive_events_of_a_kind_are_grouped() {
    let events = vec![
        event("PushEvent", "r", 10, "A-1"),
        event("PushEvent", "r", 20, "A-1"),
        event("IssuesEvent", "r", 30, "A-1"),
        event("PushEvent", "r", 40, "A-1"),
    ];
    let groups = group_activity_events(&events);
    assert_eq!(groups.len(), 3);
    assert_eq!(groups[0].activity_name, "Push");
    assert_eq!((groups[0].start_time, groups[0].end_time, groups[0].count), (10, 20, 2));
    assert_eq!(groups[0].issue_keys, vec!["A-1"]);
    assert_eq!(groups[1].activity_name, "Issue");
    assert_eq!(groups[2].count, 1);
}

#[test]
fn session_repositories_come_from_events() {
    let s = session("", "own/repo");
    assert_eq!(collect_session_repos(&s, &[]), vec!["own/repo"]);
    let events = vec![event("PushEvent", "b/x", 1, ""), event("PushEvent", "a/y", 2, ""), event("PushEvent", "b/x", 3, "")];
    assert_eq!(collect_session_repos(&s, &events), vec!["a/y", "b/x"]);
}

fn meeting(id: &str, title: Option<&str>, recurring: bool, link: Option<&str>) -> MeetingSummary {
    MeetingSummary {
        id: id.to_string(),
        title: title.map(|t| t.to_string()),
        is_recurring: recurring,
        jira_link: link.map(|l| l.to_string()),
    }
}

#[test]
fn absences_and_pending_meetings() {
    assert!(is_absence_title("Absence - holidays"));
    assert!(is_absence_title("I am absent"));
    assert!(!is_absence_title("Standup"));
    assert_eq!(pending_meeting_count(&[false, true, false], &[false, false, true]), 1);
}

#[test]
fn string_map_keeps_the_last_value() {
    let mut m = StringMap::new();
    m.insert("a".to_string(), "1".to_string());
    m.insert("b".to_string(), "2".to_string());
    m.insert("a".to_string(), "3".to_string());
    assert_eq!(m.get("a"), Some("3".to_string()));
    assert_eq!(m.get("c"), None);
}

#[test]
fn link_planner_reuses_known_links() {
    let known = vec![meeting("m0", Some("Weekly"), true, Some("PAT-1"))];
    let mut planner = LinkPlanner::new(&known);
    assert_eq!(planner.decide(&meeting("m1", Some("Weekly"), true, None)), LinkAction::ReuseRecurring("PAT-1".to_string()));
    assert_eq!(planner.decide(&meeting("m2", Some("Absence"), false, None)), LinkAction::SkipAbsence);
    assert_eq!(planner.decide(&meeting("m3", Some("1:1"), false, Some("X-1"))), LinkAction::AlreadyLinked);
    let adhoc = meeting("m4", Some("Sync"), true, None);
    assert_eq!(planner.decide(&adhoc), LinkAction::Ask);
    planner.record(&adhoc, "APP-2".to_string());
    assert_eq!(planner.decide(&adhoc), LinkAction::ReuseRecurring("APP-2".to_string()));
    let once = meeting("m5", None, false, None);
    planner.record(&once, "WEB-3".to_string());
    assert_eq!(planner.decide(&once), LinkAction::ReuseCached("WEB-3".to_string()));
}

#[test]
fn typed_issue_keys_are_read() {
    assert_eq!(parse_issue_key_input("   "), None);
    assert_eq!(parse_issue_key_input("PAT-12"), Some("PAT-12".to_string()));
    assert_eq!(parse_issue_key_input("[APP-7] Fix the thing"), Some("APP-7".to_string()));
    assert_eq!(parse_issue_key_input("see [x] then [WEB-3]"), Some("WEB-3".to_string()));
    assert_eq!(parse_issue_key_input("not a key"), None);
}
