use wtf_cli::activity::{JiraWorklogEntry, LocalWorklogEntry, LocalWorklogState};
use wtf_cli::github::{record_lookups, resolve_validations, GitHubIssueValidation};
use wtf_cli::tabs::Tab;
use wtf_cli::worklogs::{apply_push_outcome, clear_deletions, plan_clear, ClearPlan, PushOutcome};

fn jira(id: &str, issue_id: &str) -> JiraWorklogEntry {
    JiraWorklogEntry { id: id.to_string(), author: "me".to_string(), issue_id: issue_id.to_string(), day: 1, seconds: 60 }
}

fn s(x: &str) -> String {
    x.to_string()
}

#[test]
fn stepping_through_every_tab_comes_back() {
    for has in [false, true] {
        let tabs = Tab::available_tabs(has);
        for &t in &tabs {
            let mut forward = t;
            let mut back = t;
            for _ in 0..tabs.len() {
                forward = forward.next(has);
                back = back.previous(has);
                assert!(tabs.contains(&forward) && tabs.contains(&back));
            }
            assert_eq!(forward, t);
            assert_eq!(back, t);
        }
    }
}

#[test]
fn a_dry_run_previews_five_urls_and_deletes_nothing() {
    let ws: Vec<JiraWorklogEntry> = (0..7).map(|i| jira(&format!("w{}", i), "100")).collect();
    let chosen: Vec<usize> = (0..7).collect();
    let pairs = vec![(s("100"), s("PROJ-1"))];
    match plan_clear(&ws, &chosen, 0, true, "https://j", &pairs) {
        ClearPlan::DryRun { preview_urls, more } => {
            assert_eq!(preview_urls.len(), 5);
            assert_eq!(preview_urls[0], "https://j/rest/api/3/issue/PROJ-1/worklog/w0");
            assert_eq!(preview_urls[4], "https://j/rest/api/3/issue/PROJ-1/worklog/w4");
            assert!(more);
        },
        _ => panic!("expected a dry run"),
    }
    assert!(matches!(plan_clear(&ws, &[], 0, true, "https://j", &pairs), ClearPlan::Nothing));
    assert!(matches!(plan_clear(&ws, &[1], 0, false, "https://j", &pairs), ClearPlan::Confirm));
    assert_eq!(clear_deletions(true, Some("Sprint 1"), "Sprint 1", vec![0, 1], vec![2]), None);
}

#[test]
fn a_wrong_sprint_name_aborts_the_clearing() {
    assert_eq!(clear_deletions(false, Some("Sprint 2"), "Sprint 1", vec![0, 1], vec![2]), None);
    assert_eq!(clear_deletions(false, None, "Sprint 1", vec![0], vec![]), None);
    assert_eq!(clear_deletions(false, Some("  Sprint 1 \n"), "Sprint 1", vec![0, 1], vec![2]), Some((vec![0, 1], vec![2])));
}

#[test]
fn lookups_complete_the_validations_and_fill_the_cache() {
    let mut cache = vec![s("A-1")];
    let keys = vec![s("A-1"), s("B-2"), s("C-3")];
    let v = resolve_validations(&keys, &mut cache, &[Some(s("B-2")), None]);
    assert_eq!(
        v,
        vec![
            (s("A-1"), GitHubIssueValidation::Cached),
            (s("B-2"), GitHubIssueValidation::Remote),
            (s("C-3"), GitHubIssueValidation::Missing),
        ]
    );
    assert_eq!(cache, vec![s("A-1"), s("B-2")]);
    let mut validations = Vec::new();
    record_lookups(&mut validations, &mut cache, &[s("B-2")], &[Some(s("B-2"))]);
    assert_eq!(cache, vec![s("A-1"), s("B-2")]);
    assert_eq!(validations, vec![(s("B-2"), GitHubIssueValidation::Remote)]);
}

#[test]
fn a_pushed_worklog_remembers_its_jira_id() {
    let mut w = LocalWorklogEntry {
        id: s("l1"),
        issue_id: s("100"),
        day: 3,
        seconds: 1800,
        worklog_id: None,
        status: LocalWorklogState::Staged,
    };
    apply_push_outcome(&mut w, &PushOutcome::Rejected);
    assert_eq!(w.status, LocalWorklogState::Staged);
    assert_eq!(w.worklog_id, None);
    apply_push_outcome(&mut w, &PushOutcome::Pushed(s("10042")));
    assert_eq!(w.status, LocalWorklogState::Pushed);
    assert_eq!(w.worklog_id, Some(s("10042")));
    assert_eq!((w.day, w.seconds), (3, 1800));
}
