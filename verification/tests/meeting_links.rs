use wtf_cli::meeting_links::{
    auto_link_key, auto_link_meetings, order_issues_for_linking, plan_meeting_link, potential_issue_keys, MeetingLinkStep,
    MeetingText,
};
use wtf_cli::search::IssueEntry;

fn s(x: &str) -> String {
    x.to_string()
}

fn issue(key: &str) -> IssueEntry {
    IssueEntry { key: s(key), summary: format!("Summary of {}", key) }
}

fn keys(issues: &[IssueEntry]) -> Vec<String> {
    issues.iter().map(|i| i.key.clone()).collect()
}

#[test]
fn mentioned_keys_are_upper_cased_sorted_and_unique() {
    let found = potential_issue_keys(&Some(s("Sync on proj-12 and PROJ-12")), &Some(s("see ABC-3; x-1 is too short")));
    assert_eq!(found, vec![s("ABC-3"), s("PROJ-12")]);
}

#[test]
fn a_mention_must_be_a_whole_word() {
    assert!(potential_issue_keys(&Some(s("PROJ-12abc")), &None).is_empty());
    assert!(potential_issue_keys(&None, &None).is_empty());
}

#[test]
fn the_first_named_key_is_linked_when_known() {
    let known = vec![s("ABC-1")];
    assert_eq!(auto_link_key(&Some(s("Meeting ABC-1")), &Some(s("XYZ-2")), &known), Some(s("ABC-1")));
    let other = vec![s("XYZ-2")];
    assert_eq!(auto_link_key(&Some(s("Meeting ABC-1")), &Some(s("XYZ-2")), &other), None);
    assert_eq!(auto_link_key(&None, &Some(s("about XYZ-2")), &other), Some(s("XYZ-2")));
    assert_eq!(auto_link_key(&Some(s("lower abc-1")), &None, &known), None);
}

#[test]
fn key_digits_are_unicode_digits() {
    let known = vec![s("ABC-\u{0661}\u{0662}")];
    assert_eq!(auto_link_key(&Some(s("ABC-\u{0661}\u{0662} review")), &None, &known), Some(s("ABC-\u{0661}\u{0662}")));
}

#[test]
fn only_unlinked_meetings_are_auto_linked() {
    let known = vec![s("ABC-1")];
    let meetings = vec![
        MeetingText { jira_link: None, title: Some(s("ABC-1 planning")), description: None },
        MeetingText { jira_link: Some(s("OLD-9")), title: Some(s("ABC-1 planning")), description: None },
        MeetingText { jira_link: None, title: Some(s("Lunch")), description: None },
    ];
    assert_eq!(auto_link_meetings(&meetings, &known), vec![Some(s("ABC-1")), None, None]);
}

#[test]
fn issues_are_ordered_mentioned_then_used_then_by_key() {
    let issues = vec![issue("D-1"), issue("B-1"), issue("A-1"), issue("C-1"), issue("E-1")];
    let found = vec![s("C-1")];
    let links = vec![Some(s("A-1")), Some(s("A-1")), Some(s("B-1")), None, Some(s("C-1"))];
    let ordered = order_issues_for_linking(issues, &found, &links);
    assert_eq!(keys(&ordered), vec![s("C-1"), s("A-1"), s("B-1"), s("D-1"), s("E-1")]);
}

#[test]
fn one_known_mention_links_at_once() {
    let step = plan_meeting_link(s("m1"), &Some(s("Review PROJ-7")), &None, &[s("PROJ-7")], vec![issue("PROJ-7")], &[]);
    assert!(matches!(step, MeetingLinkStep::AutoLink(k) if k == "PROJ-7"));
}

#[test]
fn otherwise_the_user_chooses() {
    let step = plan_meeting_link(
        s("m2"),
        &Some(s("Review PROJ-7 and PROJ-8")),
        &None,
        &[s("PROJ-7"), s("PROJ-8")],
        vec![issue("ZED-1"), issue("PROJ-8"), issue("PROJ-7")],
        &[Some(s("ZED-1"))],
    );
    match step {
        MeetingLinkStep::Choose { found, selection } => {
            assert_eq!(found, vec![s("PROJ-7"), s("PROJ-8")]);
            assert_eq!(selection.meeting_id, "m2");
            assert_eq!(keys(&selection.all_issues), vec![s("PROJ-7"), s("PROJ-8"), s("ZED-1")]);
            assert_eq!(selection.selected_issue_index, 0);
            assert!(selection.search_query.is_empty());
        },
        _ => panic!("expected a choice"),
    }
    let none = plan_meeting_link(s("m3"), &Some(s("Lunch")), &None, &[], vec![], &[]);
    assert!(matches!(none, MeetingLinkStep::NoIssues));
    let unknown = plan_meeting_link(s("m4"), &Some(s("PROJ-9")), &None, &[], vec![issue("A-1")], &[]);
    assert!(matches!(unknown, MeetingLinkStep::Choose { .. }));
}
