use wtf_cli::keys::Key;
use wtf_cli::search::{
    filter_issues, filter_sprints, GapFillState, GapFillStep, IssueEntry, IssuePickStep,
    IssueSelectionState, SprintEntry, SprintFollowState, SprintFollowStep, sprint_suggestions, SprintChoice,
};
use chrono::{Datelike, NaiveDate};

fn issues() -> Vec<IssueEntry> {
    vec![
        IssueEntry { key: "PAT-11".to_string(), summary: "Fix login".to_string() },
        IssueEntry { key: "APP-7".to_string(), summary: "Patch the API".to_string() },
        IssueEntry { key: "WEB-3".to_string(), summary: "Landing page".to_string() },
    ]
}

#[test]
fn issue_search_ignores_case_on_key_and_summary() {
    assert_eq!(filter_issues(&issues(), ""), vec![0, 1, 2]);
    assert_eq!(filter_issues(&issues(), "pat"), vec![0, 1]);
    assert_eq!(filter_issues(&issues(), "PAGE"), vec![2]);
    assert_eq!(filter_issues(&issues(), "zzz"), Vec::<usize>::new());
}

fn picker() -> IssueSelectionState {
    IssueSelectionState {
        meeting_id: "m1".to_string(),
        all_issues: issues(),
        selected_issue_index: 0,
        search_query: String::new(),
    }
}

#[test]
fn issue_picker_types_navigates_and_links() {
    let mut p = picker();
    assert_eq!(p.handle_key(Key::Down, false), (IssuePickStep::Nothing, None));
    assert_eq!(p.selected_issue_index, 1);
    assert_eq!(p.handle_key(Key::Char('w'), false), (IssuePickStep::Nothing, None));
    assert_eq!(p.search_query, "w");
    assert_eq!(p.selected_issue_index, 0);
    assert_eq!(p.handle_key(Key::Enter, false), (IssuePickStep::Link(2), None));
}

#[test]
fn issue_picker_moves_on_k_and_j() {
    let mut p = picker();
    p.selected_issue_index = 2;
    assert_eq!(p.handle_key(Key::Char('k'), false), (IssuePickStep::Nothing, None));
    assert_eq!(p.selected_issue_index, 1);
    assert_eq!(p.search_query, "");
    p.handle_key(Key::Char('k'), true);
    assert_eq!(p.selected_issue_index, 0);
    p.handle_key(Key::Char('k'), false);
    assert_eq!(p.selected_issue_index, 0);
    p.handle_key(Key::Char('j'), false);
    assert_eq!(p.selected_issue_index, 1);
    p.handle_key(Key::End, false);
    assert_eq!(p.selected_issue_index, 2);
    p.handle_key(Key::Char('j'), false);
    assert_eq!(p.selected_issue_index, 2);
    assert_eq!(p.search_query, "");
    p.handle_key(Key::Char('x'), true);
    assert_eq!((p.selected_issue_index, p.search_query.as_str()), (2, ""));
    p.handle_key(Key::Home, false);
    assert_eq!(p.selected_issue_index, 0);
}

#[test]
fn issue_picker_fetches_an_unknown_typed_key() {
    let mut p = picker();
    for c in "new-1".chars() {
        p.handle_key(Key::Char(c), false);
    }
    assert_eq!(p.handle_key(Key::Enter, false), (IssuePickStep::FetchTyped, Some("NEW-1".to_string())));
}

#[test]
fn issue_picker_escape_clears_then_closes() {
    let mut p = picker();
    p.handle_key(Key::Char('x'), false);
    assert_eq!(p.handle_key(Key::Esc, false).0, IssuePickStep::Nothing);
    assert_eq!(p.search_query, "");
    assert_eq!(p.handle_key(Key::Esc, false).0, IssuePickStep::Close);
    assert_eq!(p.handle_key(Key::Enter, false).0, IssuePickStep::Link(0));
    let mut empty = IssueSelectionState { all_issues: vec![], ..picker() };
    assert_eq!(empty.handle_key(Key::Enter, false).0, IssuePickStep::Close);
}

#[test]
fn gap_fill_picker_types_k_into_nothing_but_navigation() {
    let mut g = GapFillState { sprint_id: 3, all_issues: issues(), selected_issue_index: 0, search_query: String::new() };
    assert_eq!(g.handle_key(Key::Char('j')), GapFillStep::Nothing);
    assert_eq!(g.selected_issue_index, 1);
    assert_eq!(g.handle_key(Key::Char('A')), GapFillStep::Nothing);
    assert_eq!(g.search_query, "A");
    assert_eq!(g.handle_key(Key::Enter), GapFillStep::Fill(0));
    assert_eq!(g.handle_key(Key::Backspace), GapFillStep::Nothing);
    assert_eq!(g.search_query, "");
    assert_eq!(g.handle_key(Key::Esc), GapFillStep::Skip);
}

fn sprints() -> Vec<SprintEntry> {
    vec![
        SprintEntry { id: 101, name: "Sprint Alpha".to_string(), followed: false },
        SprintEntry { id: 205, name: "Sprint Beta".to_string(), followed: true },
    ]
}

#[test]
fn sprint_search_matches_names_and_ids() {
    assert_eq!(filter_sprints(&sprints(), "beta"), vec![1]);
    assert_eq!(filter_sprints(&sprints(), "10"), vec![0]);
    assert_eq!(filter_sprints(&sprints(), "sprint"), vec![0, 1]);
}

#[test]
fn sprint_follow_picker_toggles_and_records() {
    let mut s = SprintFollowState { all_sprints: sprints(), selected_index: 0, search_query: String::new() };
    assert_eq!(s.handle_key(Key::Char('a')), SprintFollowStep::Toggle(0));
    assert_eq!(s.handle_key(Key::Char('K')), SprintFollowStep::Nothing);
    assert_eq!(s.search_query, "");
    s.handle_key(Key::Char('2'));
    assert_eq!(s.search_query, "2");
    assert_eq!(s.handle_key(Key::Enter), SprintFollowStep::Toggle(1));
    s.record_follow(205, false);
    assert!(!s.all_sprints[1].followed);
    assert_eq!(s.handle_key(Key::Esc), SprintFollowStep::Nothing);
    assert_eq!(s.handle_key(Key::Esc), SprintFollowStep::Close);
}

#[test]
fn typing_then_erasing_restores_the_search() {
    let mut p = picker();
    p.handle_key(Key::Char('w'), false);
    p.handle_key(Key::Backspace, false);
    assert_eq!(p.search_query, "");
    assert_eq!(p.selected_issue_index, 0);
}

use wtf_cli::search::{board_suggestions, issue_suggestions, BoardEntry};

#[test]
fn issue_suggestions_show_the_first_ten_matches() {
    let many: Vec<IssueEntry> = (0..15)
        .map(|i| IssueEntry { key: format!("PAT-{}", i), summary: format!("Task {}", i) })
        .collect();
    let s = issue_suggestions(&many, "pat");
    assert_eq!(s.len(), 10);
    assert_eq!(s[0], "[PAT-0] Task 0");
    assert_eq!(s[9], "[PAT-9] Task 9");
    assert_eq!(issue_suggestions(&issues(), "login"), vec!["[PAT-11] Fix login"]);
}

#[test]
fn board_suggestions_match_names_and_ids() {
    let boards = vec![
        BoardEntry { id: 12, name: "Platform".to_string() },
        BoardEntry { id: 7, name: "Web".to_string() },
    ];
    assert_eq!(board_suggestions(&boards, ""), vec!["[12] Platform", "[7] Web"]);
    assert_eq!(board_suggestions(&boards, "WE"), vec!["[7] Web"]);
    assert_eq!(board_suggestions(&boards, "2"), vec!["[12] Platform"]);
}

#[test]
fn sprint_suggestions_show_their_dates() {
    let day = |y: i32, m: u32, d: u32| NaiveDate::from_ymd_opt(y, m, d).unwrap().num_days_from_ce();
    let sprints = vec![
        SprintChoice { id: 5, name: "Sprint 5".to_string(), start_day: Some(day(2024, 3, 4)), end_day: Some(day(2024, 3, 15)) },
        SprintChoice { id: 6, name: "Sprint 6".to_string(), start_day: Some(day(2024, 3, 18)), end_day: None },
        SprintChoice { id: 17, name: "Other".to_string(), start_day: None, end_day: None },
    ];
    assert_eq!(
        sprint_suggestions(&sprints, ""),
        vec!["[5] Sprint 5 (Mar 04 - Mar 15)".to_string(), "[6] Sprint 6".to_string(), "[17] Other".to_string()]
    );
    assert_eq!(sprint_suggestions(&sprints, "SPRINT 6"), vec!["[6] Sprint 6".to_string()]);
    assert_eq!(sprint_suggestions(&sprints, "7"), vec!["[17] Other".to_string()]);
}
