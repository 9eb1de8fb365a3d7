use wtf_cli::keys::Key;
use wtf_cli::tab_keys::{github_tab_key, meetings_tab_key, visible_meetings, GitHubTabAction, MeetingRow, MeetingsTabAction};

#[test]
fn github_tab_syncs_creates_and_navigates() {
    let mut selected = 0;
    assert_eq!(github_tab_key(0, &mut selected, Key::Char('u')), GitHubTabAction::Sync);
    assert_eq!(github_tab_key(0, &mut selected, Key::Char('c')), GitHubTabAction::Nothing);
    assert_eq!(github_tab_key(3, &mut selected, Key::Char('C')), GitHubTabAction::CreateWorklog);
    assert_eq!(github_tab_key(3, &mut selected, Key::Down), GitHubTabAction::Nothing);
    assert_eq!(selected, 1);
    selected = 9;
    github_tab_key(3, &mut selected, Key::Char('z'));
    assert_eq!(selected, 2);
    github_tab_key(30, &mut selected, Key::PageDown);
    assert_eq!(selected, 12);
    github_tab_key(30, &mut selected, Key::PageUp);
    assert_eq!(selected, 2);
    selected = 25;
    github_tab_key(30, &mut selected, Key::PageDown);
    assert_eq!(selected, 29);
}

fn meeting(id: &str, start: i64, title: Option<&str>, link: Option<&str>) -> MeetingRow {
    MeetingRow {
        id: id.to_string(),
        start,
        title: title.map(|t| t.to_string()),
        jira_link: link.map(|l| l.to_string()),
        declined: false,
        untracked: false,
    }
}

fn meetings() -> Vec<MeetingRow> {
    vec![
        meeting("m0", 100, Some("Standup"), Some("PAT-1")),
        meeting("m1", 300, Some("Planning"), None),
        meeting("m2", 200, Some("Retro"), None),
        MeetingRow { declined: true, ..meeting("m3", 400, Some("Offsite"), None) },
        meeting("m4", 300, None, None),
    ]
}

#[test]
fn meetings_are_listed_latest_first_and_filtered() {
    let m = meetings();
    assert_eq!(visible_meetings(&m, false, ""), vec![3, 1, 4, 2, 0]);
    assert_eq!(visible_meetings(&m, true, ""), vec![1, 4, 2]);
    assert_eq!(visible_meetings(&m, false, "pat"), vec![0]);
    assert_eq!(visible_meetings(&m, false, "RE"), vec![2]);
}

#[test]
fn meetings_tab_search_mode_edits_the_query() {
    let m = meetings();
    let mut selected = 2;
    let mut searching = false;
    let mut query = String::new();
    let mut unlinked = false;
    meetings_tab_key(&m, &mut selected, &mut searching, &mut query, &mut unlinked, Key::Char('/'));
    assert!(searching);
    meetings_tab_key(&m, &mut selected, &mut searching, &mut query, &mut unlinked, Key::Char('r'));
    assert_eq!(query, "r");
    assert_eq!(selected, 0);
    meetings_tab_key(&m, &mut selected, &mut searching, &mut query, &mut unlinked, Key::Enter);
    assert!(!searching);
    assert_eq!(query, "r");
    let a = meetings_tab_key(&m, &mut selected, &mut searching, &mut query, &mut unlinked, Key::Esc);
    assert_eq!(a, MeetingsTabAction::Nothing);
    assert_eq!(query, "");
}

#[test]
fn meetings_tab_actions_name_the_selected_meeting() {
    let m = meetings();
    let mut selected = 0;
    let mut searching = false;
    let mut query = String::new();
    let mut unlinked = false;
    let mut key = |k: Key, sel: &mut usize, un: &mut bool| meetings_tab_key(&m, sel, &mut searching, &mut query, un, k);
    assert_eq!(key(Key::Enter, &mut selected, &mut unlinked), MeetingsTabAction::Link(3));
    assert_eq!(key(Key::Char('x'), &mut selected, &mut unlinked), MeetingsTabAction::ToggleUntracked(3));
    assert_eq!(key(Key::Delete, &mut selected, &mut unlinked), MeetingsTabAction::Nothing);
    selected = 4;
    assert_eq!(key(Key::Backspace, &mut selected, &mut unlinked), MeetingsTabAction::ConfirmUnlink(0));
    assert_eq!(key(Key::Char('R'), &mut selected, &mut unlinked), MeetingsTabAction::Refresh);
    assert_eq!(key(Key::Char('u'), &mut selected, &mut unlinked), MeetingsTabAction::CheckUpdate);
    assert_eq!(key(Key::Char('a'), &mut selected, &mut unlinked), MeetingsTabAction::AutoLink);
    assert_eq!(key(Key::Char('L'), &mut selected, &mut unlinked), MeetingsTabAction::LogMeetings);
    assert_eq!(key(Key::Char('f'), &mut selected, &mut unlinked), MeetingsTabAction::Nothing);
    assert!(unlinked);
    assert_eq!(selected, 0);
    assert_eq!(key(Key::End, &mut selected, &mut unlinked), MeetingsTabAction::Nothing);
    assert_eq!(selected, 2);
}

#[test]
fn leaving_the_search_restores_the_list() {
    let m = meetings();
    let mut selected = 3;
    let mut searching = false;
    let mut query = String::new();
    let mut unlinked = false;
    for k in [Key::Char('/'), Key::Char('x'), Key::Esc] {
        meetings_tab_key(&m, &mut selected, &mut searching, &mut query, &mut unlinked, k);
    }
    assert!(!searching);
    assert_eq!(query, "");
    assert_eq!(selected, 0);
}
