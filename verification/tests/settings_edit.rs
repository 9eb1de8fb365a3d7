use wtf_cli::dashboard::TabUiState;
use wtf_cli::meetings::StringMap;
use wtf_cli::settings::{apply_field_edit, apply_settings_field_edit, get_field_value, GoogleSettings, SettingsConfig};

fn palette() -> Vec<String> {
    [
        "Lavender", "Sage", "Grape", "Flamingo", "Banana", "Tangerine", "Peacock", "Graphite", "Blueberry", "Basil",
        "Tomato",
    ]
    .iter()
    .map(|s| s.to_string())
    .collect()
}

fn config() -> SettingsConfig {
    SettingsConfig {
        jira_base_url: "https://jira.example.com".to_string(),
        jira_username: "me".to_string(),
        jira_api_token: "SECRET-REDACTED".to_string(),
        auto_follow_sprint_pattern: None,
        github_organisation: Some("acme".to_string()),
        google: None,
    }
}

fn shown(c: &SettingsConfig, i: usize) -> Option<String> {
    get_field_value(i, c)
}

#[test]
fn fields_show_their_values() {
    let c = config();
    assert_eq!(shown(&c, 0), Some("https://jira.example.com".to_string()));
    assert_eq!(shown(&c, 1), Some("me".to_string()));
    assert_eq!(shown(&c, 3), Some(String::new()));
    assert_eq!(shown(&c, 4), Some("acme".to_string()));
    assert_eq!(shown(&c, 5), Some(String::new()));
    assert_eq!(shown(&c, 7), None);
    assert_eq!(shown(&c, 12), Some(String::new()));
}

#[test]
fn an_edited_field_reads_back_and_others_stay() {
    let p = palette();
    for i in 0..7usize {
        let mut c = config();
        let before: Vec<Option<String>> = (0..8).map(|j| shown(&c, j)).collect();
        apply_field_edit(&mut c, i, "new value".to_string(), &p);
        assert_eq!(shown(&c, i), Some("new value".to_string()));
        for j in 0..8usize {
            if j != i {
                assert_eq!(shown(&c, j), before[j]);
            }
        }
    }
}

#[test]
fn empty_text_unsets_optional_fields() {
    let p = palette();
    let mut c = config();
    apply_field_edit(&mut c, 4, String::new(), &p);
    assert_eq!(c.github_organisation, None);
    apply_field_edit(&mut c, 3, "Team .*".to_string(), &p);
    assert_eq!(c.auto_follow_sprint_pattern, Some("Team .*".to_string()));
    apply_field_edit(&mut c, 5, String::new(), &p);
    assert!(c.google.is_none());
}

#[test]
fn a_google_path_creates_the_google_settings() {
    let p = palette();
    let mut c = config();
    apply_field_edit(&mut c, 6, "/tmp/token.json".to_string(), &p);
    let g = c.google.as_ref().unwrap();
    assert_eq!(g.token_cache_path, "/tmp/token.json");
    assert_eq!(g.credentials_path, "");
}

#[test]
fn colour_fields_label_and_unlabel_colours() {
    let p = palette();
    let mut c = config();
    apply_field_edit(&mut c, 9, "PROJ-1".to_string(), &p);
    assert!(c.google.is_none());
    c.google = Some(GoogleSettings {
        credentials_path: "creds.json".to_string(),
        token_cache_path: "token.json".to_string(),
        color_labels: StringMap::new(),
    });
    apply_field_edit(&mut c, 9, "PROJ-1".to_string(), &p);
    assert_eq!(c.google.as_ref().unwrap().color_labels.get("Sage"), Some("PROJ-1".to_string()));
    apply_field_edit(&mut c, 9, String::new(), &p);
    assert_eq!(c.google.as_ref().unwrap().color_labels.get("Sage"), None);
}

#[test]
fn finishing_an_edit_closes_the_editor() {
    let p = palette();
    let mut c = config();
    let mut ui = TabUiState::default();
    ui.settings_selected_field = 1;
    ui.settings_editing = true;
    ui.settings_input_buffer = "someone".to_string();
    apply_settings_field_edit(&mut c, &mut ui, &p);
    assert_eq!(c.jira_username, "someone");
    assert!(!ui.settings_editing);
    assert!(ui.settings_input_buffer.is_empty());
    assert!(ui.settings_dirty);
    assert_eq!(ui.settings_selected_field, 1);
}
