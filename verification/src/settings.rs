use vstd::prelude::*;
use crate::dashboard::TabUiState;
use crate::meetings::StringMap;

verus! {

/// The Google part of the settings.
pub struct GoogleSettings {
    pub credentials_path: String,
    pub token_cache_path: String,
    /// Labels given to calendar colours, by colour name.
    pub color_labels: StringMap,
}

/// The settings that the Settings tab shows and edits. The daily-hours
/// limit, a float, is kept and edited by the caller.
pub struct SettingsConfig {
    pub jira_base_url: String,
    pub jira_username: String,
    pub jira_api_token: String,
    pub auto_follow_sprint_pattern: Option<String>,
    pub github_organisation: Option<String>,
    pub google: Option<GoogleSettings>,
}

/// What the Google settings hold.
#[verifier::ext_equal]
pub struct GoogleSettingsView {
    pub credentials_path: Seq<char>,
    pub token_cache_path: Seq<char>,
    pub color_labels: Map<Seq<char>, Seq<char>>,
}

/// What the settings hold.
#[verifier::ext_equal]
pub struct SettingsView {
    pub jira_base_url: Seq<char>,
    pub jira_username: Seq<char>,
    pub jira_api_token: Seq<char>,
    pub auto_follow_sprint_pattern: Option<Seq<char>>,
    pub github_organisation: Option<Seq<char>>,
    pub google: Option<GoogleSettingsView>,
}

pub open spec fn opt_view(o: Option<String>) -> Option<Seq<char>> {
    match o {
        Some(s) => Some(s@),
        None => None,
    }
}

impl GoogleSettings {
    pub open spec fn view(&self) -> GoogleSettingsView {
        GoogleSettingsView {
            credentials_path: self.credentials_path@,
            token_cache_path: self.token_cache_path@,
            color_labels: self.color_labels.view(),
        }
    }
}

impl SettingsConfig {
    pub open spec fn view(&self) -> SettingsView {
        SettingsView {
            jira_base_url: self.jira_base_url@,
            jira_username: self.jira_username@,
            jira_api_token: self.jira_api_token@,
            auto_follow_sprint_pattern: opt_view(self.auto_follow_sprint_pattern),
            github_organisation: opt_view(self.github_organisation),
            google: match self.google {
                Some(g) => Some(g.view()),
                None => None,
            },
        }
    }

    /// The colour labels, where there are any, keep their keys distinct.
    pub open spec fn wf(&self) -> bool {
        self.google matches Some(g) ==> g.color_labels.wf()
    }
}

/// The text of an optional setting: empty where it is unset.
pub open spec fn text_or_empty(o: Option<Seq<char>>) -> Seq<char> {
    match o {
        Some(s) => s,
        None => Seq::empty(),
    }
}

/// An optional setting set from typed text: unset by empty text.
pub open spec fn unset_if_empty(value: Seq<char>) -> Option<Seq<char>> {
    if value.len() == 0 {
        None
    } else {
        Some(value)
    }
}

/// What field `field_idx` of the Settings tab shows: `None` for the
/// daily-hours limit, which the caller formats; empty text past the fields.
pub open spec fn spec_field_value(c: SettingsView, field_idx: int) -> Option<Seq<char>> {
    if field_idx == 0 {
        Some(c.jira_base_url)
    } else if field_idx == 1 {
        Some(c.jira_username)
    } else if field_idx == 2 {
        Some(c.jira_api_token)
    } else if field_idx == 3 {
        Some(text_or_empty(c.auto_follow_sprint_pattern))
    } else if field_idx == 4 {
        Some(text_or_empty(c.github_organisation))
    } else if field_idx == 5 {
        Some(
            match c.google {
                Some(g) => g.credentials_path,
                None => Seq::empty(),
            },
        )
    } else if field_idx == 6 {
        Some(
            match c.google {
                Some(g) => g.token_cache_path,
                None => Seq::empty(),
            },
        )
    } else if field_idx == 7 {
        None
    } else {
        Some(Seq::empty())
    }
}

/// Whether `field_idx` is one of the calendar-colour label fields.
pub open spec fn is_color_field(field_idx: int) -> bool {
    8 <= field_idx <= 18
}

/// The settings after field `field_idx` was set to `value`; a colour field
/// edits the label of `color_name`. The daily-hours field, and numbers past
/// the fields, change nothing here.
pub open spec fn spec_edit(c: SettingsView, field_idx: int, value: Seq<char>, color_name: Seq<char>) -> SettingsView {
    if field_idx == 0 {
        SettingsView { jira_base_url: value, ..c }
    } else if field_idx == 1 {
        SettingsView { jira_username: value, ..c }
    } else if field_idx == 2 {
        SettingsView { jira_api_token: value, ..c }
    } else if field_idx == 3 {
        SettingsView { auto_follow_sprint_pattern: unset_if_empty(value), ..c }
    } else if field_idx == 4 {
        SettingsView { github_organisation: unset_if_empty(value), ..c }
    } else if field_idx == 5 {
        match c.google {
            Some(g) => SettingsView { google: Some(GoogleSettingsView { credentials_path: value, ..g }), ..c },
            None => if value.len() == 0 {
                c
            } else {
                SettingsView {
                    google: Some(
                        GoogleSettingsView {
                            credentials_path: value,
                            token_cache_path: Seq::empty(),
                            color_labels: Map::empty(),
                        },
                    ),
                    ..c
                }
            },
        }
    } else if field_idx == 6 {
        match c.google {
            Some(g) => SettingsView { google: Some(GoogleSettingsView { token_cache_path: value, ..g }), ..c },
            None => if value.len() == 0 {
                c
            } else {
                SettingsView {
                    google: Some(
                        GoogleSettingsView {
                            credentials_path: Seq::empty(),
                            token_cache_path: value,
                            color_labels: Map::empty(),
                        },
                    ),
                    ..c
                }
            },
        }
    } else if is_color_field(field_idx) {
        match c.google {
            Some(g) => SettingsView {
                google: Some(
                    GoogleSettingsView {
                        color_labels: if value.len() == 0 {
                            g.color_labels.remove(color_name)
                        } else {
                            g.color_labels.insert(color_name, value)
                        },
                        ..g
                    },
                ),
                ..c
            },
            None => c,
        }
    } else {
        c
    }
}

fn copy_opt(o: &Option<String>) -> (r: String)
    ensures
        r@ == text_or_empty(opt_view(*o)),
{
    match o {
        Some(s) => s.clone(),
        None => String::new(),
    }
}

/// The text that field `field_idx` of the Settings tab shows.
pub fn get_field_value(field_idx: usize, config: &SettingsConfig) -> (r: Option<String>)
    ensures
        opt_view(r) == spec_field_value(config@, field_idx as int),
{
    if field_idx == 0 {
        Some(config.jira_base_url.clone())
    } else if field_idx == 1 {
        Some(config.jira_username.clone())
    } else if field_idx == 2 {
        Some(config.jira_api_token.clone())
    } else if field_idx == 3 {
        Some(copy_opt(&config.auto_follow_sprint_pattern))
    } else if field_idx == 4 {
        Some(copy_opt(&config.github_organisation))
    } else if field_idx == 5 {
        match &config.google {
            Some(g) => Some(g.credentials_path.clone()),
            None => Some(String::new()),
        }
    } else if field_idx == 6 {
        match &config.google {
            Some(g) => Some(g.token_cache_path.clone()),
            None => Some(String::new()),
        }
    } else if field_idx == 7 {
        None
    } else {
        Some(String::new())
    }
}

fn opt_if_nonempty(value: String) -> (r: Option<String>)
    ensures
        opt_view(r) == unset_if_empty(value@),
{
    if value.as_str().is_empty() {
        None
    } else {
        Some(value)
    }
}

/// Sets field `field_idx` to `value`. `palette` names the calendar colours
/// in the order of the colour fields.
pub fn apply_field_edit(config: &mut SettingsConfig, field_idx: usize, value: String, palette: &[String])
    requires
        old(config).wf(),
        is_color_field(field_idx as int) ==> field_idx - 8 < palette.len(),
    ensures
        final(config).wf(),
        final(config)@ == spec_edit(
            old(config)@,
            field_idx as int,
            value@,
            if is_color_field(field_idx as int) {
                palette@[field_idx - 8]@
            } else {
                Seq::empty()
            },
        ),
{
    if field_idx == 0 {
        config.jira_base_url = value;
    } else if field_idx == 1 {
        config.jira_username = value;
    } else if field_idx == 2 {
        config.jira_api_token = value;
    } else if field_idx == 3 {
        config.auto_follow_sprint_pattern = opt_if_nonempty(value);
    } else if field_idx == 4 {
        config.github_organisation = opt_if_nonempty(value);
    } else if field_idx == 5 {
        match &mut config.google {
            Some(g) => {
                g.credentials_path = value;
            },
            None => {
                if !value.as_str().is_empty() {
                    config.google = Some(
                        GoogleSettings {
                            credentials_path: value,
                            token_cache_path: String::new(),
                            color_labels: StringMap::new(),
                        },
                    );
                }
            },
        }
    } else if field_idx == 6 {
        match &mut config.google {
            Some(g) => {
                g.token_cache_path = value;
            },
            None => {
                if !value.as_str().is_empty() {
                    config.google = Some(
                        GoogleSettings {
                            credentials_path: String::new(),
                            token_cache_path: value,
                            color_labels: StringMap::new(),
                        },
                    );
                }
            },
        }
    } else if 8 <= field_idx && field_idx <= 18 {
        let color_name = palette[field_idx - 8].clone();
        match &mut config.google {
            Some(g) => {
                if value.as_str().is_empty() {
                    g.color_labels.remove(color_name.as_str());
                } else {
                    g.color_labels.insert(color_name, value);
                }
            },
            None => {},
        }
    }
    proof {
        assert(config@ =~~= spec_edit(
            old(config)@,
            field_idx as int,
            value@,
            if is_color_field(field_idx as int) {
                palette@[field_idx - 8]@
            } else {
                Seq::empty()
            },
        ));
    }
}

/// Ends an edit in the Settings tab: the typed text goes into the selected
/// field, the editor closes and empties, and the settings become unsaved.
pub fn apply_settings_field_edit(config: &mut SettingsConfig, ui_state: &mut TabUiState, palette: &[String])
    requires
        old(config).wf(),
        is_color_field(old(ui_state).settings_selected_field as int) ==> old(ui_state).settings_selected_field - 8 < palette.len(),
    ensures
        final(config).wf(),
        final(config)@ == spec_edit(
            old(config)@,
            old(ui_state).settings_selected_field as int,
            old(ui_state).settings_input_buffer@,
            if is_color_field(old(ui_state).settings_selected_field as int) {
                palette@[old(ui_state).settings_selected_field - 8]@
            } else {
                Seq::empty()
            },
        ),
        !final(ui_state).settings_editing,
        final(ui_state).settings_input_buffer@.len() == 0,
        final(ui_state).settings_dirty,
        final(ui_state).settings_selected_field == old(ui_state).settings_selected_field,
        final(ui_state).settings_show_sensitive == old(ui_state).settings_show_sensitive,
        final(ui_state).settings_status == old(ui_state).settings_status,
        final(ui_state).selected_sprint_index == old(ui_state).selected_sprint_index,
        final(ui_state).selected_meeting_index == old(ui_state).selected_meeting_index,
        final(ui_state).selected_worklog_index == old(ui_state).selected_worklog_index,
        final(ui_state).selected_github_session_index == old(ui_state).selected_github_session_index,
        final(ui_state).selected_history_index == old(ui_state).selected_history_index,
        final(ui_state).meeting_search_active == old(ui_state).meeting_search_active,
        final(ui_state).meeting_search_query == old(ui_state).meeting_search_query,
        final(ui_state).expanded_history_ids == old(ui_state).expanded_history_ids,
        final(ui_state).filter_unlinked_only == old(ui_state).filter_unlinked_only,
        final(ui_state).filter_staged_only == old(ui_state).filter_staged_only,
        final(ui_state).achievements_scroll_offset == old(ui_state).achievements_scroll_offset,
        final(ui_state).settings_color_issue_titles == old(ui_state).settings_color_issue_titles,
{
    let field_idx = ui_state.settings_selected_field;
    let value = ui_state.settings_input_buffer.clone();
    apply_field_edit(config, field_idx, value, palette);
    ui_state.settings_editing = false;
    ui_state.settings_input_buffer = String::new();
    ui_state.settings_dirty = true;
}

/// After a field among the first seven (all but the daily-hours limit) is
/// set to some text, the field shows that text.
pub proof fn law_edit_reads_back(c: SettingsView, field_idx: int, value: Seq<char>, color_name: Seq<char>)
    requires
        0 <= field_idx <= 6,
    ensures
        spec_field_value(spec_edit(c, field_idx, value, color_name), field_idx) == Some(value),
{
}

/// Setting one field leaves what every other field shows as it was.
pub proof fn law_edit_keeps_other_fields(
    c: SettingsView,
    field_idx: int,
    other: int,
    value: Seq<char>,
    color_name: Seq<char>,
)
    requires
        other != field_idx,
    ensures
        spec_field_value(spec_edit(c, field_idx, value, color_name), other) == spec_field_value(c, other),
{
}

/// Where the Google settings exist, a colour field set to some text labels
/// its colour with that text, and set to empty text removes the label.
pub proof fn law_color_label_edit(c: SettingsView, field_idx: int, value: Seq<char>, color_name: Seq<char>)
    requires
        is_color_field(field_idx),
        c.google is Some,
    ensures
        spec_edit(c, field_idx, value, color_name).google is Some,
        value.len() > 0 ==> spec_edit(c, field_idx, value, color_name).google->0.color_labels.dom().contains(color_name)
            && spec_edit(c, field_idx, value, color_name).google->0.color_labels[color_name] == value,
        value.len() == 0 ==> !spec_edit(c, field_idx, value, color_name).google->0.color_labels.dom().contains(color_name),
{
}

/// The auto-follow sprint pattern (field 3) and the GitHub organisation
/// (field 4) are optional: setting either to empty text unsets it, and any
/// other text sets it to exactly that text; nothing else changes.
pub proof fn law_empty_text_unsets_optional_field(
    c: SettingsView,
    field_idx: int,
    value: Seq<char>,
    color_name: Seq<char>,
)
    requires
        field_idx == 3 || field_idx == 4,
    ensures
        ({
            let after = spec_edit(c, field_idx, value, color_name);
            let field = if field_idx == 3 { after.auto_follow_sprint_pattern } else { after.github_organisation };
            &&& (field is None <==> value.len() == 0)
            &&& (value.len() > 0 ==> field == Some(value))
            &&& after.jira_base_url == c.jira_base_url
            &&& after.jira_username == c.jira_username
            &&& after.jira_api_token == c.jira_api_token
            &&& after.google == c.google
            &&& field_idx == 3 ==> after.github_organisation == c.github_organisation
            &&& field_idx == 4 ==> after.auto_follow_sprint_pattern == c.auto_follow_sprint_pattern
        }),
{
}

} // verus!
