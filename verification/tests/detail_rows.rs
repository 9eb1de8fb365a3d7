use wtf_cli::descriptions::{attendee_rows, description_rows, link_rows};
use wtf_cli::github::{lookup_validation, resolve_validations, GitHubIssueValidation};
use wtf_cli::keys::Key;
use wtf_cli::meetings::{browse_url, duration_label};
use wtf_cli::search::{IssueEntry, IssuePickStep, IssueSelectionState};
use wtf_cli::wizard::{linking_markers, linking_row, step_mark, StepMark, WizardStepKind};

fn s(x: &str) -> String {
    x.to_string()
}

#[test]
fn duration_label_pads_minutes() {
    assert_eq!(duration_label(65), "1h 05m");
    assert_eq!(duration_label(30), "0h 30m");
    assert_eq!(duration_label(0), "0h 00m");
    assert_eq!(duration_label(600), "10h 00m");
}

#[test]
fn duration_label_of_negative_length_matches_rust_formatting() {
    assert_eq!(duration_label(-5), format!("{}h {:02}m", -5i64 / 60, -5i64 % 60));
    assert_eq!(duration_label(-125), format!("{}h {:02}m", -125i64 / 60, -125i64 % 60));
    assert_eq!(duration_label(i64::MIN), format!("{}h {:02}m", i64::MIN / 60, i64::MIN % 60));
}

#[test]
fn browse_url_drops_trailing_slashes() {
    assert_eq!(browse_url("https://x.atlassian.net/", "PROJ-1"), "https://x.atlassian.net/browse/PROJ-1");
    assert_eq!(browse_url("https://x.atlassian.net//", "A-2"), "https://x.atlassian.net/browse/A-2");
    assert_eq!(browse_url("https://x.atlassian.net", "A-2"), "https://x.atlassian.net/browse/A-2");
    assert_eq!(browse_url("", "A-2"), "/browse/A-2");
}

#[test]
fn linking_markers_count_hidden_meetings() {
    assert_eq!(linking_markers(5, 2), (None, None));
    assert_eq!(linking_markers(30, 0), (None, Some(s("  ▼ 20 more below"))));
    assert_eq!(linking_markers(30, 15), (Some(s("  ▲ 10 more above")), Some(s("  ▼ 10 more below"))));
    assert_eq!(linking_markers(30, 29), (Some(s("  ▲ 20 more above")), None));
}

#[test]
fn linking_row_cuts_long_titles() {
    assert_eq!(linking_row(&None), "  Untitled");
    assert_eq!(linking_row(&Some(s("Standup"))), "  Standup");
    let exact = "a".repeat(65);
    assert_eq!(linking_row(&Some(exact.clone())), format!("  {}", exact));
    let long = "b".repeat(70);
    assert_eq!(linking_row(&Some(long)), format!("  {}...", "b".repeat(62)));
}

#[test]
fn description_rows_keep_eight_lines() {
    let few: Vec<String> = vec![s("one"), s("two")];
    assert_eq!(description_rows(&few), vec![s("  one"), s("  two")]);
    let many: Vec<String> = (0..10).map(|i| format!("l{}", i)).collect();
    let rows = description_rows(&many);
    assert_eq!(rows.len(), 9);
    assert_eq!(rows[0], "  l0");
    assert_eq!(rows[7], "  l7");
    assert_eq!(rows[8], "  ... (truncated)");
}

#[test]
fn link_rows_show_three_links() {
    let segs = vec![
        (s("see "), None),
        (s("A-1"), Some(s("https://j/a1"))),
        (s(" and "), None),
        (s("A-2"), Some(s("https://j/a2"))),
    ];
    assert_eq!(
        link_rows(&segs),
        vec![s("    A-1"), s("    → https://j/a1"), s("    A-2"), s("    → https://j/a2")]
    );
    let many: Vec<(String, Option<String>)> =
        (0..5).map(|i| (format!("L{}", i), Some(format!("u{}", i)))).collect();
    let rows = link_rows(&many);
    assert_eq!(rows.len(), 7);
    assert_eq!(rows[4], "    L2");
    assert_eq!(rows[5], "    → u2");
    assert_eq!(rows[6], "    ... (2 more links)");
    assert!(link_rows(&[(s("plain"), None)]).is_empty());
}

#[test]
fn attendee_rows_fall_back_and_cap() {
    let a = vec![(Some(s("Ann")), Some(s("ann@x"))), (None, Some(s("bob@x"))), (None, None)];
    assert_eq!(attendee_rows(&a), vec![s("  • Ann"), s("  • bob@x"), s("  • Unknown")]);
    let many: Vec<(Option<String>, Option<String>)> = (0..12).map(|i| (Some(format!("p{}", i)), None)).collect();
    let rows = attendee_rows(&many);
    assert_eq!(rows.len(), 11);
    assert_eq!(rows[9], "  • p9");
    assert_eq!(rows[10], "  ... (2 more)");
}

#[test]
fn issue_picker_k_and_j_keep_the_search_text() {
    let issues = vec![
        IssueEntry { key: s("A-1"), summary: s("one") },
        IssueEntry { key: s("A-2"), summary: s("two") },
    ];
    let mut st = IssueSelectionState {
        meeting_id: s("m"),
        all_issues: issues,
        selected_issue_index: 0,
        search_query: s("a-"),
    };
    assert_eq!(st.handle_key(Key::Char('j'), false), (IssuePickStep::Nothing, None));
    assert_eq!(st.selected_issue_index, 1);
    assert_eq!(st.search_query, "a-");
    assert_eq!(st.handle_key(Key::Char('j'), false), (IssuePickStep::Nothing, None));
    assert_eq!(st.selected_issue_index, 1);
    assert_eq!(st.handle_key(Key::Char('k'), true), (IssuePickStep::Nothing, None));
    assert_eq!(st.selected_issue_index, 0);
    assert_eq!(st.search_query, "a-");
}

#[test]
fn resolved_validations_hold_each_key_once() {
    let keys = vec![s("A-1"), s("B-2"), s("C-3")];
    let mut cache = vec![s("A-1")];
    let v = resolve_validations(&keys, &mut cache, &[Some(s("B-2")), None]);
    for (i, (k, _)) in v.iter().enumerate() {
        for (j, (other, _)) in v.iter().enumerate() {
            if i != j {
                assert_ne!(k, other);
            }
        }
        assert_eq!(lookup_validation(&v, k), Some(v[i].1));
    }
    assert_eq!(lookup_validation(&v, "C-3"), Some(GitHubIssueValidation::Missing));
}

#[test]
fn step_mark_reads_the_reason_of_its_step() {
    let completed = vec![1, 2];
    let reasons = vec![(1, s("nothing to link")), (2, s("no sessions"))];
    match step_mark(2, &completed, &reasons, WizardStepKind::FillingGaps) {
        StepMark::Skipped(r) => assert_eq!(r, "no sessions"),
        _ => panic!("step two was skipped"),
    }
}
