use wtf_cli::activity::{LocalWorklogEntry, LocalWorklogState};
use wtf_cli::worklogs::{parse_push_progress, progress_line, push_summary, staged_worklogs, PushOutcome, PushRun};

fn local(id: &str, status: LocalWorklogState) -> LocalWorklogEntry {
    LocalWorklogEntry {
        id: id.to_string(),
        issue_id: "PAT-1".to_string(),
        day: 0,
        seconds: 3600,
        worklog_id: None,
        status,
    }
}

#[test]
fn only_staged_worklogs_are_pushed() {
    let all = vec![
        local("a", LocalWorklogState::Created),
        local("b", LocalWorklogState::Staged),
        local("c", LocalWorklogState::Pushed),
        local("d", LocalWorklogState::Staged),
    ];
    assert_eq!(staged_worklogs(&all), vec![1, 3]);
}

#[test]
fn nothing_staged_means_no_push() {
    assert!(PushRun::start(0).is_none());
}

#[test]
fn each_worklog_is_counted_once() {
    let mut run = PushRun::start(3).unwrap();
    assert_eq!(run.record(&PushOutcome::Pushed("10001".to_string())), 1);
    assert_eq!(run.record(&PushOutcome::Rejected), 2);
    assert!(!run.is_finished());
    assert_eq!(run.record(&PushOutcome::Failed("timeout".to_string())), 3);
    assert!(run.is_finished());
    assert_eq!((run.succeeded, run.failed), (1, 2));
    assert_eq!(push_summary(&run), "✅ Pushed 1 worklogs (2 errors)");
}

#[test]
fn progress_lines() {
    assert_eq!(progress_line(1, 3, "PAT-1", &PushOutcome::Pushed("9".to_string()), "1.5"), "✅ [1/3] Pushed PAT-1 (1.5h)");
    assert_eq!(progress_line(2, 3, "PAT-2", &PushOutcome::Rejected, "0.5"), "❌ [2/3] Failed PAT-2");
    assert_eq!(
        progress_line(12, 30, "PAT-3", &PushOutcome::Failed("HTTP 500".to_string()), "2.0"),
        "❌ [12/30] Error PAT-3: HTTP 500"
    );
}

#[test]
fn progress_is_read_back_from_progress_lines() {
    let line = progress_line(7, 12, "PAT-9", &PushOutcome::Rejected, "0.2");
    assert_eq!(parse_push_progress(&line), Some((7, 12)));
    assert_eq!(parse_push_progress("✅ [1/3] Pushed PAT-1 (1.5h)"), Some((1, 3)));
    assert_eq!(parse_push_progress("[ 2 / 5 ] done"), Some((2, 5)));
    assert_eq!(parse_push_progress("[+2/5]"), Some((2, 5)));
    assert_eq!(parse_push_progress("[2-5]"), None);
    assert_eq!(parse_push_progress("[x/5]"), None);
    assert_eq!(parse_push_progress("[-1/5]"), None);
    assert_eq!(parse_push_progress("[/5]"), None);
    assert_eq!(parse_push_progress("no counter here"), None);
    assert_eq!(parse_push_progress("[1/99999999999999999999999]"), None);
}
