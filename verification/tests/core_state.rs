use chrono::{Datelike, NaiveDate};
use wtf_cli::achievements::{
    candidates_from, check_push_candidates, required_for_chronie, run_push_checks, Achievement,
    AchievementEvent, AchievementTracker, MeetingFacts, PushChecks, PushContext, PushedWorklog, WizardProgress,
};
use wtf_cli::keys::{
    key_token, scroll_achievements, shown_achievements_count, AchievementEntry, Key, KeySequenceBuffer,
};
use wtf_cli::logger::{debug, CollectingLogger, Logger};
use wtf_cli::tabs::Tab;
use wtf_cli::text::{format_repo_summary, truncate_string, truncate_text};

#[test]
fn tabs_cycle_through_the_available_ones() {
    assert_eq!(Tab::available_tabs(false).len(), 6);
    assert_eq!(Tab::available_tabs(true).last(), Some(&Tab::Achievements));
    assert_eq!(Tab::Settings.next(false), Tab::Sprints);
    assert_eq!(Tab::Settings.next(true), Tab::Achievements);
    assert_eq!(Tab::Achievements.next(true), Tab::Sprints);
    assert_eq!(Tab::Sprints.previous(true), Tab::Achievements);
    assert_eq!(Tab::Achievements.next(false), Tab::Meetings);
    assert_eq!(Tab::Meetings.previous(false).next(false), Tab::Meetings);
}

#[test]
fn achievements_scroll_within_the_list() {
    assert_eq!(scroll_achievements(Key::Left, 0, 5), 0);
    assert_eq!(scroll_achievements(Key::Right, 3, 5), 4);
    assert_eq!(scroll_achievements(Key::PageDown, 4, 5), 4);
    assert_eq!(scroll_achievements(Key::End, 1, 5), 4);
    assert_eq!(scroll_achievements(Key::End, 1, 0), 0);
    assert_eq!(scroll_achievements(Key::Home, 3, 5), 0);
    let entries = [
        AchievementEntry { is_secret: false, is_unlocked: false },
        AchievementEntry { is_secret: true, is_unlocked: false },
        AchievementEntry { is_secret: true, is_unlocked: true },
    ];
    assert_eq!(shown_achievements_count(&entries, 4), 6);
}

#[test]
fn key_sequences_are_tracked_lowercased() {
    assert_eq!(key_token(Key::Char('C')), Some("c".to_string()));
    assert_eq!(key_token(Key::Up), Some("up".to_string()));
    assert_eq!(key_token(Key::Enter), None);
    let mut buffer = KeySequenceBuffer::new();
    for k in [Key::Up, Key::Up, Key::Char('C'), Key::Char('h'), Key::Enter] {
        buffer.track_key(k);
    }
    assert_eq!(buffer.len(), 4);
    let seq = vec!["c".to_string(), "h".to_string()];
    assert!(buffer.matches_sequence(&seq));
    assert_eq!(buffer.first_matching_sequence(&[vec!["x".to_string()], seq.clone()]), Some(1));
    for _ in 0..30 {
        buffer.track_key_str("x".to_string());
    }
    assert_eq!(buffer.len(), 20);
    assert!(!buffer.matches_sequence(&seq));
    buffer.clear();
    assert_eq!(buffer.len(), 0);
}

#[test]
fn collecting_logger_keeps_the_last_hundred() {
    let mut logger = CollectingLogger::new();
    for i in 0..105 {
        logger.log(format!("m{}", i));
    }
    let messages = logger.get_messages();
    assert_eq!(messages.len(), 100);
    assert_eq!(messages[0], "m5");
    assert_eq!(messages[99], "m104");
    logger.clear();
    assert!(logger.get_messages().is_empty());
    assert_eq!(debug(true, "x".to_string()), Some("DEBUG: x".to_string()));
    assert_eq!(debug(false, "x".to_string()), None);
}

#[test]
fn truncation_marks_cut_text() {
    assert_eq!(truncate_string("hello", 5), "hello");
    assert_eq!(truncate_string("hello world", 5), "hell…");
    assert_eq!(truncate_text("hello world", 8), "hello...");
    assert_eq!(truncate_text("hé", 1), "...");
    assert_eq!(format_repo_summary(&[], 20), "-");
    assert_eq!(format_repo_summary(&["org/repo".to_string()], 5), "org/repo");
    assert_eq!(
        format_repo_summary(&["org/alpha".to_string(), "org/beta".to_string()], 12),
        "org/alpha..."
    );
}

fn day(y: i32, m: u32, d: u32) -> i32 {
    NaiveDate::from_ymd_opt(y, m, d).unwrap().num_days_from_ce()
}

fn worklog(started: i64, d: i32, meeting: Option<&str>) -> PushedWorklog {
    PushedWorklog { started, day: d, seconds: 3600, meeting_id: meeting.map(|m| m.to_string()) }
}

fn facts(id: &str, declined: bool, color: &str) -> MeetingFacts {
    MeetingFacts { id: id.to_string(), declined, color_id: Some(color.to_string()) }
}

#[test]
fn push_checks_find_each_achievement() {
    let now = 1_773_650_000;
    let today = day(2026, 3, 16);
    let friday = day(2026, 3, 13);
    let ctx = PushContext {
        push: vec![
            worklog(now - 70 * 86400, friday, Some("m1")),
            worklog(now, today, Some("m2")),
            worklog(now, today, Some("m3")),
            worklog(now, today, None),
        ],
        pushed_days: vec![today],
        sprints: vec![],
        meetings: vec![facts("m1", true, "1"), facts("m2", false, "2"), facts("m3", false, "3")],
        now,
        today,
        local_hour: 23,
        wizard: None,
    };
    let checks = run_push_checks(&ctx);
    assert_eq!(
        checks,
        PushChecks {
            old_worklog: true,
            same_day_worklogs: true,
            declined_meeting: true,
            night: true,
            quarter_crunch: false,
            forgotten_friday: true,
            perfect_sprint: false,
            today_worklog: true,
            rainbow: true,
        }
    );
    assert_eq!(
        check_push_candidates(&ctx),
        vec![
            Achievement::TimelineFixer,
            Achievement::GitSquashMaster,
            Achievement::DeclinedButLogged,
            Achievement::NightOwl,
            Achievement::ForgotFriday,
            Achievement::Overachiever,
            Achievement::RainbowCalendar,
        ]
    );
}

#[test]
fn wizard_achievements_follow_its_progress() {
    let none = PushChecks {
        old_worklog: false,
        same_day_worklogs: false,
        declined_meeting: false,
        night: false,
        quarter_crunch: false,
        forgotten_friday: false,
        perfect_sprint: false,
        today_worklog: false,
        rainbow: false,
    };
    let w = WizardProgress { started_at: 1000, worklogs_from_meetings: 2, worklogs_from_github: 1, worklogs_from_gaps: 0 };
    assert_eq!(
        candidates_from(none, Some(w), 1100),
        vec![Achievement::SpeedRunner, Achievement::NoGaps, Achievement::GitHubWhisperer]
    );
    assert!(candidates_from(none, Some(WizardProgress { worklogs_from_github: 0, worklogs_from_gaps: 1, ..w }), 2000).is_empty());
}

#[test]
fn events_unlock_their_achievements() {
    assert_eq!(AchievementTracker::check_unlock_candidates(&AchievementEvent::RevertComplete), vec![Achievement::TheUndoer]);
    assert_eq!(AchievementTracker::check_unlock_candidates(&AchievementEvent::AboutPopupOpened), vec![Achievement::AboutClicker]);
    let secret = AchievementEvent::SecretSequenceTriggered { sequence_name: "chronie".to_string() };
    assert_eq!(AchievementTracker::check_unlock_candidates(&secret), vec![Achievement::ChroniesFriend]);
    let other = AchievementEvent::SecretSequenceTriggered { sequence_name: "konami".to_string() };
    assert!(AchievementTracker::check_unlock_candidates(&other).is_empty());
    assert_eq!(
        AchievementTracker::check_unlock_candidates(&AchievementEvent::AutoLinkComplete { linked_count: 10 }),
        vec![Achievement::AutoLinkMaster]
    );
    assert!(AchievementTracker::check_unlock_candidates(&AchievementEvent::AutoLinkComplete { linked_count: 9 }).is_empty());
    assert_eq!(required_for_chronie("friend"), Achievement::ChroniesFriend);
    assert_eq!(required_for_chronie("startup"), Achievement::ChroniesApprentice);
}

use wtf_cli::tabs::tab_bar;

#[test]
fn tab_bar_marks_the_current_tab() {
    let bar = tab_bar(Tab::History, false);
    assert_eq!(bar.len(), 6);
    assert_eq!(bar[4], (Tab::History, true));
    assert!(bar.iter().filter(|(_, active)| *active).count() == 1);
    assert_eq!(Tab::History.title(), "History");
    assert_eq!(Tab::History.digit(), '5');
    assert_eq!(Tab::Achievements.digit(), '7');
    assert_eq!(tab_bar(Tab::Achievements, true).last(), Some(&(Tab::Achievements, true)));
}

#[test]
fn three_worklogs_of_one_day_in_a_single_push_unlock_the_achievement() {
    let now = 1_773_650_000;
    let today = day(2026, 3, 16);
    let ctx = |push: Vec<PushedWorklog>| PushContext {
        push,
        pushed_days: vec![today],
        sprints: vec![],
        meetings: vec![],
        now,
        today,
        local_hour: 12,
        wizard: None,
    };
    let three = ctx(vec![worklog(now, today, None), worklog(now, today, None), worklog(now, today, None)]);
    assert!(run_push_checks(&three).same_day_worklogs);
    let two = ctx(vec![worklog(now, today, None), worklog(now, today, None), worklog(now, today - 1, None)]);
    assert!(!run_push_checks(&two).same_day_worklogs);
}
