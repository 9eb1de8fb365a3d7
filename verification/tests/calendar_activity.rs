use chrono::{Datelike, NaiveDate, Weekday};
use wtf_cli::activity::{
    calculate_activity, calculate_sprint_activity, logged_seconds, worklog_wall_range, DayActivity,
    JiraWorklogEntry, LocalWorklogEntry, LocalWorklogState,
};
use wtf_cli::calendar::{
    absence_overlaps, completes_perfect_sprint, completes_quarter_crunch, count_workdays, is_workday,
    quarter_bounds, sprint_workdays, weekday,
};

fn day(y: i32, m: u32, d: u32) -> i32 {
    NaiveDate::from_ymd_opt(y, m, d).unwrap().num_days_from_ce()
}

#[test]
fn weekdays_match_chrono() {
    for d in [day(2026, 3, 16), day(2026, 3, 21), day(1, 1, 1), day(2000, 2, 29), day(-5, 6, 1)] {
        let expected = NaiveDate::from_num_days_from_ce_opt(d).unwrap().weekday().num_days_from_monday();
        assert_eq!(weekday(d), expected);
    }
    assert!(is_workday(day(2026, 3, 20)));
    assert!(!is_workday(day(2026, 3, 21)));
    assert_eq!(NaiveDate::from_num_days_from_ce_opt(day(2026, 3, 16)).unwrap().weekday(), Weekday::Mon);
}

#[test]
fn workdays_leave_out_weekends_and_absences() {
    let start = day(2026, 3, 16);
    let end = day(2026, 3, 29);
    assert_eq!(count_workdays(start, end, &[]), 10);
    assert_eq!(count_workdays(start, end, &[(day(2026, 3, 18), day(2026, 3, 19))]), 8);
    assert_eq!(count_workdays(end, start, &[]), 0);
    assert_eq!(sprint_workdays(Some(start), Some(end), &[(day(2026, 3, 27), day(2026, 4, 3))]), 9);
    assert_eq!(sprint_workdays(None, Some(end), &[]), 0);
    assert!(absence_overlaps((day(2026, 3, 27), day(2026, 4, 3)), Some(start), Some(end)));
    assert!(!absence_overlaps((day(2026, 4, 1), day(2026, 4, 3)), Some(start), Some(end)));
}

#[test]
fn quarters_span_their_months() {
    assert_eq!(quarter_bounds(2026, 1), (day(2026, 1, 1), day(2026, 3, 31)));
    assert_eq!(quarter_bounds(2024, 1), (day(2024, 1, 1), day(2024, 3, 31)));
    assert_eq!(quarter_bounds(2026, 2), (day(2026, 4, 1), day(2026, 6, 30)));
    assert_eq!(quarter_bounds(2026, 4), (day(2026, 10, 1), day(2026, 12, 31)));
}

fn workdays_between(a: i32, b: i32) -> Vec<i32> {
    (a..=b).filter(|d| is_workday(*d)).collect()
}

#[test]
fn quarter_crunch_needs_ninety_percent_of_a_past_quarter() {
    let q1 = workdays_between(day(2026, 1, 1), day(2026, 3, 31));
    assert!(completes_quarter_crunch(&q1, day(2026, 4, 2)));
    assert!(!completes_quarter_crunch(&q1, day(2026, 3, 31)));
    let half: Vec<i32> = q1.iter().cloned().step_by(2).collect();
    assert!(!completes_quarter_crunch(&half, day(2026, 4, 2)));
    assert!(!completes_quarter_crunch(&[], day(2026, 4, 2)));
}

#[test]
fn perfect_sprint_needs_every_workday() {
    let start = day(2026, 3, 16);
    let end = day(2026, 3, 27);
    let all = workdays_between(start, end);
    assert!(completes_perfect_sprint(&all, &[(Some(start), Some(end))]));
    assert!(!completes_perfect_sprint(&all[1..], &[(Some(start), Some(end))]));
    assert!(!completes_perfect_sprint(&all, &[(None, Some(end))]));
}

fn jira(id: &str, d: i32, seconds: u64) -> JiraWorklogEntry {
    JiraWorklogEntry { id: id.to_string(), author: "me".to_string(), issue_id: "PAT-1".to_string(), day: d, seconds }
}

fn local(id: &str, d: i32, seconds: i64, pushed_as: Option<&str>) -> LocalWorklogEntry {
    LocalWorklogEntry {
        id: id.to_string(),
        issue_id: "PAT-1".to_string(),
        day: d,
        seconds,
        worklog_id: pushed_as.map(|w| w.to_string()),
        status: if pushed_as.is_some() { LocalWorklogState::Pushed } else { LocalWorklogState::Staged },
    }
}

#[test]
fn activity_counts_jira_and_unpushed_local_time() {
    let mon = day(2026, 3, 16);
    let jira_logs = vec![jira("w1", mon, 3600)];
    let local_logs = vec![local("a", mon, 3600, Some("w1")), local("b", mon, 1800, None), local("c", mon + 1, 600, Some("gone"))];
    let absences = vec![(mon + 2, mon + 2), (mon + 5, mon + 5)];
    let a = calculate_activity(mon, mon + 5, &jira_logs, &local_logs, &absences);
    assert_eq!(a.len(), 6);
    assert_eq!(a[0], DayActivity { date: mon, seconds: 5400, is_absence: false });
    assert_eq!(a[1].seconds, 600);
    assert_eq!(a[2], DayActivity { date: mon + 2, seconds: 25200, is_absence: true });
    assert_eq!(a[3].seconds, 0);
    assert_eq!(a[5].seconds, 0);
    assert_eq!(logged_seconds(&a), 5400 + 600);
    assert!(calculate_sprint_activity(None, Some(mon), &jira_logs, &local_logs, &absences).is_empty());
    assert_eq!(calculate_sprint_activity(Some(mon), Some(mon), &jira_logs, &local_logs, &absences).len(), 1);
}

#[test]
fn worklog_wall_covers_whole_weeks() {
    let today = day(2026, 3, 18);
    let (first, last) = worklog_wall_range(today);
    assert_eq!(last, day(2026, 3, 22));
    assert_eq!(weekday(first), 0);
    assert_eq!(first, day(2025, 3, 10));
    assert_eq!(last - first + 1, 378);
}
