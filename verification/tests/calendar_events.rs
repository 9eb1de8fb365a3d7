use wtf_cli::google_events::{from_google, my_response_status, CalendarAttendee, CalendarEvent, GoogleEvent};

fn event(summary: Option<&str>, id: Option<&str>, start: Option<i64>, end: Option<i64>) -> CalendarEvent {
    CalendarEvent {
        id: id.map(|s| s.to_string()),
        summary: summary.map(|s| s.to_string()),
        description: Some("agenda".to_string()),
        start,
        end,
        attendees: None,
        recurrence: None,
    }
}

fn attendee(is_self: Option<bool>, status: Option<&str>) -> CalendarAttendee {
    CalendarAttendee { is_self, response_status: status.map(|s| s.to_string()) }
}

#[test]
fn an_absence_needs_id_start_and_end() {
    match from_google(event(Some("Absence: holidays"), Some("a1"), Some(100), Some(200))) {
        GoogleEvent::Absence(a) => {
            assert_eq!(a.id, "a1");
            assert_eq!((a.start, a.end), (100, 200));
        },
        _ => panic!("expected an absence"),
    }
    assert!(matches!(from_google(event(Some("Absence"), None, Some(100), Some(200))), GoogleEvent::Unknown));
    assert!(matches!(from_google(event(Some("Absence"), Some("a2"), None, Some(200))), GoogleEvent::Unknown));
}

#[test]
fn a_timed_event_is_a_meeting() {
    let mut e = event(Some("Daily standup"), Some("m1"), Some(10), Some(20));
    e.attendees = Some(vec![attendee(Some(false), Some("accepted")), attendee(Some(true), Some("declined"))]);
    e.recurrence = Some(vec!["RRULE:FREQ=DAILY".to_string()]);
    match from_google(e) {
        GoogleEvent::Meeting(m) => {
            assert_eq!(m.id, "m1");
            assert_eq!((m.start, m.end), (10, 20));
            assert_eq!(m.title, Some("Daily standup".to_string()));
            assert_eq!(m.description, Some("agenda".to_string()));
            assert_eq!(m.my_response_status, Some("declined".to_string()));
            assert_eq!(m.attendees.map(|a| a.len()), Some(2));
            assert_eq!(m.recurrence, Some(vec!["RRULE:FREQ=DAILY".to_string()]));
        },
        _ => panic!("expected a meeting"),
    }
}

#[test]
fn an_untitled_or_untimed_event() {
    assert!(matches!(from_google(event(None, Some("x"), Some(1), Some(2))), GoogleEvent::Meeting(_)));
    assert!(matches!(from_google(event(Some("All day"), Some("x"), None, None)), GoogleEvent::Unknown));
}

#[test]
fn the_owner_answer_is_the_first_owner_attendee() {
    assert_eq!(my_response_status(&None), None);
    let a = Some(vec![attendee(None, Some("accepted")), attendee(Some(true), None), attendee(Some(true), Some("tentative"))]);
    assert_eq!(my_response_status(&a), None);
    let b = Some(vec![attendee(None, Some("accepted")), attendee(Some(true), Some("tentative"))]);
    assert_eq!(my_response_status(&b), Some("tentative".to_string()));
}
