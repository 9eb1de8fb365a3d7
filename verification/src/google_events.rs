use vstd::prelude::*;
use crate::text::{contains_seq, contains_str};

verus! {

/// An attendee of a calendar event.
pub struct CalendarAttendee {
    /// Whether the attendee is the calendar's owner; unset counts as no.
    pub is_self: Option<bool>,
    pub response_status: Option<String>,
}

/// A Google Calendar event: the fields that sorting events reads. Times are
/// seconds since the Unix epoch, present where the event has a date-time.
pub struct CalendarEvent {
    pub id: Option<String>,
    pub summary: Option<String>,
    pub description: Option<String>,
    pub start: Option<i64>,
    pub end: Option<i64>,
    pub attendees: Option<Vec<CalendarAttendee>>,
    pub recurrence: Option<Vec<String>>,
}

/// An absence taken from the calendar.
pub struct AbsenceEntry {
    pub id: String,
    pub start: i64,
    pub end: i64,
}

/// A meeting taken from the calendar, not yet linked to an issue.
pub struct MeetingEntry {
    pub id: String,
    pub start: i64,
    pub end: i64,
    pub title: Option<String>,
    pub description: Option<String>,
    pub attendees: Option<Vec<CalendarAttendee>>,
    pub recurrence: Option<Vec<String>>,
    /// How the calendar's owner answered the invitation.
    pub my_response_status: Option<String>,
}

/// What a calendar event is to this tool.
pub enum GoogleEvent {
    Absence(AbsenceEntry),
    Meeting(MeetingEntry),
    Unknown,
}

/// An event whose title names an absence; an untitled event is not one.
pub open spec fn titled_absence(e: CalendarEvent) -> bool {
    e.summary matches Some(s) && contains_seq(s@, "Absence"@)
}

pub open spec fn opt_view(o: Option<String>) -> Option<Seq<char>> {
    match o {
        Some(s) => Some(s@),
        None => None,
    }
}

/// Whether attendee `a` is the calendar's owner.
pub open spec fn is_owner(a: CalendarAttendee) -> bool {
    a.is_self == Some(true)
}

/// The answer of the first attendee who is the calendar's owner, if any
/// attendee is and has answered.
pub open spec fn owner_response(attendees: Seq<CalendarAttendee>) -> Option<Seq<char>>
    decreases attendees.len(),
{
    if attendees.len() == 0 {
        None
    } else if is_owner(attendees[0]) {
        opt_view(attendees[0].response_status)
    } else {
        owner_response(attendees.drop_first())
    }
}

fn owner_response_in(v: &Vec<CalendarAttendee>) -> (r: Option<String>)
    ensures
        opt_view(r) == owner_response(v@),
{
    let mut i: usize = 0;
    assert(v@.skip(0) =~= v@);
    while i < v.len()
        invariant
            0 <= i <= v@.len(),
            owner_response(v@) == owner_response(v@.skip(i as int)),
        decreases v@.len() - i,
    {
        assert(v@.skip(i as int).drop_first() =~= v@.skip(i as int + 1));
        assert(v@.skip(i as int)[0] == v@[i as int]);
        let owner = match v[i].is_self {
            Some(b) => b,
            None => false,
        };
        if owner {
            return match &v[i].response_status {
                Some(s) => Some(s.clone()),
                None => None,
            };
        }
        i = i + 1;
    }
    None
}

/// How the calendar's owner answered, from an event's attendee list.
pub fn my_response_status(attendees: &Option<Vec<CalendarAttendee>>) -> (r: Option<String>)
    ensures
        opt_view(r) == match attendees {
            Some(v) => owner_response(v@),
            None => None,
        },
{
    match attendees {
        None => None,
        Some(v) => owner_response_in(v),
    }
}

/// What `from_google` makes of an event: an absence where the title names
/// one and the id, start and end are all there; else a meeting where start
/// and end are there; else nothing known.
pub open spec fn spec_event_kind(e: CalendarEvent) -> int {
    if titled_absence(e) {
        if e.id is Some && e.start is Some && e.end is Some {
            0
        } else {
            2
        }
    } else if e.start is Some && e.end is Some {
        1
    } else {
        2
    }
}

/// Sorts a calendar event into an absence, a meeting or neither. A timed
/// event that is not an absence must carry an id.
pub fn from_google(event: CalendarEvent) -> (r: GoogleEvent)
    requires
        spec_event_kind(event) == 1 ==> event.id is Some,
    ensures
        spec_event_kind(event) == 0 <==> r is Absence,
        spec_event_kind(event) == 1 <==> r is Meeting,
        spec_event_kind(event) == 2 <==> r is Unknown,
        r matches GoogleEvent::Absence(a) ==> (
            Some(a.id@) == opt_view(event.id)
            && Some(a.start) == event.start
            && Some(a.end) == event.end
        ),
        r matches GoogleEvent::Meeting(m) ==> (
            Some(m.id@) == opt_view(event.id)
            && Some(m.start) == event.start
            && Some(m.end) == event.end
            && opt_view(m.title) == opt_view(event.summary)
            && opt_view(m.description) == opt_view(event.description)
            && m.attendees == event.attendees
            && m.recurrence == event.recurrence
            && opt_view(m.my_response_status) == match event.attendees {
                Some(v) => owner_response(v@),
                None => None,
            }
        ),
{
    let absence = match &event.summary {
        Some(s) => contains_str(s.as_str(), "Absence"),
        None => false,
    };
    if absence {
        return match (event.id, event.start, event.end) {
            (Some(id), Some(start), Some(end)) => GoogleEvent::Absence(AbsenceEntry { id, start, end }),
            _ => GoogleEvent::Unknown,
        };
    }
    match (event.start, event.end) {
        (Some(start), Some(end)) => {
            let my_response_status = my_response_status(&event.attendees);
            let id = match event.id {
                Some(id) => id,
                None => String::new(),
            };
            GoogleEvent::Meeting(
                MeetingEntry {
                    id,
                    start,
                    end,
                    title: event.summary,
                    description: event.description,
                    attendees: event.attendees,
                    recurrence: event.recurrence,
                    my_response_status,
                },
            )
        },
        _ => GoogleEvent::Unknown,
    }
}

} // verus!
