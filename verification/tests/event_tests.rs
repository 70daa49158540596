use event_sphere_backend::state::State;
use event_sphere_backend::types::{
    AttendeePayload, AuthFailure, Error, EventPayload, UserPayload, UserPayload1, UserRole,
};

fn creds(username: &str, password: &str) -> UserPayload1 {
    UserPayload1 { username: username.to_string(), password: password.to_string() }
}

fn event_payload(name: &str, start: &str, end: &str) -> EventPayload {
    EventPayload {
        event_name: name.to_string(),
        details: "details".to_string(),
        location: "hall".to_string(),
        username: "root".to_string(),
        password: "rootpw".to_string(),
        start_date: start.to_string(),
        end_date: end.to_string(),
    }
}

fn admin_state() -> State {
    let mut s = State::new();
    s.register_user(
        UserPayload {
            username: "root".to_string(),
            email: "root@example.com".to_string(),
            password: "rootpw".to_string(),
            role: UserRole::Admin,
        },
        1,
    )
    .unwrap();
    s.register_user(
        UserPayload {
            username: "bob".to_string(),
            email: "bob@example.com".to_string(),
            password: "bobpw".to_string(),
            role: UserRole::User,
        },
        2,
    )
    .unwrap();
    s
}

#[test]
fn add_event_stores_the_record() {
    let mut s = admin_state();
    let e = s.add_event(event_payload("Gala", "01-06-2030", "02-06-2030"), 100).unwrap();
    assert_eq!(e.id, 0);
    assert_eq!(e.event_name, "Gala");
    assert_eq!(e.location, "hall");
    assert_eq!(e.start_date.day, 1);
    assert_eq!(e.start_date.month, 6);
    assert_eq!(e.start_date.year, 2030);
    assert_eq!(e.end_date.day, 2);
    assert_eq!(e.timestamp, 100);
    assert!(e.attendees.is_empty());
    let stored = s.get_event(0).unwrap();
    assert_eq!(stored.event_name, "Gala");
}

#[test]
fn add_event_requires_admin_credentials() {
    let mut s = admin_state();
    let mut p = event_payload("Gala", "01-06-2030", "02-06-2030");
    p.username = "bob".to_string();
    p.password = "bobpw".to_string();
    let r = s.add_event(p, 100);
    assert_eq!(r.unwrap_err(), Error::Unauthorized(AuthFailure::InsufficientPrivileges));
    let mut p = event_payload("Gala", "01-06-2030", "02-06-2030");
    p.password = "wrong".to_string();
    let r = s.add_event(p, 100);
    assert_eq!(r.unwrap_err(), Error::Unauthorized(AuthFailure::IncorrectPassword));
}

#[test]
fn add_event_rejects_empty_fields() {
    let mut s = admin_state();
    let mut p = event_payload("", "01-06-2030", "02-06-2030");
    assert_eq!(s.add_event(p, 100).unwrap_err(), Error::InvalidInput);
    p = event_payload("Gala", "", "02-06-2030");
    assert_eq!(s.add_event(p, 100).unwrap_err(), Error::InvalidInput);
}

#[test]
fn add_event_with_malformed_date_creates_no_record_and_consumes_the_id() {
    let mut s = admin_state();
    // A start date with a missing segment is rejected and no event appears.
    let r = s.add_event(event_payload("Gala", "01-06", "02-06-2030"), 100);
    assert_eq!(r.unwrap_err(), Error::InvalidInput);
    assert_eq!(s.get_events().unwrap_err(), Error::NotFound);
    // The identifier drawn by the failed attempt is consumed and never
    // reused: the next successful creation gets the following one.
    let e = s.add_event(event_payload("Gala", "01-06-2030", "02-06-2030"), 100).unwrap();
    assert_eq!(e.id, 1);
}

#[test]
fn update_event_replaces_fields_and_keeps_timestamp() {
    let mut s = admin_state();
    s.add_event(event_payload("Gala", "01-06-2030", "02-06-2030"), 100).unwrap();
    let e = s
        .update_event(0, event_payload("Ball", "03-07-2031", "04-07-2031"))
        .unwrap();
    assert_eq!(e.id, 0);
    assert_eq!(e.event_name, "Ball");
    assert_eq!(e.start_date.month, 7);
    assert_eq!(e.timestamp, 100);
    assert_eq!(
        s.update_event(9, event_payload("X", "01-01-2030", "02-01-2030")).unwrap_err(),
        Error::NotFound
    );
    assert_eq!(
        s.update_event(0, event_payload("X", "01-01", "02-01-2030")).unwrap_err(),
        Error::InvalidInput
    );
}

#[test]
fn delete_event_removes_the_record() {
    let mut s = admin_state();
    s.add_event(event_payload("Gala", "01-06-2030", "02-06-2030"), 100).unwrap();
    assert_eq!(
        s.delete_event(creds("root", "rootpw"), None).unwrap_err(),
        Error::InvalidInput
    );
    let e = s.delete_event(creds("root", "rootpw"), Some(0)).unwrap();
    assert_eq!(e.event_name, "Gala");
    assert_eq!(s.get_event(0).unwrap_err(), Error::NotFound);
    assert_eq!(
        s.delete_event(creds("root", "rootpw"), Some(0)).unwrap_err(),
        Error::NotFound
    );
}

#[test]
fn get_event_by_name_is_case_insensitive_first_match() {
    let mut s = admin_state();
    s.add_event(event_payload("GALA Night", "01-06-2030", "02-06-2030"), 100).unwrap();
    s.add_event(event_payload("gala night", "01-06-2030", "02-06-2030"), 100).unwrap();
    let found = s.get_event_by_name("Gala Night".to_string()).unwrap().unwrap();
    // Scan order is key order, so the first stored record wins.
    assert_eq!(found.id, 0);
    assert_eq!(found.event_name, "GALA Night");
    assert_eq!(
        s.get_event_by_name("missing".to_string()).unwrap_err(),
        Error::NotFound
    );
    assert_eq!(
        s.get_event_by_name("".to_string()).unwrap_err(),
        Error::InvalidInput
    );
}

#[test]
fn get_events_lists_all_in_id_order() {
    let mut s = admin_state();
    assert_eq!(s.get_events().unwrap_err(), Error::NotFound);
    s.add_event(event_payload("A", "01-06-2030", "02-06-2030"), 100).unwrap();
    s.add_event(event_payload("B", "01-06-2030", "02-06-2030"), 200).unwrap();
    let all = s.get_events().unwrap();
    assert_eq!(all.len(), 2);
    assert_eq!(all[0].event_name, "A");
    assert_eq!(all[1].event_name, "B");
}

#[test]
fn upcoming_and_past_split_on_creation_timestamp() {
    let mut s = admin_state();
    s.add_event(event_payload("old", "01-06-2030", "02-06-2030"), 100).unwrap();
    s.add_event(event_payload("new", "01-06-2030", "02-06-2030"), 900).unwrap();
    // Events whose creation timestamp lies at or before the given time.
    let up = s.get_upcoming_events(500).unwrap();
    assert_eq!(up.len(), 1);
    assert_eq!(up[0].event_name, "old");
    // Events whose creation timestamp lies after the given time.
    let past = s.get_past_events(500).unwrap();
    assert_eq!(past.len(), 1);
    assert_eq!(past[0].event_name, "new");
    assert_eq!(s.get_past_events(2000).unwrap_err(), Error::NotFound);
}

#[test]
fn add_attendees_appends_and_requires_valid_input() {
    let mut s = admin_state();
    s.add_event(event_payload("Gala", "01-06-2030", "02-06-2030"), 100).unwrap();
    s.add_attendees(
        creds("bob", "bobpw"),
        0,
        AttendeePayload { attendee_name: "Alice".to_string() },
    )
    .unwrap();
    s.add_attendees(
        creds("root", "rootpw"),
        0,
        AttendeePayload { attendee_name: "Carol".to_string() },
    )
    .unwrap();
    let names = s.get_attendees(0).unwrap();
    assert_eq!(names.len(), 2);
    assert_eq!(names[0].attendee_name, "Alice");
    assert_eq!(names[1].attendee_name, "Carol");
    let r = s.add_attendees(
        creds("bob", "bobpw"),
        0,
        AttendeePayload { attendee_name: "".to_string() },
    );
    assert_eq!(r.unwrap_err(), Error::InvalidInput);
    let r = s.add_attendees(
        creds("bob", "bobpw"),
        9,
        AttendeePayload { attendee_name: "Dave".to_string() },
    );
    assert_eq!(r.unwrap_err(), Error::NotFound);
    let r = s.add_attendees(
        creds("bob", "wrong"),
        0,
        AttendeePayload { attendee_name: "Dave".to_string() },
    );
    assert_eq!(r.unwrap_err(), Error::Unauthorized(AuthFailure::IncorrectPassword));
}

#[test]
fn get_attendees_of_missing_event_is_not_found() {
    let s = admin_state();
    assert_eq!(s.get_attendees(0).unwrap_err(), Error::NotFound);
}
