use std::cmp::Ordering;

use calib::{
    day_end, day_start, Date, DateTime, Event, EventCalendar, EventError, Time,
};

fn date(y: u16, m: u8, d: u8) -> Date {
    Date::new(y, m, d).unwrap()
}

fn dt(y: u16, m: u8, d: u8, h: u8, mi: u8, s: u8) -> DateTime {
    DateTime::new(Date::new(y, m, d).unwrap(), Time::new(h, mi, s).unwrap())
}

#[test]
fn test_day_bounds() {
    assert_eq!(day_start(), Time::new(0, 0, 0).unwrap());
    assert_eq!(day_end(), Time::new(23, 59, 59).unwrap());
}

#[test]
fn test_date_validation() {
    assert!(Date::new(2024, 2, 29).is_some());
    assert!(Date::new(2023, 2, 29).is_none());
    assert!(Date::new(2100, 2, 29).is_none());
    assert!(Date::new(2000, 2, 29).is_some());
    assert!(Date::new(2023, 4, 31).is_none());
    assert!(Date::new(2023, 13, 1).is_none());
    assert!(Date::new(2023, 0, 1).is_none());
    assert!(Date::new(2023, 1, 0).is_none());
    assert!(Time::new(24, 0, 0).is_none());
    assert!(Time::new(0, 60, 0).is_none());
    assert!(Time::new(0, 0, 60).is_none());
    assert!(Time::new(23, 59, 59).is_some());
}

// every successful construction or mutation leaves end strictly after start
#[test]
fn test_validity_after_mutations() {
    let e = Event::new("A".into(), &date(2023, 6, 15));
    assert!(e.start() < e.end());

    let e = e.set_start(dt(2023, 6, 15, 12, 0, 0)).unwrap();
    assert!(e.start() < e.end());

    let e = e.set_end(dt(2023, 6, 15, 12, 0, 1)).unwrap();
    assert!(e.start() < e.end());

    // equal start and end is invalid
    let bad = e.clone().set_end(dt(2023, 6, 15, 12, 0, 0));
    assert!(matches!(bad, Err(EventError::InvalidEndTime)));
    // the event the setter was not applied to is untouched
    assert_eq!(e.end(), dt(2023, 6, 15, 12, 0, 1));

    let bad = e.clone().set_start(dt(2023, 6, 15, 12, 0, 1));
    assert!(matches!(bad, Err(EventError::InvalidStartTime)));
    assert_eq!(e.start(), dt(2023, 6, 15, 12, 0, 0));
}

#[test]
fn test_time_and_date_only_setters() {
    let e = Event::new("A".into(), &date(2023, 6, 15));

    // replace only the time of day of the start
    let e = e.set_start_time(Time::new(8, 30, 0).unwrap()).unwrap();
    assert_eq!(e.start(), dt(2023, 6, 15, 8, 30, 0));

    // replace only the date of the start
    let e = e.set_start_date(date(2023, 6, 14)).unwrap();
    assert_eq!(e.start(), dt(2023, 6, 14, 8, 30, 0));

    // replace only the time of day of the end
    let e = e.set_end_time(Time::new(9, 0, 0).unwrap()).unwrap();
    assert_eq!(e.end(), dt(2023, 6, 15, 9, 0, 0));

    // replace only the date of the end
    let e = e.set_end_date(date(2023, 7, 1)).unwrap();
    assert_eq!(e.end(), dt(2023, 7, 1, 9, 0, 0));

    // a recombined start after the end is rejected
    let bad = e.clone().set_start_date(date(2023, 7, 2));
    assert!(matches!(bad, Err(EventError::InvalidStartTime)));

    // a recombined end at or before the start is rejected
    let f = Event::new("B".into(), &date(2023, 7, 1));
    let f = f.set_start_time(Time::new(8, 30, 0).unwrap()).unwrap();
    let bad = f.set_end_time(Time::new(0, 0, 0).unwrap());
    assert!(matches!(bad, Err(EventError::InvalidEndTime)));
}

#[test]
fn test_set_name_keeps_times() {
    let mut e = Event::new("old name".into(), &date(2023, 6, 15));
    let start = e.start();
    let end = e.end();
    let id = e.id();
    e.set_name("new name".into());
    assert_eq!(e.name(), "new name");
    assert_eq!(e.start(), start);
    assert_eq!(e.end(), end);
    assert_eq!(e.id(), id);
}

// ordering is a strict total order; ties on start are broken by end, then
// name, then identifier
#[test]
fn test_ordering_tie_breaking() {
    let nd = date(2023, 1, 1);

    // same start, later end
    let a = Event::new("A".into(), &nd);
    let b = a.clone().set_end(dt(2023, 1, 2, 23, 59, 59)).unwrap();
    assert_eq!(a.cmp(&b), Ordering::Less);

    // same start and end, names differ
    let mut c = a.clone();
    c.set_name("B".into());
    assert_eq!(a.cmp(&c), Ordering::Less);

    // all fields equal except the identifier: exactly one direction holds
    let d = Event::new("A".into(), &nd);
    assert_ne!(a.cmp(&d), Ordering::Equal);
    assert_eq!(a.cmp(&d) == Ordering::Less, d.cmp(&a) == Ordering::Greater);

    // a clone is equal
    assert_eq!(a.cmp(&a.clone()), Ordering::Equal);
}

// add_event returns true exactly once per identifier, and get sees the most
// recently inserted data
#[test]
fn test_add_event_replace_by_id() {
    let mut cal = EventCalendar::default();
    let e = Event::new("first".into(), &date(2023, 3, 1));
    let id = e.id();

    assert_eq!(cal.add_event(e.clone()), true);
    assert_eq!(cal.add_event(e.clone()), false);

    // same identifier, different data: replaced, not duplicated
    let mut moved = e
        .clone()
        .set_end(dt(2023, 5, 2, 23, 59, 59))
        .unwrap()
        .set_start(dt(2023, 5, 2, 0, 0, 0))
        .unwrap();
    moved.set_name("second".into());
    assert_eq!(cal.add_event(moved), false);

    let got = cal.get(&id).unwrap();
    assert_eq!(got.name(), "second");
    assert_eq!(got.start(), dt(2023, 5, 2, 0, 0, 0));

    // the chronological view moved with it: only one event is stored
    let all = cal.events_in_range(dt(2023, 1, 1, 0, 0, 0), dt(2023, 12, 31, 23, 59, 59));
    assert_eq!(all.len(), 1);
    assert_eq!(all[0].name(), "second");
}

// remove after add returns an equal event; a second remove returns empty
#[test]
fn test_remove_round_trip() {
    let mut cal = EventCalendar::default();
    let e = Event::new("A".into(), &date(2023, 3, 1));
    let id = e.id();

    cal.add_event(e.clone());
    let removed = cal.remove(&id);
    assert_eq!(removed, Some(e));
    assert_eq!(cal.remove(&id), None);
    assert_eq!(cal.get(&id), None);
}

#[test]
fn test_remove_absent_id() {
    let mut cal = EventCalendar::default();
    let e = Event::new("A".into(), &date(2023, 3, 1));
    cal.add_event(e.clone());
    // an identifier that was never inserted
    let other = e.id().wrapping_add(1);
    assert_eq!(cal.remove(other), None);
    assert_eq!(cal.get(other), None);
    assert!(cal.get(e.id()).is_some());
}

#[test]
fn test_first_event() {
    let mut cal = EventCalendar::default();
    assert_eq!(cal.first_event(), None);

    let late = Event::new("late".into(), &date(2023, 9, 1));
    let early = Event::new("early".into(), &date(2023, 2, 1));
    let middle = Event::new("middle".into(), &date(2023, 5, 1));
    cal.add_event(late);
    cal.add_event(early.clone());
    cal.add_event(middle);

    assert_eq!(cal.first_event(), Some(&early));
}

// the range query matches on endpoint containment, not interval overlap
#[test]
fn test_range_endpoint_containment() {
    let mut cal = EventCalendar::default();

    // spans the whole queried range but has neither endpoint inside it
    let spanning = Event::new("spanning".into(), &date(2023, 6, 1));
    let spanning = spanning.set_end(dt(2023, 6, 30, 23, 59, 59)).unwrap();
    cal.add_event(spanning);

    // ends inside the range
    let ends_inside = Event::new("ends inside".into(), &date(2023, 6, 9));
    let ends_inside = ends_inside.set_end(dt(2023, 6, 10, 12, 0, 0)).unwrap();
    cal.add_event(ends_inside);

    // starts inside the range
    let starts_inside = Event::new("starts inside".into(), &date(2023, 6, 11));
    cal.add_event(starts_inside);

    // entirely outside
    let outside = Event::new("outside".into(), &date(2023, 7, 5));
    cal.add_event(outside);

    let found = cal.events_in_range(dt(2023, 6, 10, 0, 0, 0), dt(2023, 6, 12, 0, 0, 0));
    assert_eq!(found.len(), 2);
    assert_eq!(found[0].name(), "ends inside");
    assert_eq!(found[1].name(), "starts inside");

    // boundaries are inclusive on both sides
    let exact = cal.events_in_range(dt(2023, 6, 11, 0, 0, 0), dt(2023, 6, 11, 0, 0, 0));
    assert_eq!(exact.len(), 1);
    assert_eq!(exact[0].name(), "starts inside");

    // empty when nothing qualifies
    let none = cal.events_in_range(dt(2022, 1, 1, 0, 0, 0), dt(2022, 12, 31, 0, 0, 0));
    assert!(none.is_empty());
}

// the serialized form is valid JSON whose fields carry the event's data,
// with the name escaped exactly as a JSON string
#[test]
fn test_serialize_is_json_with_escapes() {
    let tricky = "A\"\\\n\t\u{1}\u{1f}e\u{e9}";
    let e = Event::new(tricky.into(), &date(2023, 1, 1));
    let text = e.serialize();

    let value: serde_json::Value = serde_json::from_str(&text).unwrap();
    assert_eq!(value["start"].as_str(), Some("2023-01-01T00:00:00"));
    assert_eq!(value["end"].as_str(), Some("2023-01-01T23:59:59"));
    assert_eq!(value["name"].as_str(), Some(tricky));
    assert_eq!(
        value["id"].as_str(),
        Some(uuid::Uuid::from_u128(e.id()).hyphenated().to_string().as_str())
    );

    // the name renders with the same escapes serde_json writes
    let expected_name = serde_json::to_string(tricky).unwrap();
    assert!(text.contains(&format!("\"name\":{expected_name}")));

    // serialization is stable across calls
    assert_eq!(text, e.serialize());
}

#[test]
fn test_serialize_field_order() {
    let e = Event::new("plain".into(), &date(2023, 12, 31));
    let text = e.serialize();
    let i_start = text.find("\"start\"").unwrap();
    let i_end = text.find("\"end\"").unwrap();
    let i_name = text.find("\"name\"").unwrap();
    let i_id = text.find("\"id\"").unwrap();
    assert!(i_start < i_end && i_end < i_name && i_name < i_id);
    assert!(text.starts_with('{') && text.ends_with('}'));
}

// identifiers drawn at creation are distinct in practice and key the
// calendar correctly
#[test]
fn test_identifier_lookup() {
    let mut cal = EventCalendar::default();
    let a = Event::new("A".into(), &date(2023, 1, 1));
    let b = Event::new("B".into(), &date(2023, 1, 1));
    assert_ne!(a.id(), b.id());

    cal.add_event(a.clone());
    cal.add_event(b.clone());

    // lookups accept the identifier by value or by reference
    assert_eq!(cal.get(a.id()).unwrap().name(), "A");
    assert_eq!(cal.get(&b.id()).unwrap().name(), "B");
}
