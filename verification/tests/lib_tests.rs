use std::cmp::Ordering;

use calib::{
    day_end, day_start, first_day_2023_nd, first_day_2023_ndt, first_time_nt, last_time_nt,
    Date, DateTime, Event, EventCalendar, Time,
};

#[test]
fn lib_test_new_event() {
    let naive_date = first_day_2023_nd();

    // common times
    let first_time = first_time_nt();
    let last_time = last_time_nt();

    // event being tested
    let event = Event::new(String::from("Birthday Party"), &naive_date);

    // assumed start and end times for testing
    let assumed_start_time = DateTime::new(naive_date, first_time);
    let assumed_end_time = DateTime::new(naive_date, last_time);

    assert_eq!(event.start(), assumed_start_time);
    assert_eq!(event.end(), assumed_end_time);
}

#[test]
fn lib_test_event_start_time_change() {
    // basic date declaration
    let naive_date = first_day_2023_nd();

    // event being tested
    let mut event = Event::new(String::from("Birthday Party"), &naive_date);
    // new start time
    let new_start_time = Time::new(10, 30, 0).unwrap();

    event = event
        .set_start(DateTime::new(naive_date, new_start_time))
        .unwrap();
    assert_eq!(event.start(), DateTime::new(naive_date, new_start_time))
}

#[test]
fn lib_test_event_end_time_change() {
    // basic date declaration
    let naive_date = first_day_2023_nd();

    // event being tested
    let mut event = Event::new(String::from("Birthday Party"), &naive_date);
    // new end time
    let new_end_time = Time::new(22, 30, 0).unwrap();

    event = event.set_end(DateTime::new(naive_date, new_end_time)).unwrap();

    assert_eq!(event.end(), DateTime::new(naive_date, new_end_time))
}

#[test]
fn lib_test_invalid_event_time_change() {
    // basic date declaration
    let naive_date = first_day_2023_nd();
    let start_time = Time::new(12, 0, 0).unwrap();
    let invalid_end_time = Time::new(10, 0, 0).unwrap();

    let mut event = Event::new("Birthday".into(), &naive_date);

    event = event.set_start(DateTime::new(naive_date, start_time)).unwrap();

    assert_eq!(
        true,
        event
            .set_end(DateTime::new(naive_date, invalid_end_time))
            .is_err()
    );
}

#[test]
fn lib_invalid_events_test() {
    // basic date declaration
    let naive_date = first_day_2023_nd();

    // common times
    let first_time = first_time_nt();
    let last_time = last_time_nt();

    // event being tested
    let mut event = Event::new(String::from("Birthday Party"), &naive_date);

    // assumed start and end times for testing
    let assumed_start_time = DateTime::new(naive_date, first_time);
    let assumed_end_time = DateTime::new(naive_date, last_time);

    assert_eq!(event.start(), assumed_start_time);
    assert_eq!(event.end(), assumed_end_time);

    // new start time
    let new_start_time = Time::new(10, 30, 0).unwrap();

    // update start time
    event = event
        .set_start(DateTime::new(naive_date, new_start_time))
        .unwrap();

    assert_eq!(event.start(), DateTime::new(naive_date, new_start_time));

    // new end time
    let new_end_time = Time::new(22, 30, 0).unwrap();

    // update end time
    event = event.set_end(DateTime::new(naive_date, new_end_time)).unwrap();

    assert_eq!(event.end(), DateTime::new(naive_date, new_end_time));

    // try to set invalid start time
    let status = event.set_start(DateTime::new(naive_date, last_time));
    assert_eq!(true, status.is_err());

    // try to set invalid end time
    let event = Event::new(String::from("Birthday Party"), &naive_date);
    let status = event.set_end(DateTime::new(naive_date, first_time));
    assert_eq!(true, status.is_err());
}

#[test]
fn lib_test_event_ordering_lt_start_cmp() {
    let ndt = first_day_2023_ndt();
    let nd = ndt.date;
    let midnight = first_time_nt();
    let d1 = Event::new("A".into(), &nd);

    // 01/01/2023-00:00:00 < 01/01/2023-00:00:01
    let mut d2 = Event::new("A".into(), &nd);
    d2 = d2
        .set_start(DateTime::new(nd, Time::new(0, 0, 1).unwrap()))
        .unwrap();
    assert_eq!(d1.cmp(&d2), Ordering::Less);

    // 01/01/2023-00:00:00 < 01/01/2023-00:01:00
    let mut d3 = Event::new("A".into(), &nd);
    d3 = d3
        .set_start(DateTime::new(nd, Time::new(0, 1, 0).unwrap()))
        .unwrap();
    assert_eq!(d1.cmp(&d3), Ordering::Less);

    // 01/01/2023-00:00:00 < 01/01/2023-01:00:00
    let mut d4 = Event::new("A".into(), &nd);
    d4 = d4
        .set_start(DateTime::new(nd, Time::new(1, 0, 0).unwrap()))
        .unwrap();
    assert_eq!(d1.cmp(&d4), Ordering::Less);

    // 01/01/2023-00:00:00 < 01/01/2024-00:00:00
    let d5 = Event::new("A".into(), &Date::new(2024, 1, 1).unwrap());
    assert_eq!(d1.cmp(&d5), Ordering::Less);

    // 01/01/2023-00:00:00 < 01/02/2023-00:00:00
    let mut d6 = Event::new("A".into(), &nd);
    d6 = d6
        .set_end(DateTime::new(Date::new(2023, 1, 3).unwrap(), midnight))
        .unwrap();
    d6 = d6
        .set_start(DateTime::new(Date::new(2023, 1, 2).unwrap(), midnight))
        .unwrap();
    assert_eq!(d1.cmp(&d6), Ordering::Less);

    // 01/01/2023-00:00:00 < 02/01/2023-00:00:00
    let mut d7 = Event::new("A".into(), &nd);
    d7 = d7
        .set_end(DateTime::new(Date::new(2023, 3, 1).unwrap(), midnight))
        .unwrap();
    d7 = d7
        .set_start(DateTime::new(Date::new(2023, 2, 1).unwrap(), midnight))
        .unwrap();
    assert_eq!(d1.cmp(&d7), Ordering::Less);
}

#[test]
fn test_event_range() {
    let nd1 = first_day_2023_nd();
    let nd2 = Date::new(2023, 1, 2).unwrap();
    let nd3 = Date::new(2023, 1, 3).unwrap();
    let nd4 = Date::new(2023, 1, 4).unwrap();
    let nd5 = Date::new(2023, 1, 5).unwrap();

    let e1 = Event::new("A".into(), &nd1);

    let e2 = Event::new("B".into(), &nd2);
    let e2_id = e2.id();

    let e3 = Event::new("C".into(), &nd3);
    let e3_id = e3.id();

    let e4 = Event::new("D".into(), &nd4);
    let e4_id = e4.id();

    let e5 = Event::new("E".into(), &nd5);

    // range is from 01/02/2023T11:00:00 to 01/04/2023T23:59:59
    let range_start = DateTime::new(nd2, Time::new(11, 0, 0).unwrap());
    let range_end = DateTime::new(nd4, day_end());

    let mut cal = EventCalendar::default();

    cal.add_event(e1);
    cal.add_event(e2);
    cal.add_event(e3);
    cal.add_event(e4);
    cal.add_event(e5);

    let found = cal.events_in_range(range_start, range_end);

    assert_eq!(Some(&found[0]), cal.get(&e2_id));
    assert_eq!(Some(&found[1]), cal.get(&e3_id));
    assert_eq!(Some(&found[2]), cal.get(&e4_id));
    assert_eq!(found.len(), 3);
}

#[test]
fn lib_test_event_serialize() {
    let nd = first_day_2023_nd();
    let e = Event::new("A".into(), &nd);
    let id = uuid::Uuid::from_u128(e.id()).hyphenated().to_string();

    let cnd = chrono::NaiveDate::from_ymd_opt(2023, 1, 1).unwrap();
    let first_time = chrono::NaiveDateTime::new(
        cnd,
        chrono::NaiveTime::from_hms_opt(day_start().hour as u32, 0, 0).unwrap(),
    )
    .format("%Y-%m-%dT%H:%M:%S")
    .to_string();
    let last_time = chrono::NaiveDateTime::new(
        cnd,
        chrono::NaiveTime::from_hms_opt(23, 59, 59).unwrap(),
    )
    .format("%Y-%m-%dT%H:%M:%S")
    .to_string();

    assert_eq!(
        e.serialize(),
        format!("{{\"start\":\"{first_time}\",\"end\":\"{last_time}\",\"name\":\"A\",\"id\":\"{id}\"}}",)
    )
}
