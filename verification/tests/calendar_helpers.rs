use fscs_monitor::calendar::{
    calendar_url, extract_data_at, next_calendar_index, parse_calendar, place_line,
    recurrence_next_exec, upcoming_events, upcoming_events_now, CalendarError, IcsComponent, IcsProperty,
};

fn ts(y: i32, mo: u32, d: u32, h: u32, mi: u32) -> i64 {
    chrono::NaiveDate::from_ymd_opt(y, mo, d).unwrap().and_hms_opt(h, mi, 0).unwrap().and_utc().timestamp()
}

fn vevent(props: &[(&str, &str)]) -> IcsComponent {
    IcsComponent {
        name: "VEVENT".to_string(),
        properties: props
            .iter()
            .map(|(n, v)| IcsProperty { name: n.to_string(), value: v.to_string() })
            .collect(),
    }
}

const WEEK: i64 = 604_800;

#[test]
fn events_are_sorted_by_start_after_an_empty_event() {
    let cal = vec![
        vevent(&[("SUMMARY", "B"), ("DTSTART", "20240102T100000")]),
        IcsComponent { name: "VTIMEZONE".to_string(), properties: vec![] },
        vevent(&[("SUMMARY", "A"), ("DTSTART", "20240101")]),
        vevent(&[("SUMMARY", "C"), ("DTSTART", "20240102T100000"), ("LOCATION", "Raum 1")]),
    ];
    let events = extract_data_at(&cal, ts(2024, 1, 1, 0, 0)).unwrap();
    let titles: Vec<&str> = events.iter().map(|e| e.title.as_str()).collect();
    assert_eq!(titles, vec!["", "A", "B", "C"]);
    assert_eq!(events[0].start, 0);
    assert_eq!(events[1].start, ts(2024, 1, 1, 0, 0));
    assert_eq!(events[2].next, ts(2024, 1, 2, 10, 0));
    assert_eq!(events[3].location, "Raum 1");
}

#[test]
fn later_properties_override_earlier_ones() {
    let cal = vec![vevent(&[("SUMMARY", "old"), ("SUMMARY", "new"), ("DESCRIPTION", "d"), ("X-OTHER", "x")])];
    let events = extract_data_at(&cal, 0).unwrap();
    assert_eq!(events[1].title, "new");
    assert_eq!(events[1].description, "d");
    assert_eq!(events[1].start, 0);
}

#[test]
fn unreadable_start_is_an_error() {
    let cal = vec![vevent(&[("DTSTART", "2024")])];
    assert_eq!(extract_data_at(&cal, 0).unwrap_err(), CalendarError::Unreadable);
    let cal = vec![vevent(&[("DTSTART", "20241332T100000")])];
    assert_eq!(extract_data_at(&cal, 0).unwrap_err(), CalendarError::Unreadable);
    // non-ASCII within the stamp
    let cal = vec![vevent(&[("DTSTART", "2024ä101T100000")])];
    assert_eq!(extract_data_at(&cal, 0).unwrap_err(), CalendarError::Unreadable);
}

#[test]
fn unreadable_rule_is_an_error() {
    let cal = vec![vevent(&[("DTSTART", "20240101"), ("RRULE", "FREQ=WEEKLY")])];
    assert_eq!(extract_data_at(&cal, 0).unwrap_err(), CalendarError::Unreadable);
    let cal = vec![vevent(&[("DTSTART", "20240101"), ("RRULE", "WEEKLY;A=B;UNTIL=20240301")])];
    assert_eq!(extract_data_at(&cal, 0).unwrap_err(), CalendarError::Unreadable);
}

#[test]
fn recurring_event_shows_the_next_occurrence() {
    let cal = vec![vevent(&[
        ("DTSTART", "20240101T100000"),
        ("RRULE", "FREQ=WEEKLY;BYDAY=MO;UNTIL=20240401T000000Z"),
    ])];
    let events = extract_data_at(&cal, ts(2024, 1, 20, 0, 0)).unwrap();
    assert_eq!(events[1].next, ts(2024, 1, 22, 10, 0));
    assert_eq!(events[1].start, ts(2024, 1, 1, 10, 0));
}

#[test]
fn recurrence_steps() {
    let start = ts(2024, 1, 1, 10, 0);
    let until = ts(2024, 3, 1, 0, 0);
    // not yet started: the start itself
    assert_eq!(recurrence_next_exec(start, WEEK, until, start - 5), Some(start));
    // exactly on an occurrence
    assert_eq!(recurrence_next_exec(start, WEEK, until, start + 2 * WEEK), Some(start + 2 * WEEK));
    // between occurrences: the next one
    assert_eq!(recurrence_next_exec(start, WEEK, until, start + 2 * WEEK + 1), Some(start + 3 * WEEK));
    // after the end: the last occurrence before the end
    assert_eq!(recurrence_next_exec(start, WEEK, until, ts(2025, 1, 1, 0, 0)), Some(ts(2024, 2, 26, 10, 0)));
    // daily, monthly and yearly steps
    assert_eq!(recurrence_next_exec(start, 86_400, until, start + 1), Some(start + 86_400));
    assert_eq!(recurrence_next_exec(start, 2_592_000, until, start + 1), Some(start + 2_592_000));
    assert_eq!(recurrence_next_exec(start, 31_536_000, ts(2030, 1, 1, 0, 0), start + 1), Some(start + 31_536_000));
}

#[test]
fn upcoming_events_drop_the_past() {
    let text = "BEGIN:VCALENDAR\nBEGIN:VEVENT\nSUMMARY:Spieleabend\nDTSTART:20230331T160000\nLOCATION:25.12.02.33\nEND:VEVENT\nEND:VCALENDAR";
    let before = upcoming_events(text, ts(2023, 3, 1, 0, 0)).unwrap();
    assert_eq!(before.len(), 1);
    assert_eq!(before[0].title, "Spieleabend");
    let after = upcoming_events(text, ts(2023, 4, 1, 0, 0)).unwrap();
    assert_eq!(after.len(), 0);
}

#[test]
fn folded_lines_are_joined() {
    let text = "BEGIN:VCALENDAR\nBEGIN:VEVENT\nSUMMARY:Sitzung des\n  Fachschaftsrats\nDTSTART:20230331T160000\nEND:VEVENT\nEND:VCALENDAR";
    let cal = parse_calendar(text).unwrap();
    let events = extract_data_at(&cal, 0).unwrap();
    assert_eq!(events[1].title, "Sitzung des Fachschaftsrats");
}

#[test]
fn text_that_is_no_calendar() {
    assert_eq!(upcoming_events("BEGIN:", 0).unwrap_err(), CalendarError::Unparsable);
}

#[test]
fn calendar_address() {
    assert_eq!(
        calendar_url("\"https://cloud/cal?start=START&export\"", 1_700_000_000),
        "https://cloud/cal?start=1700000000&export"
    );
    assert_eq!(calendar_url("\"plain\"", -5), "plain");
}

#[test]
fn calendars_rotate() {
    assert_eq!(next_calendar_index(0, 3), 1);
    assert_eq!(next_calendar_index(2, 3), 0);
    assert_eq!(next_calendar_index(0, 1), 0);
}

#[test]
fn long_locations_point_to_the_calendar() {
    assert_eq!(place_line("25.12.02.33"), "25.12.02.33");
    assert_eq!(place_line("Hörsaal 5E, Gebäude 25"), "siehe Kalender");
    // 17 bytes exactly
    assert_eq!(place_line("Kaiserslautern 12"), "Kaiserslautern 12");
}

#[test]
fn upcoming_events_now_keeps_the_future_and_drops_the_past() {
    let text = "BEGIN:VCALENDAR\nBEGIN:VEVENT\nSUMMARY:Zukunft\nDTSTART:29990101T100000\nEND:VEVENT\nBEGIN:VEVENT\nSUMMARY:Vergangenheit\nDTSTART:20000101T100000\nEND:VEVENT\nEND:VCALENDAR";
    let events = upcoming_events_now(text).unwrap();
    assert_eq!(events.len(), 1);
    assert_eq!(events[0].title, "Zukunft");
    assert_eq!(events[0].start, ts(2999, 1, 1, 10, 0));
    assert_eq!(upcoming_events_now("BEGIN:").unwrap_err(), CalendarError::Unparsable);
}

#[test]
fn calendar_source_from_configuration() {
    let config = r#"{"calendars":[{"url":"https://a/cal?start=START&x=1"},{"url":"https://b/START"}]}"#;
    let (url, count) = fscs_monitor::calendar::calendar_source(config, 1, 1700000000).unwrap();
    assert_eq!(url, "https://b/1700000000");
    assert_eq!(count, 2);
    let (url, _) = fscs_monitor::calendar::calendar_source(config, 0, -5).unwrap();
    assert_eq!(url, "https://a/cal?start=-5&x=1");
    assert_eq!(
        fscs_monitor::calendar::calendar_source(config, 2, 0).unwrap_err(),
        fscs_monitor::calendar::ConfigError::NoCalendar
    );
    assert_eq!(
        fscs_monitor::calendar::calendar_source("not json", 0, 0).unwrap_err(),
        fscs_monitor::calendar::ConfigError::Unreadable
    );
    assert_eq!(
        fscs_monitor::calendar::calendar_source(r#"{"calendars":{}}"#, 0, 0).unwrap_err(),
        fscs_monitor::calendar::ConfigError::Unreadable
    );
    let (url, _) = fscs_monitor::calendar::calendar_source(r#"{"calendars":[{}]}"#, 0, 0).unwrap();
    assert_eq!(url, "null");
}

#[test]
fn event_time_line() {
    assert_eq!(fscs_monitor::calendar::event_time_text(ts(2023, 3, 31, 16, 0)).unwrap(), "31.03.2023  16:00");
    assert_eq!(fscs_monitor::calendar::event_time_text(i64::MAX), None);
}

#[test]
fn folded_lines_with_tabs_and_crlf_are_joined() {
    let text = "BEGIN:VCALENDAR\r\nBEGIN:VEVENT\r\nSUMMARY:Sitzung des\r\n\tFachschafts\n rats\r\nDTSTART:20230331T160000\r\nEND:VEVENT\r\nEND:VCALENDAR";
    let cal = parse_calendar(text).unwrap();
    let events = extract_data_at(&cal, 0).unwrap();
    assert_eq!(events[1].title, "Sitzung desFachschaftsrats");
}
