use fscs_monitor::calendar::{extract_data, parse_calendar, Event};

fn events_of(text: &str) -> Vec<Event> {
    let calendar = parse_calendar(text).unwrap();
    extract_data(&calendar).unwrap()
}

#[test]
fn test_normal_event() {
    let event = r#"BEGIN:VCALENDAR
VERSION:2.0
CALSCALE:GREGORIAN
PRODID:-//SabreDAV//SabreDAV//EN
X-WR-CALNAME:Fachschaft Informatik (fscs)
X-APPLE-CALENDAR-COLOR:#C37285
REFRESH-INTERVAL;VALUE=DURATION:PT4H
X-PUBLISHED-TTL:PT4H
BEGIN:VTIMEZONE
TZID:Europe/Berlin
BEGIN:DAYLIGHT
TZOFFSETFROM:+0100
TZOFFSETTO:+0200
TZNAME:CEST
DTSTART:19700329T020000
RRULE:FREQ=YEARLY;BYMONTH=3;BYDAY=-1SU
END:DAYLIGHT
BEGIN:STANDARD
TZOFFSETFROM:+0200
TZOFFSETTO:+0100
TZNAME:CET
DTSTART:19701025T030000
RRULE:FREQ=YEARLY;BYMONTH=10;BYDAY=-1SU
END:STANDARD
END:VTIMEZONE
BEGIN:VTIMEZONE
TZID:Africa/Lagos
BEGIN:STANDARD
TZOFFSETFROM:+0100
TZOFFSETTO:+0100
TZNAME:WAT
DTSTART:19700101T000000
END:STANDARD
END:VTIMEZONE
BEGIN:VEVENT
CREATED:20230203T235537Z
DTSTAMP:20230316T092153Z
LAST-MODIFIED:20230316T092153Z
SEQUENCE:7
UID:b2730327-cb87-4573-a408-e30a372f1266
DTSTART;TZID=Europe/Berlin:20230331T160000
DTEND;TZID=Europe/Berlin:20230331T235500
STATUS:CONFIRMED
SUMMARY:Spieleabend
LOCATION:25.12.02.33
END:VEVENT
END:VCALENDAR"#;
    let vec = events_of(event);
    assert_eq!(vec.len(), 2);
    assert_eq!(vec[1].title, "Spieleabend");
    assert_eq!(vec[1].location, "25.12.02.33");
    assert_eq!(vec[1].start, chrono::NaiveDate::from_ymd_opt(2023, 3, 31).unwrap().and_hms_opt(16, 0, 0).unwrap().and_utc().timestamp());
    assert_eq!(vec[1].description, "");
    assert_eq!(vec[1].frequency, "");
}

#[test]
fn test_multiday_event() {
    let event = r#"BEGIN:VCALENDAR
VERSION:2.0
CALSCALE:GREGORIAN
PRODID:-//SabreDAV//SabreDAV//EN
X-WR-CALNAME:Fachschaft Informatik (fscs)
X-APPLE-CALENDAR-COLOR:#C37285
REFRESH-INTERVAL;VALUE=DURATION:PT4H
X-PUBLISHED-TTL:PT4H
BEGIN:VTIMEZONE
TZID:Europe/Berlin
BEGIN:DAYLIGHT
TZOFFSETFROM:+0100
TZOFFSETTO:+0200
TZNAME:CEST
DTSTART:19700329T020000
RRULE:FREQ=YEARLY;BYMONTH=3;BYDAY=-1SU
END:DAYLIGHT
BEGIN:STANDARD
TZOFFSETFROM:+0200
TZOFFSETTO:+0100
TZNAME:CET
DTSTART:19701025T030000
RRULE:FREQ=YEARLY;BYMONTH=10;BYDAY=-1SU
END:STANDARD
END:VTIMEZONE
BEGIN:VTIMEZONE
TZID:Africa/Lagos
BEGIN:STANDARD
TZOFFSETFROM:+0100
TZOFFSETTO:+0100
TZNAME:WAT
DTSTART:19700101T000000
END:STANDARD
END:VTIMEZONE
BEGIN:VEVENT
CREATED:20240219T105326Z
DTSTAMP:20240219T105452Z
LAST-MODIFIED:20240219T105452Z
SEQUENCE:2
UID:ee955755-d77e-4715-898f-158924f1973d
DTSTART;VALUE=DATE:20240508
DTEND;VALUE=DATE:20240513
STATUS:CONFIRMED
SUMMARY:KIF
LOCATION:Kaiserslautern
END:VEVENT
END:VCALENDAR"#;
    let vec = events_of(event);
    assert_eq!(vec.len(), 2);
    assert_eq!(vec[1].title, "KIF");
    assert_eq!(vec[1].location, "Kaiserslautern");
    assert_eq!(vec[1].start, chrono::NaiveDate::from_ymd_opt(2024, 5, 8).unwrap().and_hms_opt(0, 0, 0).unwrap().and_utc().timestamp());
    assert_eq!(vec[1].description, "");
    assert_eq!(vec[1].frequency, "");
}

#[test]
fn test_recurring_events() {
    let event = r#"BEGIN:VCALENDAR
VERSION:2.0
CALSCALE:GREGORIAN
PRODID:-//SabreDAV//SabreDAV//EN
X-WR-CALNAME:Fachschaft Informatik (fscs)
X-APPLE-CALENDAR-COLOR:#C37285
REFRESH-INTERVAL;VALUE=DURATION:PT4H
X-PUBLISHED-TTL:PT4H
BEGIN:VTIMEZONE
TZID:Europe/Berlin
BEGIN:DAYLIGHT
TZOFFSETFROM:+0100
TZOFFSETTO:+0200
TZNAME:CEST
DTSTART:19700329T020000
RRULE:FREQ=YEARLY;BYMONTH=3;BYDAY=-1SU
END:DAYLIGHT
BEGIN:STANDARD
TZOFFSETFROM:+0200
TZOFFSETTO:+0100
TZNAME:CET
DTSTART:19701025T030000
RRULE:FREQ=YEARLY;BYMONTH=10;BYDAY=-1SU
END:STANDARD
END:VTIMEZONE
BEGIN:VTIMEZONE
TZID:Africa/Lagos
BEGIN:STANDARD
TZOFFSETFROM:+0100
TZOFFSETTO:+0100
TZNAME:WAT
DTSTART:19700101T000000
END:STANDARD
END:VTIMEZONE
BEGIN:VEVENT
CREATED:20230414T071228Z
DTSTAMP:20230414T071441Z
LAST-MODIFIED:20230414T071441Z
SEQUENCE:2
UID:3f2a2807-6231-472a-a0b8-1057e0f74083
DTSTART;TZID=Europe/Berlin:20230414T143000
DTEND;TZID=Europe/Berlin:20230414T160000
STATUS:CONFIRMED
SUMMARY:Sitzung
RRULE:FREQ=WEEKLY;BYDAY=FR;UNTIL=20230715T220000Z
END:VEVENT
END:VCALENDAR"#;
    let vec = events_of(event);
    assert_eq!(vec.len(), 2);
    assert_eq!(vec[1].title, "Sitzung");
    assert_eq!(vec[1].location, "");
    assert_eq!(vec[1].next, chrono::NaiveDate::from_ymd_opt(2023, 7, 14).unwrap().and_hms_opt(14, 30, 0).unwrap().and_utc().timestamp());
    assert_eq!(vec[1].description, "");
    assert_eq!(
        vec[1].frequency,
        "FREQ=WEEKLY;BYDAY=FR;UNTIL=20230715T220000Z"
    );
}

