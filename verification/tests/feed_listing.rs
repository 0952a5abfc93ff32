use fscs_monitor::cal::{
    entry_event_exec, feed_events_exec, feed_row_layout, feed_rows, feed_stamp_text_exec,
    memes_from_feed, memes_url, memes_url_now, FeedError, FeedLayout, FEED_DEFAULT_START,
};
use fscs_monitor::text::chars_of;

fn ts(y: i32, mo: u32, d: u32, h: u32, mi: u32) -> i64 {
    chrono::NaiveDate::from_ymd_opt(y, mo, d).unwrap().and_hms_opt(h, mi, 0).unwrap().and_utc().timestamp()
}

const FEED: &str = "BEGIN:VCALENDAR\nUID:a\nSUMMARY:Spieleabend\nDTSTART;TZID=Europe/Berlin:20230331T160000\nLOCATION:25.12.02.33|Raum\nDESCRIPTION:Spiele\\, Snacks\nEND:VEVENT\nUID:b\nSUMMARY:Sitzung\nDTSTART;TZID=Europe/Berlin:20230330T100000\nEND:VEVENT\nEND:VCALENDAR";

#[test]
fn placeholder_start_is_the_first_of_2021() {
    let t = chrono::DateTime::parse_from_rfc3339("2021-01-01T00:00:00Z").unwrap().timestamp();
    assert_eq!(FEED_DEFAULT_START, t);
}

#[test]
fn listing_of_a_feed() {
    let listing = memes_from_feed(FEED).unwrap();
    assert_eq!(
        listing,
        "Sitzung && 30.03.2023 10:00 && TBA && \nSpieleabend && 31.03.2023 16:00 && 25.12.02.33 && Spiele, Snacks\n"
    );
}

#[test]
fn events_of_a_feed_are_sorted_after_the_placeholder() {
    let events = feed_events_exec(FEED).unwrap();
    assert_eq!(events.len(), 3);
    assert_eq!(events[0].title, "");
    assert_eq!(events[0].start, FEED_DEFAULT_START);
    assert_eq!(events[1].title, "Sitzung");
    assert_eq!(events[1].start, ts(2023, 3, 30, 10, 0));
    assert_eq!(events[2].location, "25.12.02.33");
    assert_eq!(events[2].description, "Spiele, Snacks");
}

#[test]
fn repeated_titles_are_listed_once() {
    let feed = "UID:1\nSUMMARY:Kaffee\nDTSTART;TZID=Europe/Berlin:20230301T090000\nUID:2\nSUMMARY:Kaffee\nDTSTART;TZID=Europe/Berlin:20230302T090000\nUID:3\nSUMMARY:Tee\nDTSTART;TZID=Europe/Berlin:20230303T090000\n";
    let listing = memes_from_feed(feed).unwrap();
    assert_eq!(listing, "Kaffee && 01.03.2023 09:00 && TBA && \nTee && 03.03.2023 09:00 && TBA && \n");
}

#[test]
fn an_event_before_2021_puts_the_placeholder_second() {
    let feed = "UID:1\nSUMMARY:Alt\nDTSTART;TZID=Europe/Berlin:20200301T090000\n";
    let listing = memes_from_feed(feed).unwrap();
    assert_eq!(listing, " && 01.01.2021 00:00 &&  && \n");
}

#[test]
fn at_most_seven_entries_are_read() {
    let mut feed = String::new();
    for d in 1..=9 {
        feed.push_str(&format!("UID:{}\nSUMMARY:E{}\nDTSTART;TZID=Europe/Berlin:202303{:02}T090000\n", d, d, d));
    }
    let events = feed_events_exec(&feed).unwrap();
    assert_eq!(events.len(), 8);
    assert_eq!(events[7].title, "E7");
    let bad_late = format!("{}UID:x\nSUMMARY:bad\nDTSTART;TZID=Europe/Berlin:2023\n", feed);
    assert!(feed_events_exec(&bad_late).is_ok());
}

#[test]
fn unreadable_feed_start_is_an_error() {
    let feed = "UID:1\nSUMMARY:X\nDTSTART;TZID=Europe/Berlin:2023\n";
    assert_eq!(memes_from_feed(feed).unwrap_err(), FeedError::BadDate);
    let feed = "UID:1\nDTSTART;TZID=Europe/Berlin:20231399T250000\n";
    assert_eq!(memes_from_feed(feed).unwrap_err(), FeedError::BadDate);
}

#[test]
fn a_feed_without_titles_has_no_listing() {
    assert_eq!(memes_from_feed("BEGIN:VCALENDAR\nUID:1\nLOCATION:x\n").unwrap_err(), FeedError::NoEvents);
    assert_eq!(memes_from_feed("").unwrap_err(), FeedError::NoEvents);
}

#[test]
fn stamps_are_reshaped_by_byte_ranges() {
    assert_eq!(feed_stamp_text_exec(&chars_of("20230331T160000")).unwrap(), "2023-03-31T16:00:00Z");
    assert_eq!(feed_stamp_text_exec(&chars_of("20230331T1600005")).unwrap(), "2023-03-31T16:00:00Z");
    assert_eq!(feed_stamp_text_exec(&chars_of("20230331T1600")), None);
    assert_eq!(feed_stamp_text_exec(&chars_of("2023033äT160000")), None);
}

#[test]
fn entries_without_markers() {
    let e = entry_event_exec(&chars_of("only text")).unwrap();
    assert_eq!(e.title, "");
    assert_eq!(e.location, "TBA");
    assert_eq!(e.start, FEED_DEFAULT_START);
}

#[test]
fn feed_address() {
    assert_eq!(
        memes_url(1700000000),
        "https://nextcloud.inphima.de/remote.php/dav/public-calendars/CAx5MEp7cGrQ6cEe?start=1700000000&export=&componentType=VEVENT"
    );
    let now = memes_url_now();
    assert!(now.starts_with("https://nextcloud.inphima.de/remote.php/dav/public-calendars/CAx5MEp7cGrQ6cEe?start=1"));
    assert!(now.ends_with("&export=&componentType=VEVENT"));
}

#[test]
fn rows_and_their_layout() {
    let rows = feed_rows("Sitzung && 30.03.2023 10:00 && TBA && \nEin sehr langer Veranstaltungstitel && 31.03.2023 16:00 && Hörsaal 5A im Gebäude 25.22 && x\n");
    assert_eq!(rows.len(), 4);
    assert_eq!(rows[0], vec![String::new()]);
    assert_eq!(rows[1], vec!["Sitzung", "30.03.2023 10:00", "TBA", ""]);
    assert_eq!(rows[3], vec![String::new()]);
    assert_eq!(feed_row_layout(&rows[0]), FeedLayout::Hidden);
    assert_eq!(feed_row_layout(&rows[1]), FeedLayout::Plain);
    assert_eq!(feed_row_layout(&rows[2]), FeedLayout::Scrolling);
    let long_place: Vec<String> = vec!["Kurz".into(), "d".into(), "Hörsaal 5A im Gebäude".into()];
    assert_eq!(feed_row_layout(&long_place), FeedLayout::SeeCalendar);
    let exact: Vec<String> = vec!["abcdefghijklmnopqrst".into(), "d".into(), "ä234567890123456".into()];
    assert_eq!(feed_row_layout(&exact), FeedLayout::Plain);
}

#[test]
fn nothing_after_the_seventh_titled_entry_is_read() {
    let mut feed = String::new();
    for d in 1..=7 {
        feed.push_str(&format!("UID:{}\nSUMMARY:E{}\nDTSTART;TZID=Europe/Berlin:202303{:02}T090000\n", d, d, d));
    }
    let base = memes_from_feed(&feed).unwrap();
    for x in ["SUMMARY:Later\nDTSTART;TZID=Europe/Berlin:20230101T090000\n", "garbage\nDTSTART;TZID=Europe/Berlin:bad", ""] {
        let longer = format!("{}UID:{}", feed, x);
        assert_eq!(memes_from_feed(&longer).unwrap(), base);
    }
}
