use fscs_monitor::trains::{
    departures_from_json, departures_url, row_style, shown_direction, station_name_from_json,
    RowStyle, Train, TrainError,
};

fn departure(real: Option<(&str, &str, &str)>, planned: (&str, &str, &str), number: &str, direction: &str, name: &str, status: &str) -> String {
    let real = match real {
        Some((d, h, m)) => format!("\"realDateTime\":{{\"day\":\"{}\",\"hour\":\"{}\",\"minute\":\"{}\"}},", d, h, m),
        None => String::new(),
    };
    format!(
        "{{{}\"dateTime\":{{\"day\":\"{}\",\"hour\":\"{}\",\"minute\":\"{}\"}},\"servingLine\":{{\"number\":\"{}\",\"direction\":\"{}\",\"name\":\"{}\"}},\"realtimeTripStatus\":\"{}\"}}",
        real, planned.0, planned.1, planned.2, number, direction, name, status
    )
}

fn document() -> String {
    let list = vec![
        // A: 20 minutes away, planned for 15: five minutes late
        departure(Some(("10", "12", "20")), ("10", "12", "15"), "U79", "Duisburg", "U-Bahn", "MONITORED"),
        // B: no real time, planned in 30 minutes
        departure(None, ("10", "12", "30"), "RE1 (RRX)", "Aachen Hbf", "Regionalzug", "MONITORED"),
        // C: cancelled
        departure(Some(("10", "12", "40")), ("10", "12", "40"), "707", "Unterrath", "Straßenbahn", "TRIP_CANCELLED"),
        // D: after midnight
        departure(Some(("11", "0", "10")), ("11", "0", "0"), "S8", "Hagen", "S-Bahn", "MONITORED"),
        // E: towards the university, 40 minutes away
        departure(Some(("10", "12", "40")), ("10", "12", "40"), "735", "Uni Ost", "Bus", "MONITORED"),
        // F: two minutes away
        departure(Some(("10", "12", "2")), ("10", "12", "2"), "736", "Benrath", "Bus", "MONITORED"),
    ];
    format!("{{\"departureList\":[{}]}}", list.join(","))
}

fn lines(trains: &[Train]) -> Vec<String> {
    trains.iter().map(|t| t.line.clone()).collect()
}

#[test]
fn departure_times_and_delays() {
    let trains = departures_from_json(&document(), "20018269", 6, 10, 12, 0).unwrap();
    assert_eq!(lines(&trains), vec!["U79", "RE1", "S8", "735"]);
    assert_eq!(trains[0].time, 20);
    assert_eq!(trains[0].delay, 5);
    assert!(!trains[0].onplanned);
    assert_eq!(trains[0].direction, "Duisburg ");
    assert_eq!(trains[0].train_type, "U-Bahn");
    assert_eq!(trains[1].time, 30);
    assert_eq!(trains[1].delay, 0);
    assert_eq!(trains[1].direction, "Aachen Hbf ");
    // across midnight: 1440 - (12 * 60 + 0) + (0 * 60 + 10)
    assert_eq!(trains[2].time, 730);
    // the planned minutes across midnight take the real hour and minute
    assert_eq!(trains[2].delay, 0);
}

#[test]
fn general_stop_hides_university_bound_and_close_departures() {
    let trains = departures_from_json(&document(), "20018296", 6, 10, 12, 0).unwrap();
    assert_eq!(lines(&trains), vec!["U79", "RE1", "S8"]);
}

#[test]
fn main_station_shows_only_trains() {
    let trains = departures_from_json(&document(), "20018249", 6, 10, 12, 0).unwrap();
    assert_eq!(lines(&trains), vec!["RE1", "S8"]);
}

#[test]
fn a_late_departure_is_marked() {
    let doc = format!(
        "{{\"departureList\":[{}]}}",
        departure(Some(("10", "12", "30")), ("10", "12", "20"), "U71", "Rath", "U-Bahn", "MONITORED")
    );
    let trains = departures_from_json(&doc, "20018296", 1, 10, 12, 0).unwrap();
    assert_eq!(trains[0].delay, 10);
    assert!(trains[0].onplanned);
    assert_eq!(row_style(&trains[0]), RowStyle::Delayed);
}

#[test]
fn at_most_nine_departures() {
    let list: Vec<String> = (0..12)
        .map(|i| {
            let minute = format!("{}", 10 + i);
            departure(Some(("10", "12", &minute)), ("10", "12", &minute), &format!("L{}", i), "Mitte", "Bus", "MONITORED")
        })
        .collect();
    let doc = format!("{{\"departureList\":[{}]}}", list.join(","));
    let trains = departures_from_json(&doc, "20018296", 12, 10, 12, 0).unwrap();
    assert_eq!(trains.len(), 9);
    assert_eq!(trains[8].line, "L8");
}

#[test]
fn too_few_departures_is_an_error() {
    assert_eq!(departures_from_json(&document(), "20018296", 7, 10, 12, 0).unwrap_err(), TrainError::BadNumber);
}

#[test]
fn no_limit_gives_no_departures() {
    assert_eq!(departures_from_json(&document(), "20018296", 0, 10, 12, 0).unwrap().len(), 0);
}

#[test]
fn not_json_is_an_error() {
    assert_eq!(departures_from_json("<html>", "20018296", 6, 10, 12, 0).unwrap_err(), TrainError::InvalidJson);
    assert_eq!(station_name_from_json("<html>").unwrap_err(), TrainError::InvalidJson);
}

#[test]
fn huge_hours_overflow() {
    let doc = format!(
        "{{\"departureList\":[{}]}}",
        departure(Some(("10", "2000000000", "0")), ("10", "12", "0"), "U71", "Rath", "U-Bahn", "MONITORED")
    );
    assert_eq!(departures_from_json(&doc, "20018296", 1, 10, 12, 0).unwrap_err(), TrainError::Overflow);
}

#[test]
fn station_name_without_quotes() {
    let doc = "{\"departureList\":[{\"stopName\":\"Düsseldorf, Uni Ost\"}]}";
    assert_eq!(station_name_from_json(doc).unwrap(), "Düsseldorf, Uni Ost");
}

#[test]
fn monitor_url() {
    assert_eq!(
        departures_url("20018296", 60),
        "https://app.vrr.de/vrrstd/XML_DM_REQUEST?outputFormat=JSON&commonMacro=dm&type_dm=any&name_dm=20018296&language=de&useRealtime=1&lsShowTrainsExplicit=1&mode=direct&typeInfo_dm=stopID&limit=60"
    );
}

#[test]
fn long_directions_are_cut() {
    assert_eq!(shown_direction("Düsseldorf Hbf "), "Düsseldorf Hbf ");
    assert_eq!(shown_direction("Mönchengladbach Hbf "), "Mönchengladbach Hbf");
    assert_eq!(shown_direction("Krefeld Rheinstraße Nord"), "Krefeld Rheinstraße");
}

#[test]
fn cancelled_rows_are_hidden() {
    let mut t = Train::default();
    t.canceled = true;
    t.onplanned = true;
    assert_eq!(row_style(&t), RowStyle::Hidden);
    assert_eq!(row_style(&Train::default()), RowStyle::Normal);
}
