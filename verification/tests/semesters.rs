use chrono::{Datelike, NaiveDate};
use fscs_monitor::semester::{
    current_semester, current_semester_in_bounds, progress_days, semesters_from_page, start_seconds,
    Semester, SemesterError,
};

fn day(y: i32, m: u32, d: u32) -> i32 {
    NaiveDate::from_ymd_opt(y, m, d).unwrap().num_days_from_ce()
}

const PAGE: &str = "<html><body><h2>Vorlesungszeiten</h2><table><tr><td>Wintersemester</td><td>01.10.2023 – 31.03.2024</td></tr><tr><td>Sommersemester&nbsp;</td><td>15.04.2024 – 30.09.2024</td></tr></table><table><tr><td>Other</td><td>01.01.2000 – 02.01.2000</td></tr></table></body></html>";

fn semester(name: &str, start: i32, end: i32) -> Semester {
    Semester { start, end, name: name.to_string() }
}

#[test]
fn semesters_of_the_first_table() {
    let s = semesters_from_page(PAGE).unwrap();
    assert_eq!(s.len(), 2);
    assert_eq!(s[0].name, "Wintersemester");
    assert_eq!(s[0].start, day(2023, 10, 1));
    assert_eq!(s[0].end, day(2024, 3, 31));
    assert_eq!(s[1].name, "Sommersemester");
    assert_eq!(s[1].start, day(2024, 4, 15));
    assert_eq!(s[1].end, day(2024, 9, 30));
}

#[test]
fn page_without_table() {
    assert_eq!(semesters_from_page("<p>nothing</p>").unwrap_err(), SemesterError::NoTable);
}

#[test]
fn name_without_dates() {
    let page = "<table><tr><td>Wintersemester</td></tr></table>";
    assert_eq!(semesters_from_page(page).unwrap_err(), SemesterError::MissingDates);
}

#[test]
fn impossible_date() {
    let page = "<table><tr><td>Wintersemester</td><td>31.02.2023 – 31.03.2024</td></tr></table>";
    assert_eq!(semesters_from_page(page).unwrap_err(), SemesterError::BadDate);
}

#[test]
fn current_semester_inside() {
    let s = vec![semester("Winter", day(2023, 10, 1), day(2024, 3, 31)), semester("Sommer", day(2024, 4, 15), day(2024, 9, 30))];
    let c = current_semester(&s, day(2024, 1, 15)).unwrap();
    assert_eq!(c.name, "Winter");
    assert_eq!(c.start, day(2023, 10, 1));
    let c = current_semester(&s, day(2024, 4, 16)).unwrap();
    assert_eq!(c.name, "Sommer");
    // on the first day of the next semester the break before it is found first
    let c = current_semester(&s, day(2024, 4, 15)).unwrap();
    assert_eq!(c.name, "Winter");
    assert_eq!(c.end, day(2024, 4, 15));
}

#[test]
fn current_semester_in_a_break() {
    let s = vec![semester("Winter", day(2023, 10, 1), day(2024, 3, 31)), semester("Sommer", day(2024, 4, 15), day(2024, 9, 30))];
    let c = current_semester(&s, day(2024, 4, 5)).unwrap();
    assert_eq!(c.name, "Winter");
    assert_eq!(c.start, day(2024, 3, 31));
    assert_eq!(c.end, day(2024, 4, 15));
}

#[test]
fn no_current_semester() {
    let s = vec![semester("Winter", day(2023, 10, 1), day(2024, 3, 31)), semester("Sommer", day(2024, 4, 15), day(2024, 9, 30))];
    assert!(current_semester_in_bounds(&s, day(2023, 9, 1)));
    assert_eq!(current_semester(&s, day(2023, 9, 1)).unwrap_err(), SemesterError::NoSemester);
}

#[test]
fn after_the_last_semester_the_search_runs_out() {
    let s = vec![semester("Winter", day(2023, 10, 1), day(2024, 3, 31))];
    assert!(!current_semester_in_bounds(&s, day(2024, 5, 1)));
    assert!(current_semester_in_bounds(&s, day(2024, 1, 1)));
}

#[test]
fn progress_of_a_semester() {
    let s = semester("Winter", day(2023, 10, 1), day(2024, 3, 31));
    assert_eq!(progress_days(&s, day(2023, 10, 11)), Some((10, 182)));
    assert_eq!(progress_days(&semester("x", 5, 5), 5), None);
}

#[test]
fn start_of_a_semester_in_unix_seconds() {
    let s = semester("Winter", day(2023, 10, 1), day(2024, 3, 31));
    let expected = NaiveDate::from_ymd_opt(2023, 10, 1).unwrap().and_hms_opt(0, 0, 0).unwrap().and_utc().timestamp();
    assert_eq!(start_seconds(&s), expected);
}
