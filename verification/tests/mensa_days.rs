use fscs_monitor::mensa::{get_target_day, CalendarDate};

fn target(year: i32, month: u32, day: u32, hour: u32, minute: u32) -> CalendarDate {
    get_target_day(CalendarDate { year, month, day }, hour, minute).unwrap()
}

#[test]
fn test_get_target_day() {
    // 2024-02-22T14:31:00+01:00, a Thursday afternoon
    let target_day = target(2024, 2, 22, 14, 31);
    assert_eq!(target_day.day, 23);
}

#[test]
fn test_get_target_day_with_weekend_skip_fr() {
    // 2024-02-23T14:31:00+01:00, a Friday afternoon
    let target_day = target(2024, 2, 23, 14, 31);
    assert_eq!(target_day.day, 26);
}

#[test]
fn test_get_target_day_with_weekend_skip_sa() {
    // 2024-02-24T14:31:00+01:00, a Saturday
    let target_day = target(2024, 2, 24, 14, 31);
    assert_eq!(target_day.day, 26);
}

#[test]
fn test_get_target_day_with_weekend_skip_so() {
    // 2024-02-25T14:31:00+01:00, a Sunday
    let target_day = target(2024, 2, 25, 14, 31);
    assert_eq!(target_day.day, 26);
}

#[test]
fn target_day_before_half_past_two_is_today() {
    assert_eq!(target(2024, 2, 22, 14, 30), CalendarDate { year: 2024, month: 2, day: 22 });
    assert_eq!(target(2024, 2, 22, 9, 0), CalendarDate { year: 2024, month: 2, day: 22 });
}

#[test]
fn target_day_saturday_morning_is_monday() {
    assert_eq!(target(2024, 2, 24, 8, 0), CalendarDate { year: 2024, month: 2, day: 26 });
}

#[test]
fn target_day_crosses_month_and_year() {
    // Tuesday 2024-12-31, late: Wednesday 2025-01-01
    assert_eq!(target(2024, 12, 31, 15, 0), CalendarDate { year: 2025, month: 1, day: 1 });
    // Thursday 2024-02-29 (leap day), late: Friday 2024-03-01
    assert_eq!(target(2024, 2, 29, 16, 0), CalendarDate { year: 2024, month: 3, day: 1 });
}

#[test]
fn target_day_of_an_invalid_date_is_none() {
    assert_eq!(get_target_day(CalendarDate { year: 2024, month: 2, day: 30 }, 9, 0), None);
}
