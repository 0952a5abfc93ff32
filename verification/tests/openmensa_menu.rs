use fscs_monitor::mensa::CalendarDate;
use fscs_monitor::openmensa::{
    food_pic_from_page, get_menu_day, meal_at_exec, meal_count_exec, menu_cell, menu_rows,
    menu_text, openmensa_url, MenuCell, MenuProgress, PictureError,
};

fn d(year: i32, month: u32, day: u32) -> CalendarDate {
    CalendarDate { year, month, day }
}

const MEALS: &str = r#"[{"id":1,"name":"Pasta","category":"Tagesgericht","prices":{},"notes":["vegan","Weizen"]},{"id":2,"name":"Schnitzel","category":"Grill","prices":{},"notes":["Schwein"]}]"#;

fn s(v: &[&str]) -> Vec<String> {
    v.iter().map(|x| x.to_string()).collect()
}

#[test]
fn day_asked_for() {
    // Thursday 22 February 2024
    assert_eq!(get_menu_day(d(2024, 2, 22), 10, 0), Some(d(2024, 2, 22)));
    assert_eq!(get_menu_day(d(2024, 2, 22), 14, 30), Some(d(2024, 2, 22)));
    assert_eq!(get_menu_day(d(2024, 2, 22), 14, 31), Some(d(2024, 2, 23)));
    // Friday, Saturday and Sunday: the next Monday, whatever the time
    assert_eq!(get_menu_day(d(2024, 2, 23), 9, 0), Some(d(2024, 2, 26)));
    assert_eq!(get_menu_day(d(2024, 2, 24), 20, 0), Some(d(2024, 2, 26)));
    assert_eq!(get_menu_day(d(2024, 2, 25), 0, 0), Some(d(2024, 2, 26)));
    assert_eq!(get_menu_day(d(2024, 2, 30), 0, 0), None);
}

#[test]
fn api_address() {
    assert_eq!(
        openmensa_url("348", d(2024, 2, 22)).unwrap(),
        "https://openmensa.org/api/v2/canteens/348/days/2024-02-22/meals"
    );
    assert_eq!(openmensa_url("348", d(2024, 13, 1)), None);
}

#[test]
fn meals_are_read_at_their_keys() {
    assert_eq!(meal_count_exec(MEALS), 2);
    let m = meal_at_exec(MEALS, 0).unwrap();
    assert_eq!((m.name.as_str(), m.category.as_str(), m.vegan), ("Pasta", "Tagesgericht", true));
    let m = meal_at_exec(MEALS, 1).unwrap();
    assert_eq!((m.name.as_str(), m.category.as_str(), m.vegan), ("Schnitzel", "Grill", false));
    assert!(meal_at_exec(MEALS, 2).is_none());
}

#[test]
fn menu_is_built_picture_by_picture() {
    match menu_text(MEALS, &[]) {
        MenuProgress::NeedPicture(c) => assert_eq!(c, "Tagesgericht"),
        other => panic!("{:?}", other),
    }
    match menu_text(MEALS, &s(&["https://x/Tagesgericht.jpg"])) {
        MenuProgress::NeedPicture(c) => assert_eq!(c, "Grill"),
        other => panic!("{:?}", other),
    }
    match menu_text(MEALS, &s(&["https://x/Tagesgericht.jpg", "https://x/Grill.jpg"])) {
        MenuProgress::Done(t) => assert_eq!(
            t,
            "Tagesgericht && Pasta && https://x/Tagesgericht.jpg && true\nGrill && Schnitzel && https://x/Grill.jpg && false\n"
        ),
        other => panic!("{:?}", other),
    }
}

#[test]
fn a_picture_without_its_category_closes_the_menu() {
    match menu_text(MEALS, &s(&["error"])) {
        MenuProgress::Done(t) => assert_eq!(t, "mensa is closed"),
        other => panic!("{:?}", other),
    }
}

#[test]
fn meals_without_keys_cannot_be_read() {
    assert!(matches!(menu_text("name", &[]), MenuProgress::NoMeal));
    match menu_text("[]", &[]) {
        MenuProgress::Done(t) => assert_eq!(t, ""),
        other => panic!("{:?}", other),
    }
}

const PAGE: &str = "<div data-date='22.02.2024'><div class=\"counter Tagesgericht\" style=\"background-image:url(\"https://x/t.jpg\")\"></div><div class=\"Grill\"></div></div><div data-date='23.02.2024'></div>";

#[test]
fn pictures_from_the_page() {
    assert_eq!(food_pic_from_page(PAGE, d(2024, 2, 22), "Tagesgericht").unwrap(), "https://x/t.jpg");
    assert_eq!(food_pic_from_page(PAGE, d(2024, 2, 22), "Grill").unwrap_err(), PictureError::NoUrl);
    assert_eq!(food_pic_from_page(PAGE, d(2024, 2, 22), "Wok").unwrap(), PAGE);
    assert_eq!(food_pic_from_page(PAGE, d(2024, 2, 21), "Grill").unwrap_err(), PictureError::NoDay);
    assert_eq!(food_pic_from_page(PAGE, d(2024, 2, 30), "Grill").unwrap_err(), PictureError::InvalidDate);
}

#[test]
fn menu_rows_and_cells() {
    let rows = menu_rows("Grill && Schnitzel && u && false\nWok && Tofu && v && true\n");
    assert_eq!(rows.len(), 3);
    assert_eq!(rows[0], s(&["Grill", "Schnitzel", "u", "false"]));
    assert_eq!(menu_cell(&rows[0]), MenuCell::Plain);
    assert_eq!(menu_cell(&rows[1]), MenuCell::Vegan);
    assert_eq!(menu_cell(&rows[2]), MenuCell::Hidden);
    assert_eq!(menu_cell(&menu_rows("mensa is closed")[0]), MenuCell::Closed);
}
