use fscs_monitor::mensa::{food_image_exec, food_name_exec, get_food_from_html, menu_url, CalendarDate, MensaError, Menu};

const PAGE: &str = r#"<html><body>
<div data-date="22.02.2024">
  <div class="counter"><ul><li>Pasta [V] mit Tomatensoße (Gl, So), vegan</li></ul><div class="image">background-image: url("https://img/pasta.jpg")</div></div>
  <div class="counter"><ul><li>Currywurst (Sch)</li></ul><div>url(https://img/wurst.jpg)</div></div>
</div>
<div data-date="23.02.2024">
  <div class="counter"><ul><li>Suppe</li></ul></div>
</div>
<div data-date="26.02.2024">
  <div class="counter"><ul><li>Salat</li></ul><div>kein Bild</div></div>
</div>
</body></html>"#;

fn date(day: u32) -> CalendarDate {
    CalendarDate { year: 2024, month: 2, day }
}

#[test]
fn dishes_of_the_day() {
    match get_food_from_html(PAGE, date(22)).unwrap() {
        Menu::Open(foods) => {
            assert_eq!(foods.len(), 2);
            assert_eq!(foods[0].name, "Pastamit Tomatensoße ");
            assert_eq!(foods[0].image_url, "https://img/pasta.jpg");
            assert!(foods[0].vegan);
            assert_eq!(foods[1].name, "Currywurst ");
            assert_eq!(foods[1].image_url, "https://img/wurst.jpg");
            assert!(!foods[1].vegan);
        }
        Menu::Closed => panic!("expected an open menu"),
    }
}

#[test]
fn a_day_without_menu() {
    assert_eq!(get_food_from_html(PAGE, date(24)).unwrap_err(), MensaError::NoDay);
}

#[test]
fn a_counter_without_picture_block() {
    assert_eq!(get_food_from_html(PAGE, date(23)).unwrap_err(), MensaError::NoUrl);
}

#[test]
fn a_picture_block_without_address() {
    assert_eq!(get_food_from_html(PAGE, date(26)).unwrap_err(), MensaError::NoImage);
}

#[test]
fn an_impossible_date() {
    assert_eq!(get_food_from_html(PAGE, date(30)).unwrap_err(), MensaError::InvalidDate);
}

#[test]
fn dish_names() {
    assert_eq!(food_name_exec("Linsen [V] Curry, Reis"), ("LinsenCurry".to_string(), true));
    assert_eq!(food_name_exec("Schnitzel (Sw) mit Pommes"), ("Schnitzel ".to_string(), false));
    assert_eq!(food_name_exec(""), ("".to_string(), false));
}

#[test]
fn dish_pictures() {
    assert_eq!(food_image_exec("style=\"url('a.png')\" url(b.png)"), Some("'a.png'".to_string()));
    assert_eq!(food_image_exec("url(\"c.png\""), Some("c.png".to_string()));
    assert_eq!(food_image_exec("no picture"), None);
}

#[test]
fn menu_page_address() {
    assert_eq!(menu_url("essenausgabe-sued-duesseldorf"), "https://www.stw-d.de/gastronomie/speiseplaene/essenausgabe-sued-duesseldorf");
}
