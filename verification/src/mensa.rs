//! The canteen's menu: which day to show, and the dishes read from the
//! Studierendenwerk's menu page.
use vstd::prelude::*;
use crate::markup::{
    html_select_nested, html_select_nested_spec, matches_view, nested_view, pair_view, HtmlMatch,
    HtmlMatchView,
};
use crate::text::{
    append_chars, chars_of, contains, contains_exec, copy_range, find, first_occurrence,
    replace_all, replace_all_exec, split_field, split_field_exec, string_of, without_char,
    without_char_exec,
};

verus! {

// ---------------------------------------------------------------------------
// Dates through chrono
// ---------------------------------------------------------------------------

/// A calendar date (proleptic Gregorian).
#[derive(Debug, Clone, Copy, PartialEq, Eq, Structural)]
pub struct CalendarDate {
    pub year: i32,
    pub month: u32,
    pub day: u32,
}

/// The weekday of a date as chrono's `number_from_monday` (Monday 1 ...
/// Sunday 7), or `None` when chrono has no such date.
pub uninterp spec fn weekday_number(year: i32, month: u32, day: u32) -> Option<u32>;

/// The date `n` days after a date, or `None` when chrono has no such date
/// or the result leaves its range.
pub uninterp spec fn date_after(year: i32, month: u32, day: u32, n: u64) -> Option<CalendarDate>;

/// The text of a date in the format `%d.%m.%Y` (as `22.02.2024`), or
/// `None` when chrono has no such date.
pub uninterp spec fn dmy_format(year: i32, month: u32, day: u32) -> Option<Seq<char>>;

/// `chrono::NaiveDate::from_ymd_opt`, then `weekday().number_from_monday()`.
/// Trusted: the result is the named `weekday_number`, between 1 and 7.
#[verifier::external_body]
pub(crate) fn iso_weekday(d: CalendarDate) -> (res: Option<u32>)
    ensures
        res == weekday_number(d.year, d.month, d.day),
        res matches Some(w) ==> 1 <= w <= 7,
{
    match chrono::NaiveDate::from_ymd_opt(d.year, d.month, d.day) {
        Some(x) => Some(chrono::Datelike::weekday(&x).number_from_monday()),
        None => None,
    }
}

/// `chrono::NaiveDate::from_ymd_opt`, then `checked_add_days(Days::new(n))`,
/// the result converted to year, month and day.  Trusted: the result is the
/// named `date_after`.
#[verifier::external_body]
pub(crate) fn add_days(d: CalendarDate, n: u64) -> (res: Option<CalendarDate>)
    ensures
        res == date_after(d.year, d.month, d.day, n),
{
    let x = match chrono::NaiveDate::from_ymd_opt(d.year, d.month, d.day) {
        Some(x) => x,
        None => return None,
    };
    match x.checked_add_days(chrono::Days::new(n)) {
        Some(y) => Some(CalendarDate {
            year: chrono::Datelike::year(&y),
            month: chrono::Datelike::month(&y),
            day: chrono::Datelike::day(&y),
        }),
        None => None,
    }
}

/// `chrono::NaiveDate::from_ymd_opt`, then `format("%d.%m.%Y")`.  Trusted:
/// the result is the named `dmy_format`.
#[verifier::external_body]
pub(crate) fn format_dmy(d: CalendarDate) -> (res: Option<String>)
    ensures
        res matches Some(t) ==> dmy_format(d.year, d.month, d.day) == Some(t@),
        res is None ==> dmy_format(d.year, d.month, d.day) is None,
{
    match chrono::NaiveDate::from_ymd_opt(d.year, d.month, d.day) {
        Some(x) => Some(x.format("%d.%m.%Y").to_string()),
        None => None,
    }
}

// ---------------------------------------------------------------------------
// The day to show
// ---------------------------------------------------------------------------

/// After 14:30 the next day's menu is shown.
pub open spec fn after_lunch(hour: u32, minute: u32) -> bool {
    hour >= 15 || (hour == 14 && minute > 30)
}

/// The day whose menu is shown at `hour:minute` on `date`: the next day
/// after 14:30; then, when that is a Saturday or a Sunday, the Monday after.
/// `None` when a date is not one that chrono has.
pub open spec fn target_day(date: CalendarDate, hour: u32, minute: u32) -> Option<CalendarDate> {
    let first = if after_lunch(hour, minute) {
        date_after(date.year, date.month, date.day, 1)
    } else {
        Some(date)
    };
    match first {
        None => None,
        Some(f) => match weekday_number(f.year, f.month, f.day) {
            None => None,
            Some(w) => if w == 6 || w == 7 {
                date_after(f.year, f.month, f.day, (8 - w) as u64)
            } else {
                Some(f)
            },
        },
    }
}

/// The day whose menu is shown at `hour:minute` on `date` (see
/// `target_day`).
pub fn get_target_day(date: CalendarDate, hour: u32, minute: u32) -> (res: Option<CalendarDate>)
    ensures
        res == target_day(date, hour, minute),
{
    let first = if hour >= 15 || (hour == 14 && minute > 30) {
        add_days(date, 1)
    } else {
        Some(date)
    };
    match first {
        None => None,
        Some(f) => match iso_weekday(f) {
            None => None,
            Some(w) => if w == 6 || w == 7 {
                add_days(f, (8 - w) as u64)
            } else {
                Some(f)
            },
        },
    }
}

// ---------------------------------------------------------------------------
// The menu page
// ---------------------------------------------------------------------------

/// A dish: its name, the URL of its picture, and whether it is vegan.
#[derive(Clone, Debug)]
pub struct Food {
    pub name: String,
    pub image_url: String,
    pub vegan: bool,
}

/// The model of a `Food`.
pub struct FoodView {
    pub name: Seq<char>,
    pub image_url: Seq<char>,
    pub vegan: bool,
}

impl View for Food {
    type V = FoodView;

    open spec fn view(&self) -> FoodView {
        FoodView { name: self.name@, image_url: self.image_url@, vegan: self.vegan }
    }
}

/// The models of a sequence of dishes.
pub open spec fn foods_view(fs: Seq<Food>) -> Seq<FoodView> {
    fs.map_values(|f: Food| f@)
}

/// A day's menu.
#[derive(Clone, Debug)]
pub enum Menu {
    Closed,
    Open(Vec<Food>),
}

/// Why the menu cannot be read.
#[derive(Debug, PartialEq, Eq, Structural)]
pub enum MensaError {
    /// The date is not one that chrono has.
    InvalidDate,
    /// A selector does not parse.
    BadSelector,
    /// The page has no menu for the day.
    NoDay,
    /// A counter has no dish name.
    NoName,
    /// A counter has no picture block.
    NoUrl,
    /// A counter's picture block holds no `url(`.
    NoImage,
}

/// The mark of a vegan dish in its name.
pub open spec fn vegan_mark() -> Seq<char> {
    seq![' ', '[', 'V', ']', ' ']
}

/// The text that introduces a picture's address.
pub open spec fn url_open() -> Seq<char> {
    seq!['u', 'r', 'l', '(']
}

/// The name of a dish from its list entry: the text before the first comma,
/// without the vegan mark, cut before the first `(`; and whether the mark
/// was there.
pub open spec fn food_name(entry: Seq<char>) -> (Seq<char>, bool) {
    let first = split_field(entry, seq![','], 0)->0;
    let vegan = contains(first, vegan_mark());
    let cleaned = if vegan {
        replace_all(first, vegan_mark(), Seq::empty())
    } else {
        first
    };
    let shown = match first_occurrence(cleaned, seq!['(']) {
        Some(i) => cleaned.subrange(0, i),
        None => cleaned,
    };
    (shown, vegan)
}

/// The address of a dish's picture from its picture block: the text after
/// the first `url(` up to the next `)`, without quotes; `None` when there is
/// no `url(`.
pub open spec fn food_image(block: Seq<char>) -> Option<Seq<char>> {
    match split_field(block, url_open(), 1) {
        None => None,
        Some(after) => Some(without_char(split_field(after, seq![')'], 0)->0, '"')),
    }
}

/// The first piece of a split is always there.
proof fn lemma_first_field(s: Seq<char>, pat: Seq<char>)
    ensures
        split_field(s, pat, 0) is Some,
{
}

/// The name of a dish and whether it is vegan (see `food_name`).
pub fn food_name_exec(entry: &str) -> (res: (String, bool))
    ensures
        res.0@ == food_name(entry@).0,
        res.1 == food_name(entry@).1,
{
    let e = chars_of(entry);
    let comma = vec![','];
    proof {
        lemma_first_field(e@, comma@);
    }
    let first = match split_field_exec(e.as_slice(), comma.as_slice(), 0) {
        Some(f) => f,
        None => {
            assert(false);
            Vec::new()
        },
    };
    assert(comma@ =~= seq![',']);
    let mark = vec![' ', '[', 'V', ']', ' '];
    let vegan = contains_exec(first.as_slice(), mark.as_slice());
    let cleaned = if vegan {
        let empty: Vec<char> = Vec::new();
        assert(empty@ =~= Seq::<char>::empty());
        replace_all_exec(first.as_slice(), mark.as_slice(), empty.as_slice())
    } else {
        first
    };
    let paren = vec!['('];
    assert(paren@ =~= seq!['(']);
    let shown = match find(cleaned.as_slice(), paren.as_slice()) {
        Some(i) => {
            proof {
                crate::text::lemma_first_occurrence_occurs(cleaned@, paren@);
            }
            copy_range(cleaned.as_slice(), 0, i)
        },
        None => cleaned,
    };
    (string_of(shown.as_slice()), vegan)
}

/// The address of a dish's picture (see `food_image`).
pub fn food_image_exec(block: &str) -> (res: Option<String>)
    ensures
        res matches Some(u) ==> food_image(block@) == Some(u@),
        res is None ==> food_image(block@) is None,
{
    let b = chars_of(block);
    let open = vec!['u', 'r', 'l', '('];
    assert(open@ =~= url_open());
    let after = match split_field_exec(b.as_slice(), open.as_slice(), 1) {
        Some(a) => a,
        None => return None,
    };
    let close = vec![')'];
    assert(close@ =~= seq![')']);
    proof {
        lemma_first_field(after@, close@);
    }
    let inside = match split_field_exec(after.as_slice(), close.as_slice(), 0) {
        Some(x) => x,
        None => {
            assert(false);
            Vec::new()
        },
    };
    let cleaned = without_char_exec(inside.as_slice(), '"');
    Some(string_of(cleaned.as_slice()))
}

/// The selector of a day's block on the menu page.
pub open spec fn day_selector(date_text: Seq<char>) -> Seq<char> {
    seq!['d', 'i', 'v', '[', 'd', 'a', 't', 'a', '-', 'd', 'a', 't', 'e', '=', '"'] + date_text
        + seq!['"', ']']
}

pub open spec fn selector_li() -> Seq<char> {
    seq!['l', 'i']
}

pub open spec fn selector_div() -> Seq<char> {
    seq!['d', 'i', 'v']
}

pub open spec fn selector_counter() -> Seq<char> {
    seq!['d', 'i', 'v', '.', 'c', 'o', 'u', 'n', 't', 'e', 'r']
}

/// The dish of one counter, given the list entries and the blocks inside
/// it: the first entry names it, the first block gives its picture.
pub open spec fn counter_food(counter: (Seq<HtmlMatchView>, Seq<HtmlMatchView>)) -> Result<
    FoodView,
    MensaError,
> {
    let entries = counter.0;
    let blocks = counter.1;
    if entries.len() == 0 {
        Err(MensaError::NoName)
    } else if blocks.len() == 0 {
        Err(MensaError::NoUrl)
    } else {
        match food_image(blocks[0].inner) {
            None => Err(MensaError::NoImage),
            Some(url) => Ok(
                FoodView {
                    name: food_name(entries[0].inner).0,
                    image_url: url,
                    vegan: food_name(entries[0].inner).1,
                },
            ),
        }
    }
}

/// The dishes of the counters `0..n`, in order; the first error if one
/// cannot be read.
pub open spec fn counters_foods(counters: Seq<(Seq<HtmlMatchView>, Seq<HtmlMatchView>)>, n: int) -> Result<
    Seq<FoodView>,
    MensaError,
>
    decreases n,
{
    if n <= 0 {
        Ok(Seq::empty())
    } else {
        match counters_foods(counters, n - 1) {
            Err(e) => Err(e),
            Ok(prev) => match counter_food(counters[n - 1]) {
                Err(e) => Err(e),
                Ok(f) => Ok(prev.push(f)),
            },
        }
    }
}

/// The dishes on the menu page for a date: the counters inside the first
/// block of that day, each with its dish.  `BadSelector` when one of the
/// selectors does not parse.
pub open spec fn page_foods(page: Seq<char>, date: CalendarDate) -> Result<Seq<FoodView>, MensaError> {
    match dmy_format(date.year, date.month, date.day) {
        None => Err(MensaError::InvalidDate),
        Some(t) => match html_select_nested_spec(
            page,
            day_selector(t),
            selector_counter(),
            selector_li(),
            selector_div(),
        ) {
            None => Err(MensaError::BadSelector),
            Some(days) => if days.len() == 0 {
                Err(MensaError::NoDay)
            } else {
                counters_foods(days[0], days[0].len() as int)
            },
        },
    }
}

/// The dish of one counter (see `counter_food`).
fn counter_food_exec(counter: &(Vec<HtmlMatch>, Vec<HtmlMatch>)) -> (res: Result<Food, MensaError>)
    ensures
        match res {
            Ok(f) => counter_food(pair_view(*counter)) == Ok::<FoodView, MensaError>(f@),
            Err(e) => counter_food(pair_view(*counter)) == Err::<FoodView, MensaError>(e),
        },
{
    let entries = &counter.0;
    let blocks = &counter.1;
    if entries.len() == 0 {
        return Err(MensaError::NoName);
    }
    if blocks.len() == 0 {
        return Err(MensaError::NoUrl);
    }
    assert(matches_view(entries@)[0] == entries@[0]@);
    assert(matches_view(blocks@)[0] == blocks@[0]@);
    let url = match food_image_exec(blocks[0].inner.as_str()) {
        Some(u) => u,
        None => return Err(MensaError::NoImage),
    };
    let (name, vegan) = food_name_exec(entries[0].inner.as_str());
    Ok(Food { name, image_url: url, vegan })
}

/// Once a counter cannot be read, the menu fails with that error.
proof fn lemma_counters_error(
    counters: Seq<(Seq<HtmlMatchView>, Seq<HtmlMatchView>)>,
    n: int,
    m: int,
)
    requires
        0 <= n <= m,
        counters_foods(counters, n) is Err,
    ensures
        counters_foods(counters, m) == counters_foods(counters, n),
    decreases m - n,
{
    if n < m {
        lemma_counters_error(counters, n, m - 1);
    }
}

/// The model of a result carrying dishes.
pub open spec fn menu_result_view(r: Result<Menu, MensaError>) -> Result<Seq<FoodView>, MensaError> {
    match r {
        Ok(Menu::Open(fs)) => Ok(foods_view(fs@)),
        Ok(Menu::Closed) => Ok(Seq::empty()),
        Err(e) => Err(e),
    }
}

/// The menu on the Studierendenwerk's page for a date: open, with the
/// dishes of the counters inside the first block of that day.
pub fn get_food_from_html(page: &str, date: CalendarDate) -> (res: Result<Menu, MensaError>)
    ensures
        menu_result_view(res) == page_foods(page@, date),
        res matches Ok(m) ==> m is Open,
{
    let text = match format_dmy(date) {
        Some(t) => t,
        None => return Err(MensaError::InvalidDate),
    };
    let mut sel = vec!['d', 'i', 'v', '[', 'd', 'a', 't', 'a', '-', 'd', 'a', 't', 'e', '=', '"'];
    append_chars(&mut sel, chars_of(text.as_str()).as_slice());
    append_chars(&mut sel, vec!['"', ']'].as_slice());
    assert(sel@ =~= day_selector(text@));
    let selector = string_of(sel.as_slice());
    let counter_sel = string_of(vec!['d', 'i', 'v', '.', 'c', 'o', 'u', 'n', 't', 'e', 'r'].as_slice());
    let li = string_of(vec!['l', 'i'].as_slice());
    let div = string_of(vec!['d', 'i', 'v'].as_slice());
    assert(counter_sel@ =~= selector_counter());
    assert(li@ =~= selector_li());
    assert(div@ =~= selector_div());
    let days = match html_select_nested(
        page,
        selector.as_str(),
        counter_sel.as_str(),
        li.as_str(),
        div.as_str(),
    ) {
        Some(d) => d,
        None => return Err(MensaError::BadSelector),
    };
    if days.len() == 0 {
        return Err(MensaError::NoDay);
    }
    let counters = &days[0];
    let ghost cv = nested_view(days@)[0];
    assert(cv =~= counters@.map_values(|p: (Vec<HtmlMatch>, Vec<HtmlMatch>)| pair_view(p)));
    assert(page_foods(page@, date) == counters_foods(cv, cv.len() as int));
    let mut foods: Vec<Food> = Vec::new();
    let mut i: usize = 0;
    assert(foods_view(foods@) =~= Seq::<FoodView>::empty());
    while i < counters.len()
        invariant
            0 <= i <= counters.len(),
            cv == counters@.map_values(|p: (Vec<HtmlMatch>, Vec<HtmlMatch>)| pair_view(p)),
            cv.len() == counters.len(),
            page_foods(page@, date) == counters_foods(cv, cv.len() as int),
            counters_foods(cv, i as int) == Ok::<Seq<FoodView>, MensaError>(foods_view(foods@)),
        decreases counters.len() - i,
    {
        assert(cv[i as int] == pair_view(counters@[i as int]));
        match counter_food_exec(&counters[i]) {
            Ok(f) => {
                let ghost prev = foods_view(foods@);
                let ghost fv = f@;
                foods.push(f);
                assert(foods_view(foods@) =~= prev.push(fv));
            },
            Err(e) => {
                proof {
                    lemma_counters_error(cv, i + 1, cv.len() as int);
                }
                return Err(e);
            },
        }
        i = i + 1;
    }
    Ok(Menu::Open(foods))
}

/// The address of the menu page of the canteen `id`.
pub fn menu_url(id: &str) -> (res: String)
    ensures
        res@ == "https://www.stw-d.de/gastronomie/speiseplaene/"@ + id@,
{
    let mut v = chars_of("https://www.stw-d.de/gastronomie/speiseplaene/");
    append_chars(&mut v, chars_of(id).as_slice());
    string_of(v.as_slice())
}

// ---------------------------------------------------------------------------
// Laws
// ---------------------------------------------------------------------------

/// Law: before 14:30 (inclusive) on a weekday, the day's own menu is shown.
pub proof fn law_target_same_day(date: CalendarDate, hour: u32, minute: u32)
    requires
        !after_lunch(hour, minute),
        weekday_number(date.year, date.month, date.day) matches Some(w) && 1 <= w <= 5,
    ensures
        target_day(date, hour, minute) == Some(date),
{
}

/// Law: the day shown is never a Saturday or a Sunday, given that chrono's
/// weekdays follow each other (the Monday after a weekend day is a Monday).
pub proof fn law_target_is_weekday(date: CalendarDate, hour: u32, minute: u32)
    requires
        target_day(date, hour, minute) is Some,
        ({
            let first = if after_lunch(hour, minute) {
                date_after(date.year, date.month, date.day, 1)
            } else {
                Some(date)
            };
            match first {
                Some(f) => match weekday_number(f.year, f.month, f.day) {
                    Some(w) => (w == 6 || w == 7) ==> match date_after(
                        f.year,
                        f.month,
                        f.day,
                        (8 - w) as u64,
                    ) {
                        Some(md) => weekday_number(md.year, md.month, md.day) == Some(1u32),
                        None => true,
                    },
                    None => true,
                },
                None => true,
            }
        }),
    ensures
        target_day(date, hour, minute) matches Some(t) ==> weekday_number(t.year, t.month, t.day)
            matches Some(w) && w != 6 && w != 7,
{
}


/// Law: the name of a dish is the first field of its entry (up to the first
/// comma), without the vegan mark ` [V] `, cut just before its first `(`:
/// it is a prefix of that text, holds no `(`, and is followed there by a
/// `(` unless it is all of it.  The dish is vegan exactly when the first
/// field carries the mark.
pub proof fn law_food_name(entry: Seq<char>)
    ensures
        ({
            let first = split_field(entry, seq![','], 0)->0;
            let cleaned = replace_all(first, " [V] "@, Seq::empty());
            let name = food_name(entry).0;
            &&& name.len() <= cleaned.len()
            &&& name == cleaned.take(name.len() as int)
            &&& forall|j: int| 0 <= j < name.len() ==> name[j] != '('
            &&& name.len() < cleaned.len() ==> cleaned[name.len() as int] == '('
            &&& food_name(entry).1 == contains(first, " [V] "@)
        }),
{
    reveal_strlit(" [V] ");
    assert(" [V] "@ =~= vegan_mark());
    let first = split_field(entry, seq![','], 0)->0;
    let cleaned = replace_all(first, vegan_mark(), Seq::empty());
    if !contains(first, vegan_mark()) {
        if first_occurrence(first, vegan_mark()) is Some {
            crate::text::lemma_first_occurrence_occurs(first, vegan_mark());
        }
        assert(cleaned == first);
    }
    let name = food_name(entry).0;
    let paren = seq!['('];
    match first_occurrence(cleaned, paren) {
        Some(i) => {
            crate::text::lemma_first_occurrence_occurs(cleaned, paren);
            assert(name =~= cleaned.take(i));
            assert(cleaned.subrange(i, i + 1) == paren);
            assert(cleaned.subrange(i, i + 1)[0] == cleaned[i]);
            assert(paren[0] == '(');
            assert(cleaned[i] == '(');
            assert forall|j: int| 0 <= j < name.len() implies name[j] != '(' by {
                assert(!crate::text::occurs_at(cleaned, paren, j));
                if name[j] == '(' {
                    assert(cleaned.subrange(j, j + 1) =~= paren);
                }
            }
        },
        None => {
            assert(name =~= cleaned.take(cleaned.len() as int));
            assert forall|j: int| 0 <= j < name.len() implies name[j] != '(' by {
                if name[j] == '(' {
                    assert(cleaned.subrange(j, j + 1) =~= paren);
                    assert(crate::text::occurs_at(cleaned, paren, j));
                    crate::text::lemma_min_occurrence(cleaned, paren, j);
                }
            }
        },
    }
}

} // verus!
