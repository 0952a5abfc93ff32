//! The canteen's menu from the OpenMensa API: which day to ask for, the
//! meals read from the API's JSON text by cutting it at its keys, each
//! meal's picture looked up in the Studierendenwerk's page, and the lines
//! shown from them.
use vstd::prelude::*;
use crate::mensa::{
    add_days, after_lunch, date_after, dmy_format, food_image, food_image_exec, format_dmy,
    iso_weekday, weekday_number, CalendarDate,
};
use crate::text::{
    append_chars, chars_of, contains, contains_exec, split_all, split_all_exec, split_field,
    split_field_exec, string_of, without_char, without_char_exec,
};

verus! {

// ---------------------------------------------------------------------------
// The day
// ---------------------------------------------------------------------------

/// The text of a date in the format `%Y-%m-%d` (as `2024-02-22`), or `None`
/// when chrono has no such date.
pub uninterp spec fn ymd_format(year: i32, month: u32, day: u32) -> Option<Seq<char>>;

/// `chrono::NaiveDate::from_ymd_opt`, then `format("%Y-%m-%d")`.  Trusted:
/// the result is the named `ymd_format`.
#[verifier::external_body]
fn format_ymd(d: CalendarDate) -> (res: Option<String>)
    ensures
        res matches Some(t) ==> ymd_format(d.year, d.month, d.day) == Some(t@),
        res is None ==> ymd_format(d.year, d.month, d.day) is None,
{
    match chrono::NaiveDate::from_ymd_opt(d.year, d.month, d.day) {
        Some(x) => Some(x.format("%Y-%m-%d").to_string()),
        None => None,
    }
}

/// The day whose meals are asked for at `hour:minute` on `date`: from
/// Friday to Sunday the next Monday; on another day after 14:30 the next
/// day; else the day itself.  `None` when a date is not one that chrono
/// has.
pub open spec fn menu_day(date: CalendarDate, hour: u32, minute: u32) -> Option<CalendarDate> {
    match weekday_number(date.year, date.month, date.day) {
        None => None,
        Some(w) => if w >= 5 {
            date_after(date.year, date.month, date.day, (8 - w) as u64)
        } else if after_lunch(hour, minute) {
            date_after(date.year, date.month, date.day, 1)
        } else {
            Some(date)
        },
    }
}

/// The day whose meals are asked for (see `menu_day`).
pub fn get_menu_day(date: CalendarDate, hour: u32, minute: u32) -> (res: Option<CalendarDate>)
    ensures
        res == menu_day(date, hour, minute),
{
    match iso_weekday(date) {
        None => None,
        Some(w) => if w >= 5 {
            add_days(date, (8 - w) as u64)
        } else if hour > 14 || (hour == 14 && minute > 30) {
            add_days(date, 1)
        } else {
            Some(date)
        },
    }
}

/// The API address of the meals of canteen `id` on `day`, or `None` when
/// the day is not one that chrono has.
pub fn openmensa_url(id: &str, day: CalendarDate) -> (res: Option<String>)
    ensures
        match ymd_format(day.year, day.month, day.day) {
            None => res is None,
            Some(d) => res matches Some(u) && u@ == "https://openmensa.org/api/v2/canteens/"@
                + id@ + "/days/"@ + d + "/meals"@,
        },
{
    let d = match format_ymd(day) {
        Some(d) => d,
        None => return None,
    };
    let mut out = chars_of("https://openmensa.org/api/v2/canteens/");
    append_chars(&mut out, chars_of(id).as_slice());
    append_chars(&mut out, chars_of("/days/").as_slice());
    append_chars(&mut out, chars_of(d.as_str()).as_slice());
    append_chars(&mut out, chars_of("/meals").as_slice());
    Some(string_of(out.as_slice()))
}

// ---------------------------------------------------------------------------
// Meals
// ---------------------------------------------------------------------------

/// A meal: its name, its category (the counter, which the picture page
/// knows it by), and whether its notes mention `vegan`.
#[derive(Clone, Debug)]
pub struct Meal {
    pub name: String,
    pub category: String,
    pub vegan: bool,
}

/// The model of a `Meal`.
pub struct MealView {
    pub name: Seq<char>,
    pub category: Seq<char>,
    pub vegan: bool,
}

impl View for Meal {
    type V = MealView;

    open spec fn view(&self) -> MealView {
        MealView { name: self.name@, category: self.category@, vegan: self.vegan }
    }
}

/// The value after a key: the text up to the first comma, without quotes.
pub open spec fn key_value(piece: Seq<char>) -> Seq<char> {
    match split_field(piece, seq![','], 0) {
        Some(f) => without_char(f, '"'),
        None => without_char(piece, '"'),
    }
}

/// How many meals the text names: the number of times `name` occurs in it.
pub open spec fn meal_count(text: Seq<char>) -> int {
    split_all(text, "name"@).len() - 1
}

/// Meal `i` (from 0) of the API's text: the values after the `i + 1`-th
/// `name":`, `category":` and `notes":` keys, and whether the notes mention
/// `vegan`; `None` when one of these keys occurs fewer times.
pub open spec fn meal_at(text: Seq<char>, i: nat) -> Option<MealView> {
    match (
        split_field(text, "name\":"@, i + 1),
        split_field(text, "category\":"@, i + 1),
        split_field(text, "notes\":"@, i + 1),
    ) {
        (Some(n), Some(c), Some(notes)) => Some(
            MealView {
                name: key_value(n),
                category: key_value(c),
                vegan: contains(notes, "vegan"@),
            },
        ),
        _ => None,
    }
}

fn key_value_exec(piece: &[char]) -> (res: Vec<char>)
    ensures
        res@ == key_value(piece@),
{
    let comma = vec![','];
    assert(comma@ =~= seq![',']);
    match split_field_exec(piece, comma.as_slice(), 0) {
        Some(f) => without_char_exec(f.as_slice(), '"'),
        None => without_char_exec(piece, '"'),
    }
}

/// How many meals the text names (see `meal_count`).
pub fn meal_count_exec(text: &str) -> (res: usize)
    ensures
        res == meal_count(text@),
{
    let t = chars_of(text);
    let key = chars_of("name");
    proof {
        reveal_strlit("name");
    }
    let pieces = split_all_exec(t.as_slice(), key.as_slice());
    proof {
        lemma_split_all_nonempty(t@, key@);
    }
    pieces.len() - 1
}

/// Splitting always gives at least one piece.
proof fn lemma_split_all_nonempty(s: Seq<char>, pat: Seq<char>)
    ensures
        split_all(s, pat).len() >= 1,
    decreases s.len(),
{
    if pat.len() > 0 {
        if let Some(i) = crate::text::first_occurrence(s, pat) {
            if 0 <= i && i + pat.len() <= s.len() {
                lemma_split_all_nonempty(s.subrange(i + pat.len(), s.len() as int), pat);
            }
        }
    }
}

/// Meal `i` of the API's text (see `meal_at`).
pub fn meal_at_exec(text: &str, i: usize) -> (res: Option<Meal>)
    requires
        i < usize::MAX,
    ensures
        res matches Some(m) ==> meal_at(text@, i as nat) == Some(m@),
        res is None ==> meal_at(text@, i as nat) is None,
{
    let t = chars_of(text);
    let name_key = chars_of("name\":");
    let category_key = chars_of("category\":");
    let notes_key = chars_of("notes\":");
    let vegan = chars_of("vegan");
    proof {
        reveal_strlit("name\":");
        reveal_strlit("category\":");
        reveal_strlit("notes\":");
    }
    let n = split_field_exec(t.as_slice(), name_key.as_slice(), i + 1);
    let c = split_field_exec(t.as_slice(), category_key.as_slice(), i + 1);
    let notes = split_field_exec(t.as_slice(), notes_key.as_slice(), i + 1);
    match (n, c, notes) {
        (Some(n), Some(c), Some(notes)) => {
            let name = key_value_exec(n.as_slice());
            let category = key_value_exec(c.as_slice());
            Some(
                Meal {
                    name: string_of(name.as_slice()),
                    category: string_of(category.as_slice()),
                    vegan: contains_exec(notes.as_slice(), vegan.as_slice()),
                },
            )
        },
        _ => None,
    }
}

// ---------------------------------------------------------------------------
// Pictures
// ---------------------------------------------------------------------------

/// Why a picture cannot be looked up.
#[derive(Debug, Clone, Copy, PartialEq, Eq, Structural)]
pub enum PictureError {
    /// The date is not one that chrono has.
    InvalidDate,
    /// The page has no block for the day.
    NoDay,
    /// The first piece that names the meal holds no `url(`.
    NoUrl,
}

/// The marker of a day's block on the picture page: `data-date='DD.MM.YYYY'>`.
pub open spec fn day_marker(date_text: Seq<char>) -> Seq<char> {
    "data-date='"@ + date_text + "'>"@
}

/// The index of the first piece that contains `id`, if any.
pub open spec fn first_piece_with(pieces: Seq<Seq<char>>, id: Seq<char>) -> Option<int> {
    if exists|k: int| 0 <= k < pieces.len() && contains(pieces[k], id) && forall|j: int|
        0 <= j < k ==> !contains(#[trigger] pieces[j], id) {
        Some(
            choose|k: int|
                0 <= k < pieces.len() && contains(pieces[k], id) && forall|j: int|
                    0 <= j < k ==> !contains(#[trigger] pieces[j], id),
        )
    } else {
        None
    }
}

/// The picture of the meal of category `id` on `day`: the day's block is
/// the text after the day's marker, up to the next one; it is cut at each
/// `</div>`, and the address is read from the first piece that contains
/// `id` (see `food_image`).  When no piece contains `id`, the whole page is
/// given back.
pub open spec fn page_picture(page: Seq<char>, day: CalendarDate, id: Seq<char>) -> Result<
    Seq<char>,
    PictureError,
> {
    match dmy_format(day.year, day.month, day.day) {
        None => Err(PictureError::InvalidDate),
        Some(d) => match split_field(page, day_marker(d), 1) {
            None => Err(PictureError::NoDay),
            Some(block) => {
                let pieces = split_all(block, "</div>"@);
                match first_piece_with(pieces, id) {
                    None => Ok(page),
                    Some(k) => match food_image(pieces[k]) {
                        None => Err(PictureError::NoUrl),
                        Some(u) => Ok(u),
                    },
                }
            },
        },
    }
}

/// The picture of the meal of category `id` on `day` (see `page_picture`).
pub fn food_pic_from_page(page: &str, day: CalendarDate, id: &str) -> (res: Result<
    String,
    PictureError,
>)
    ensures
        res matches Ok(u) ==> page_picture(page@, day, id@) == Ok::<Seq<char>, PictureError>(u@),
        res matches Err(e) ==> page_picture(page@, day, id@) == Err::<Seq<char>, PictureError>(e),
{
    let d = match format_dmy(day) {
        Some(d) => d,
        None => return Err(PictureError::InvalidDate),
    };
    let p = chars_of(page);
    let mut marker = chars_of("data-date='");
    append_chars(&mut marker, chars_of(d.as_str()).as_slice());
    append_chars(&mut marker, chars_of("'>").as_slice());
    proof {
        reveal_strlit("data-date='");
    }
    assert(marker@ =~= day_marker(d@));
    let block = match split_field_exec(p.as_slice(), marker.as_slice(), 1) {
        Some(b) => b,
        None => return Err(PictureError::NoDay),
    };
    let close = chars_of("</div>");
    proof {
        reveal_strlit("</div>");
    }
    let pieces = split_all_exec(block.as_slice(), close.as_slice());
    let ghost pv = split_all(block@, "</div>"@);
    let idc = chars_of(id);
    let mut k: usize = 0;
    while k < pieces.len()
        invariant
            0 <= k <= pieces.len(),
            pieces@.len() == pv.len(),
            forall|j: int| 0 <= j < pieces@.len() ==> #[trigger] pieces@[j]@ == pv[j],
            forall|j: int| 0 <= j < k ==> !contains(#[trigger] pv[j], id@),
            idc@ == id@,
            p@ == page@,
            pv == split_all(block@, "</div>"@),
            dmy_format(day.year, day.month, day.day) == Some(d@),
            split_field(page@, day_marker(d@), 1) == Some(block@),
        decreases pieces.len() - k,
    {
        assert(pieces@[k as int]@ == pv[k as int]);
        if contains_exec(pieces[k].as_slice(), idc.as_slice()) {
            assert(first_piece_with(pv, id@) == Some(k as int)) by {
                let w = choose|w: int|
                    0 <= w < pv.len() && contains(pv[w], id@) && forall|j: int|
                        0 <= j < w ==> !contains(#[trigger] pv[j], id@);
                if w < k {
                } else if w > k {
                    assert(!contains(pv[k as int], id@));
                }
            }
            let text = string_of(pieces[k].as_slice());
            return match food_image_exec(text.as_str()) {
                Some(u) => Ok(u),
                None => Err(PictureError::NoUrl),
            };
        }
        k = k + 1;
    }
    assert(first_piece_with(pv, id@) is None);
    Ok(string_of(p.as_slice()))
}

// ---------------------------------------------------------------------------
// The lines shown
// ---------------------------------------------------------------------------

/// The text shown when the menu cannot be given.
pub open spec fn closed_text() -> Seq<char> {
    "mensa is closed"@
}

/// One line of the menu: category, name, picture and `true` or `false` for
/// vegan, separated by ` && `.
pub open spec fn meal_line(m: MealView, pic: Seq<char>) -> Seq<char> {
    m.category + " && "@ + m.name + " && "@ + pic + " && "@ + (if m.vegan {
        "true"@
    } else {
        "false"@
    }) + seq!['\n']
}

/// The state after checking the pictures `pics[0..k]` of the first meals.
pub enum MenuFold {
    /// The lines so far.
    Lines(Seq<char>),
    /// A picture did not mention its meal's category.
    Closed,
    /// A meal that the text names cannot be read.
    NoMeal,
}

/// The state after checking the first `k` pictures: each meal's picture
/// must mention the meal's category, else the menu is closed; meals past
/// the number the text names are not read.
pub open spec fn menu_fold(text: Seq<char>, pics: Seq<Seq<char>>, k: nat) -> MenuFold
    decreases k,
{
    if k == 0 {
        MenuFold::Lines(Seq::empty())
    } else {
        match menu_fold(text, pics, (k - 1) as nat) {
            MenuFold::Lines(acc) => if k - 1 >= meal_count(text) {
                MenuFold::Lines(acc)
            } else {
                match meal_at(text, (k - 1) as nat) {
                    None => MenuFold::NoMeal,
                    Some(m) => if contains(pics[k - 1], m.category) {
                        MenuFold::Lines(acc + meal_line(m, pics[k - 1]))
                    } else {
                        MenuFold::Closed
                    },
                }
            },
            other => other,
        }
    }
}

/// Where building the menu stands once the given pictures are checked.
#[derive(Debug)]
pub enum MenuProgress {
    /// The text to show.
    Done(String),
    /// The picture of the meal of this category is needed next.
    NeedPicture(String),
    /// A meal that the text names cannot be read.
    NoMeal,
}

/// Where building the menu from the API's text stands, given the pictures
/// looked up for the first meals: done (the lines, or `mensa is closed`
/// when a picture does not mention its meal's category), the next picture
/// to look up, or a meal that cannot be read.
pub open spec fn menu_progress(text: Seq<char>, pics: Seq<Seq<char>>, res: MenuProgress) -> bool {
    match menu_fold(text, pics, pics.len()) {
        MenuFold::Closed => res matches MenuProgress::Done(s) && s@ == closed_text(),
        MenuFold::NoMeal => res is NoMeal,
        MenuFold::Lines(acc) => if pics.len() >= meal_count(text) {
            res matches MenuProgress::Done(s) && s@ == acc
        } else {
            match meal_at(text, pics.len()) {
                None => res is NoMeal,
                Some(m) => res matches MenuProgress::NeedPicture(c) && c@ == m.category,
            }
        },
    }
}

/// The texts of a sequence of strings.
pub open spec fn texts_view(v: Seq<String>) -> Seq<Seq<char>> {
    v.map_values(|x: String| x@)
}

/// Where building the menu stands (see `menu_progress`).
pub fn menu_text(text: &str, pics: &[String]) -> (res: MenuProgress)
    requires
        pics.len() < usize::MAX,
    ensures
        menu_progress(text@, texts_view(pics@), res),
{
    let ghost pv = texts_view(pics@);
    let count = meal_count_exec(text);
    let mut acc: Vec<char> = Vec::new();
    let mut k: usize = 0;
    while k < pics.len()
        invariant
            0 <= k <= pics.len() < usize::MAX,
            pv == texts_view(pics@),
            count == meal_count(text@),
            menu_fold(text@, pv, k as nat) == MenuFold::Lines(acc@),
        decreases pics.len() - k,
    {
        if k >= count {
            assert(menu_fold(text@, pv, (k + 1) as nat) == MenuFold::Lines(acc@));
        } else {
            let m = match meal_at_exec(text, k) {
                Some(m) => m,
                None => {
                    proof {
                        lemma_fold_stuck(text@, pv, (k + 1) as nat, pv.len());
                    }
                    return MenuProgress::NoMeal;
                },
            };
            assert(pv[k as int] == pics@[k as int]@);
            let pic = chars_of(pics[k].as_str());
            if !contains_exec(pic.as_slice(), chars_of(m.category.as_str()).as_slice()) {
                proof {
                    lemma_fold_stuck(text@, pv, (k + 1) as nat, pv.len());
                }
                return MenuProgress::Done(string_of(chars_of("mensa is closed").as_slice()));
            }
            let ghost before = acc@;
            append_chars(&mut acc, chars_of(m.category.as_str()).as_slice());
            append_chars(&mut acc, chars_of(" && ").as_slice());
            append_chars(&mut acc, chars_of(m.name.as_str()).as_slice());
            append_chars(&mut acc, chars_of(" && ").as_slice());
            append_chars(&mut acc, pic.as_slice());
            append_chars(&mut acc, chars_of(" && ").as_slice());
            if m.vegan {
                append_chars(&mut acc, chars_of("true").as_slice());
            } else {
                append_chars(&mut acc, chars_of("false").as_slice());
            }
            acc.push('\n');
            assert(acc@ =~= before + meal_line(m@, pv[k as int]));
            assert(menu_fold(text@, pv, (k + 1) as nat) == MenuFold::Lines(acc@));
        }
        k = k + 1;
    }
    if k >= count {
        return MenuProgress::Done(string_of(acc.as_slice()));
    }
    match meal_at_exec(text, k) {
        Some(m) => MenuProgress::NeedPicture(m.category),
        None => MenuProgress::NoMeal,
    }
}

/// Once the menu is closed or a meal cannot be read, checking more pictures
/// changes nothing.
proof fn lemma_fold_stuck(text: Seq<char>, pics: Seq<Seq<char>>, k: nat, n: nat)
    requires
        !(menu_fold(text, pics, k) is Lines),
        k <= n,
    ensures
        menu_fold(text, pics, n) == menu_fold(text, pics, k),
    decreases n - k,
{
    if k < n {
        lemma_fold_stuck(text, pics, k, (n - 1) as nat);
    }
}

// ---------------------------------------------------------------------------
// Showing the menu
// ---------------------------------------------------------------------------

/// The rows shown from the menu text: its lines, each cut at ` && `.
pub open spec fn menu_rows_view(text: Seq<char>) -> Seq<Seq<Seq<char>>> {
    split_all(text, seq!['\n']).map_values(|l: Seq<char>| split_all(l, " && "@))
}

/// The rows shown from the menu text (see `menu_rows_view`).
pub fn menu_rows(text: &str) -> (res: Vec<Vec<String>>)
    ensures
        res@.len() == menu_rows_view(text@).len(),
        forall|k: int|
            0 <= k < res@.len() ==> texts_view(#[trigger] res@[k]@) == menu_rows_view(text@)[k],
{
    let t = chars_of(text);
    let nl = vec!['\n'];
    let sep = chars_of(" && ");
    proof {
        reveal_strlit(" && ");
    }
    assert(nl@ =~= seq!['\n']);
    let lines = split_all_exec(t.as_slice(), nl.as_slice());
    let ghost rows = menu_rows_view(text@);
    let ghost lv = split_all(text@, seq!['\n']);
    let mut res: Vec<Vec<String>> = Vec::new();
    let mut i: usize = 0;
    while i < lines.len()
        invariant
            0 <= i <= lines.len(),
            lv == split_all(text@, seq!['\n']),
            rows == menu_rows_view(text@),
            sep@ == " && "@,
            sep@.len() == 4,
            lines@.len() == lv.len(),
            forall|j: int| 0 <= j < lines@.len() ==> #[trigger] lines@[j]@ == lv[j],
            res@.len() == i,
            forall|k: int| 0 <= k < res@.len() ==> texts_view(#[trigger] res@[k]@) == rows[k],
        decreases lines.len() - i,
    {
        let pieces = split_all_exec(lines[i].as_slice(), sep.as_slice());
        let mut row: Vec<String> = Vec::new();
        let mut j: usize = 0;
        while j < pieces.len()
            invariant
                0 <= j <= pieces.len(),
                row@.len() == j,
                forall|m: int| 0 <= m < j ==> #[trigger] row@[m]@ == pieces@[m]@,
            decreases pieces.len() - j,
        {
            row.push(string_of(pieces[j].as_slice()));
            j = j + 1;
        }
        assert(lines@[i as int]@ == lv[i as int]);
        assert(texts_view(row@) =~= split_all(lv[i as int], " && "@));
        res.push(row);
        i = i + 1;
    }
    res
}

/// How a menu cell is shown.
#[derive(Debug, Clone, Copy, PartialEq, Eq, Structural)]
pub enum MenuCell {
    /// The canteen is closed.
    Closed,
    /// An empty row: nothing is shown.
    Hidden,
    /// A vegan meal, with its mark.
    Vegan,
    /// A meal without the mark.
    Plain,
}

/// How a row (category, name, picture, vegan) is shown: `Closed` for the
/// closed text, hidden when the first field is empty, else marked vegan
/// when the last field is `true`.
pub fn menu_cell(row: &Vec<String>) -> (res: MenuCell)
    requires
        row@.len() >= 1,
        row@[0]@.len() > 0 && row@[0]@ != closed_text() ==> row@.len() >= 4,
    ensures
        res == if row@[0]@ == closed_text() {
            MenuCell::Closed
        } else if row@[0]@.len() == 0 {
            MenuCell::Hidden
        } else if row@[3]@ == "true"@ {
            MenuCell::Vegan
        } else {
            MenuCell::Plain
        },
{
    let first = chars_of(row[0].as_str());
    let closed = chars_of("mensa is closed");
    if crate::calendar::chars_eq(first.as_slice(), closed.as_slice()) {
        MenuCell::Closed
    } else if first.len() == 0 {
        MenuCell::Hidden
    } else if crate::calendar::chars_eq(
        chars_of(row[3].as_str()).as_slice(),
        chars_of("true").as_slice(),
    ) {
        MenuCell::Vegan
    } else {
        MenuCell::Plain
    }
}


// ---------------------------------------------------------------------------
// Laws
// ---------------------------------------------------------------------------

/// Law: from Friday to Sunday the day asked for does not depend on the time
/// of day, and from Monday to Thursday before 14:30 it is the day itself.
pub proof fn law_menu_day_time(date: CalendarDate, h1: u32, m1: u32, h2: u32, m2: u32)
    ensures
        weekday_number(date.year, date.month, date.day) matches Some(w) && w >= 5
            ==> menu_day(date, h1, m1) == menu_day(date, h2, m2),
        weekday_number(date.year, date.month, date.day) matches Some(w) && w < 5
            && !after_lunch(h1, m1) ==> menu_day(date, h1, m1) == Some(date),
{
}

/// Law: the day asked for is never a Saturday or a Sunday, given that
/// chrono numbers weekdays from 1 and that they follow each other (the day
/// after a weekday `w` below Friday is `w + 1`, and the Monday after is a
/// Monday).
pub proof fn law_menu_day_is_weekday(date: CalendarDate, hour: u32, minute: u32)
    requires
        weekday_number(date.year, date.month, date.day) matches Some(w) && 1 <= w && (w >= 5 ==> match date_after(
            date.year,
            date.month,
            date.day,
            (8 - w) as u64,
        ) {
            Some(md) => weekday_number(md.year, md.month, md.day) == Some(1u32),
            None => true,
        }) && (w < 5 ==> match date_after(date.year, date.month, date.day, 1) {
            Some(nd) => weekday_number(nd.year, nd.month, nd.day) == Some((w + 1) as u32),
            None => true,
        }),
    ensures
        menu_day(date, hour, minute) matches Some(t) ==> weekday_number(t.year, t.month, t.day)
            matches Some(w) && 1 <= w <= 5,
{
}


/// Law: a meal is vegan exactly when the text after its `notes":` key (up
/// to the next such key) mentions `vegan`, wherever in its notes.
pub proof fn law_meal_vegan(text: Seq<char>, i: nat)
    ensures
        meal_at(text, i) matches Some(m) ==> split_field(text, "notes\":"@, i + 1) matches Some(
            notes,
        ) && m.vegan == contains(notes, "vegan"@),
{
}

} // verus!
