//! Departures of a public-transport stop, read from the JSON answer of the
//! VRR departure monitor: minutes until departure, delay, cancellations, and
//! the per-stop choice of which departures to show.
use vstd::prelude::*;
use crate::text::{
    chars_of, contains, contains_exec, decimal, decimal_of, parse_i32, parse_i32_spec,
    replace_all, replace_all_exec, string_of, without_char, without_char_exec, append_chars,
};

verus! {

// ---------------------------------------------------------------------------
// The JSON document
// ---------------------------------------------------------------------------

/// `serde_json` reads `doc` as a JSON value.
pub uninterp spec fn json_parses(doc: Seq<char>) -> bool;

/// The JSON text (the `Display` of a `serde_json::Value`, `null` when absent)
/// of `doc["departureList"][index][keys[0]][keys[1]]...`.
pub uninterp spec fn departure_field_json(doc: Seq<char>, index: int, keys: Seq<Seq<char>>) -> Seq<
    char,
>;

/// The models of the key paths.
pub open spec fn paths_view(paths: Seq<Vec<String>>) -> Seq<Seq<Seq<char>>> {
    paths.map_values(|p: Vec<String>| p@.map_values(|k: String| k@))
}

/// The text of a table cell.
pub open spec fn cell(rows: Seq<Vec<String>>, i: int, j: int) -> Seq<char> {
    rows[i]@[j]@
}

/// `serde_json::from_str::<Value>`, then, for each of the first `count`
/// departures and each key path, the `Display` text of the value found by
/// indexing (`Value`'s `Index`, which gives `null` where nothing is found).
/// Trusted: `None` exactly when the document is not JSON; otherwise a table
/// of `count` rows, one cell per path, each the named `departure_field_json`.
#[verifier::external_body]
pub(crate) fn departure_fields(doc: &str, count: usize, paths: &Vec<Vec<String>>) -> (res: Option<
    Vec<Vec<String>>,
>)
    ensures
        res is Some <==> json_parses(doc@),
        res matches Some(rows) ==> {
            &&& rows@.len() == count
            &&& forall|i: int| 0 <= i < count ==> (#[trigger] rows@[i])@.len() == paths@.len()
            &&& forall|i: int, j: int|
                0 <= i < count && 0 <= j < paths@.len() ==> #[trigger] cell(rows@, i, j)
                    == departure_field_json(doc@, i, paths_view(paths@)[j])
        },
{
    let v: serde_json::Value = match serde_json::from_str(doc) {
        Ok(v) => v,
        Err(_) => return None,
    };
    Some((0..count).map(|i| paths.iter().map(|p| {
        p.iter().fold(&v["departureList"][i], |at, k| &at[k.as_str()]).to_string()
    }).collect()).collect())
}

// ---------------------------------------------------------------------------
// Departures
// ---------------------------------------------------------------------------

/// A departure; `time` is in minutes from now, `delay` in minutes.
#[derive(Clone, Debug)]
pub struct Train {
    pub line: String,
    pub direction: String,
    pub time: i32,
    pub train_type: String,
    pub canceled: bool,
    pub onplanned: bool,
    pub delay: i32,
}

/// The model of a `Train`.
pub struct TrainView {
    pub line: Seq<char>,
    pub direction: Seq<char>,
    pub time: i32,
    pub train_type: Seq<char>,
    pub canceled: bool,
    pub onplanned: bool,
    pub delay: i32,
}

impl View for Train {
    type V = TrainView;

    open spec fn view(&self) -> TrainView {
        TrainView {
            line: self.line@,
            direction: self.direction@,
            time: self.time,
            train_type: self.train_type@,
            canceled: self.canceled,
            onplanned: self.onplanned,
            delay: self.delay,
        }
    }
}

/// The models of a sequence of trains.
pub open spec fn trains_view(ts: Seq<Train>) -> Seq<TrainView> {
    ts.map_values(|t: Train| t@)
}

impl Train {
    /// A copy of the departure.
    pub fn copy(&self) -> (res: Train)
        ensures
            res@ == self@,
    {
        Train {
            line: self.line.clone(),
            direction: self.direction.clone(),
            time: self.time,
            train_type: self.train_type.clone(),
            canceled: self.canceled,
            onplanned: self.onplanned,
            delay: self.delay,
        }
    }
}

impl Default for Train {
    fn default() -> (res: Train)
        ensures
            res@ == (TrainView {
                line: Seq::empty(),
                direction: Seq::empty(),
                time: 0,
                train_type: Seq::empty(),
                canceled: false,
                onplanned: false,
                delay: 0,
            }),
    {
        Train {
            line: String::new(),
            direction: String::new(),
            time: 0,
            train_type: String::new(),
            canceled: false,
            onplanned: false,
            delay: 0,
        }
    }
}

/// Why departures cannot be read.
#[derive(Debug, PartialEq, Eq, Structural)]
pub enum TrainError {
    /// The answer is not JSON.
    InvalidJson,
    /// A day, hour or minute is not a number.
    BadNumber,
    /// The minutes until departure do not fit in an `i32`.
    Overflow,
}

/// The time of day of the clock that departures are measured from.
pub open spec fn valid_clock(day: int, hour: int, minute: int) -> bool {
    1 <= day <= 31 && 0 <= hour <= 23 && 0 <= minute <= 59
}

pub open spec fn key_real_date_time() -> Seq<char> {
    seq!['r', 'e', 'a', 'l', 'D', 'a', 't', 'e', 'T', 'i', 'm', 'e']
}

pub open spec fn key_date_time() -> Seq<char> {
    seq!['d', 'a', 't', 'e', 'T', 'i', 'm', 'e']
}

pub open spec fn key_day() -> Seq<char> {
    seq!['d', 'a', 'y']
}

pub open spec fn key_hour() -> Seq<char> {
    seq!['h', 'o', 'u', 'r']
}

pub open spec fn key_minute() -> Seq<char> {
    seq!['m', 'i', 'n', 'u', 't', 'e']
}

pub open spec fn key_serving_line() -> Seq<char> {
    seq!['s', 'e', 'r', 'v', 'i', 'n', 'g', 'L', 'i', 'n', 'e']
}

pub open spec fn key_number() -> Seq<char> {
    seq!['n', 'u', 'm', 'b', 'e', 'r']
}

pub open spec fn key_direction() -> Seq<char> {
    seq!['d', 'i', 'r', 'e', 'c', 't', 'i', 'o', 'n']
}

pub open spec fn key_name() -> Seq<char> {
    seq!['n', 'a', 'm', 'e']
}

pub open spec fn key_trip_status() -> Seq<char> {
    seq!['r', 'e', 'a', 'l', 't', 'i', 'm', 'e', 'T', 'r', 'i', 'p', 'S', 't', 'a', 't', 'u', 's']
}

pub open spec fn key_stop_name() -> Seq<char> {
    seq!['s', 't', 'o', 'p', 'N', 'a', 'm', 'e']
}

/// The fields of a departure that are read, in this order: the real time
/// as a whole, the planned day, hour and minute, the real day, hour and
/// minute, the line number, the direction, the line name, the trip status.
pub open spec fn departure_paths() -> Seq<Seq<Seq<char>>> {
    seq![
        seq![key_real_date_time()],
        seq![key_date_time(), key_day()],
        seq![key_date_time(), key_hour()],
        seq![key_date_time(), key_minute()],
        seq![key_real_date_time(), key_day()],
        seq![key_real_date_time(), key_hour()],
        seq![key_real_date_time(), key_minute()],
        seq![key_serving_line(), key_number()],
        seq![key_serving_line(), key_direction()],
        seq![key_serving_line(), key_name()],
        seq![key_trip_status()],
    ]
}

/// The JSON texts of the fields of departure `index`.
pub open spec fn departure_texts(doc: Seq<char>, index: int) -> Seq<Seq<char>> {
    Seq::new(11, |j: int| departure_field_json(doc, index, departure_paths()[j]))
}

/// A JSON text without its quotes.
pub open spec fn unquoted(t: Seq<char>) -> Seq<char> {
    without_char(t, '"')
}

/// The number in a JSON field.
pub open spec fn field_number(t: Seq<char>) -> Option<i32> {
    parse_i32_spec(unquoted(t))
}

/// The value fits in an `i32`.
pub open spec fn fits_i32(x: int) -> bool {
    i32::MIN <= x <= i32::MAX
}

/// Minutes from the clock to a departure at `day`/`hour`/`minute`: across
/// midnight when the day is the next one (then counted with the hour and
/// minute `wrap_hour`/`wrap_minute`), otherwise from the differences of
/// hours and minutes.  `None` when a step of the `i32` computation
/// overflows.
pub open spec fn offset_minutes(
    day: int,
    hour: int,
    minute: int,
    wrap_hour: int,
    wrap_minute: int,
    day_now: int,
    hour_now: int,
    minute_now: int,
) -> Option<int> {
    let day_off = day - day_now;
    let hour_off = hour - hour_now;
    let minute_off = minute - minute_now;
    if !(fits_i32(day_off) && fits_i32(hour_off) && fits_i32(minute_off)) {
        None
    } else if day_off == 1 {
        let a = wrap_hour * 60;
        let b = a + wrap_minute;
        let c = 1440 - (hour_now * 60 + minute_now) + b;
        if fits_i32(a) && fits_i32(b) && fits_i32(c) {
            Some(c)
        } else {
            None
        }
    } else {
        let a = hour_off * 60;
        let b = a + minute_off;
        if fits_i32(a) && fits_i32(b) {
            Some(b)
        } else {
            None
        }
    }
}

pub open spec fn word_null() -> Seq<char> {
    seq!['n', 'u', 'l', 'l']
}

pub open spec fn word_trip_cancelled() -> Seq<char> {
    seq!['T', 'R', 'I', 'P', '_', 'C', 'A', 'N', 'C', 'E', 'L', 'L', 'E', 'D']
}

pub open spec fn word_rrx() -> Seq<char> {
    seq![' ', '(', 'R', 'R', 'X', ')']
}

/// The departure described by the field texts `f` (see `departure_paths`),
/// seen from the clock `day_now`/`hour_now`/`minute_now`.
///
/// The real time is used unless its field reads `null`, then the planned
/// one.  `time` is the minutes to the real time; the planned minutes are
/// computed alike, except that across midnight they take the real hour and
/// minute.  `delay` is their difference, and a departure more than five
/// minutes late is `onplanned`.
#[verifier::opaque]
pub open spec fn train_from_texts(f: Seq<Seq<char>>, day_now: int, hour_now: int, minute_now: int) -> Result<
    TrainView,
    TrainError,
> {
    let planned = contains(f[0], word_null());
    let day_t = if planned {
        f[1]
    } else {
        f[4]
    };
    let hour_t = if planned {
        f[2]
    } else {
        f[5]
    };
    let minute_t = if planned {
        f[3]
    } else {
        f[6]
    };
    match (
        field_number(f[1]),
        field_number(f[2]),
        field_number(f[3]),
        field_number(hour_t),
        field_number(minute_t),
        field_number(day_t),
    ) {
        (Some(ed), Some(eh), Some(em), Some(ht), Some(mt), Some(dt)) => {
            let real_minutes = offset_minutes(
                dt as int,
                ht as int,
                mt as int,
                ht as int,
                mt as int,
                day_now,
                hour_now,
                minute_now,
            );
            let planned_minutes = offset_minutes(
                ed as int,
                eh as int,
                em as int,
                ht as int,
                mt as int,
                day_now,
                hour_now,
                minute_now,
            );
            match (real_minutes, planned_minutes) {
                (Some(r), Some(e)) => if fits_i32(r - e) {
                    Ok(
                        TrainView {
                            line: replace_all(unquoted(f[7]), word_rrx(), Seq::empty()),
                            direction: unquoted(f[8]) + seq![' '],
                            time: r as i32,
                            train_type: unquoted(f[9]),
                            canceled: contains(f[10], word_trip_cancelled()),
                            onplanned: r - e > 5,
                            delay: (r - e) as i32,
                        },
                    )
                } else {
                    Err(TrainError::Overflow)
                },
                _ => Err(TrainError::Overflow),
            }
        },
        _ => Err(TrainError::BadNumber),
    }
}

pub open spec fn stop_bilk() -> Seq<char> {
    seq!['2', '0', '0', '1', '8', '2', '6', '9']
}

pub open spec fn stop_main_station() -> Seq<char> {
    seq!['2', '0', '0', '1', '8', '2', '4', '9']
}

pub open spec fn word_s_bahn() -> Seq<char> {
    seq!['S', '-', 'B', 'a', 'h', 'n']
}

pub open spec fn word_regionalzug() -> Seq<char> {
    seq!['R', 'e', 'g', 'i', 'o', 'n', 'a', 'l', 'z', 'u', 'g']
}

pub open spec fn word_uni() -> Seq<char> {
    seq!['U', 'n', 'i']
}

/// Whether a departure is shown at the stop `id`: not cancelled and at
/// least 3 minutes away; at stop `20018269` more than 15 minutes away; at
/// stop `20018249` only S-Bahn and regional trains more than 15 minutes
/// away; elsewhere only those whose direction does not contain `Uni`.
pub open spec fn keep_train(id: Seq<char>, t: TrainView) -> bool {
    !t.canceled && t.time >= 3 && if id == stop_bilk() {
        t.time > 15
    } else if id == stop_main_station() {
        (t.train_type == word_s_bahn() || t.train_type == word_regionalzug()) && t.time > 15
    } else {
        !contains(t.direction, word_uni())
    }
}

/// The departures `0..n` of the document that are shown at stop `id`, in
/// order; the first error of a departure if one cannot be read.
pub open spec fn kept_trains(
    doc: Seq<char>,
    id: Seq<char>,
    n: int,
    day_now: int,
    hour_now: int,
    minute_now: int,
) -> Result<Seq<TrainView>, TrainError>
    decreases n,
{
    if n <= 0 {
        Ok(Seq::empty())
    } else {
        match kept_trains(doc, id, n - 1, day_now, hour_now, minute_now) {
            Err(e) => Err(e),
            Ok(prev) => match train_from_texts(
                departure_texts(doc, n - 1),
                day_now,
                hour_now,
                minute_now,
            ) {
                Err(e) => Err(e),
                Ok(t) => Ok(
                    if keep_train(id, t) {
                        prev.push(t)
                    } else {
                        prev
                    },
                ),
            },
        }
    }
}

/// The departures shown at stop `id` from the first `limit` of the
/// document: at most nine.
pub open spec fn list_spec(
    doc: Seq<char>,
    id: Seq<char>,
    limit: int,
    day_now: int,
    hour_now: int,
    minute_now: int,
) -> Result<Seq<TrainView>, TrainError> {
    if !json_parses(doc) {
        Err(TrainError::InvalidJson)
    } else {
        match kept_trains(doc, id, limit, day_now, hour_now, minute_now) {
            Err(e) => Err(e),
            Ok(ts) => Ok(
                if ts.len() > 9 {
                    ts.take(9)
                } else {
                    ts
                },
            ),
        }
    }
}


// ---------------------------------------------------------------------------
// Exec
// ---------------------------------------------------------------------------

/// The models of a sequence of strings.
pub open spec fn strings_view(v: Seq<String>) -> Seq<Seq<char>> {
    v.map_values(|s: String| s@)
}

/// The model of a result carrying a departure.
pub open spec fn train_result_view(r: Result<Train, TrainError>) -> Result<TrainView, TrainError> {
    match r {
        Ok(t) => Ok(t@),
        Err(e) => Err(e),
    }
}

/// The model of a result carrying departures.
pub open spec fn trains_result_view(r: Result<Vec<Train>, TrainError>) -> Result<
    Seq<TrainView>,
    TrainError,
> {
    match r {
        Ok(ts) => Ok(trains_view(ts@)),
        Err(e) => Err(e),
    }
}

/// A key path of one key.
fn path1(a: Vec<char>) -> (res: Vec<String>)
    ensures
        res@.map_values(|k: String| k@) == seq![a@],
{
    let mut res: Vec<String> = Vec::new();
    res.push(string_of(a.as_slice()));
    assert(res@.map_values(|k: String| k@) =~= seq![a@]);
    res
}

/// A key path of two keys.
fn path2(a: Vec<char>, b: Vec<char>) -> (res: Vec<String>)
    ensures
        res@.map_values(|k: String| k@) == seq![a@, b@],
{
    let mut res: Vec<String> = Vec::new();
    res.push(string_of(a.as_slice()));
    res.push(string_of(b.as_slice()));
    assert(res@.map_values(|k: String| k@) =~= seq![a@, b@]);
    res
}

/// The key `realDateTime`.
fn real_key() -> (r: Vec<char>)
    ensures
        r@ == key_real_date_time(),
{
    vec!['r', 'e', 'a', 'l', 'D', 'a', 't', 'e', 'T', 'i', 'm', 'e']
}

/// The key `dateTime`.
fn planned_key() -> (r: Vec<char>)
    ensures
        r@ == key_date_time(),
{
    vec!['d', 'a', 't', 'e', 'T', 'i', 'm', 'e']
}

/// The key `servingLine`.
fn line_key() -> (r: Vec<char>)
    ensures
        r@ == key_serving_line(),
{
    vec!['s', 'e', 'r', 'v', 'i', 'n', 'g', 'L', 'i', 'n', 'e']
}

/// The key paths of `departure_paths`.
fn departure_paths_exec() -> (res: Vec<Vec<String>>)
    ensures
        paths_view(res@) == departure_paths(),
{
    let mut res: Vec<Vec<String>> = Vec::new();
    res.push(path1(real_key()));
    res.push(path2(planned_key(), vec!['d', 'a', 'y']));
    res.push(path2(planned_key(), vec!['h', 'o', 'u', 'r']));
    res.push(path2(planned_key(), vec!['m', 'i', 'n', 'u', 't', 'e']));
    res.push(path2(real_key(), vec!['d', 'a', 'y']));
    res.push(path2(real_key(), vec!['h', 'o', 'u', 'r']));
    res.push(path2(real_key(), vec!['m', 'i', 'n', 'u', 't', 'e']));
    res.push(path2(line_key(), vec!['n', 'u', 'm', 'b', 'e', 'r']));
    res.push(path2(line_key(), vec!['d', 'i', 'r', 'e', 'c', 't', 'i', 'o', 'n']));
    res.push(path2(line_key(), vec!['n', 'a', 'm', 'e']));
    res.push(
        path1(
            vec!['r', 'e', 'a', 'l', 't', 'i', 'm', 'e', 'T', 'r', 'i', 'p', 'S', 't', 'a', 't', 'u', 's'],
        ),
    );
    assert(paths_view(res@) =~= departure_paths());
    res
}

/// The text of a JSON field without its quotes.
fn unquoted_exec(t: &String) -> (res: Vec<char>)
    ensures
        res@ == unquoted(t@),
{
    let c = chars_of(t.as_str());
    without_char_exec(c.as_slice(), '"')
}

/// The number in a JSON field.
fn field_number_exec(t: &String) -> (res: Option<i32>)
    ensures
        res == field_number(t@),
{
    let u = unquoted_exec(t);
    parse_i32(u.as_slice())
}

/// `x` if it fits in an `i32`.
fn to_i32(x: i64) -> (res: Option<i32>)
    ensures
        res is Some <==> fits_i32(x as int),
        res matches Some(r) ==> r == x,
{
    if -2_147_483_648 <= x && x <= 2_147_483_647 {
        Some(x as i32)
    } else {
        None
    }
}

/// Minutes from the clock to a departure (see `offset_minutes`).
fn offset_minutes_exec(
    day: i32,
    hour: i32,
    minute: i32,
    wrap_hour: i32,
    wrap_minute: i32,
    day_now: i32,
    hour_now: i32,
    minute_now: i32,
) -> (res: Option<i32>)
    requires
        valid_clock(day_now as int, hour_now as int, minute_now as int),
    ensures
        res is Some <==> offset_minutes(
            day as int,
            hour as int,
            minute as int,
            wrap_hour as int,
            wrap_minute as int,
            day_now as int,
            hour_now as int,
            minute_now as int,
        ) is Some,
        res matches Some(r) ==> offset_minutes(
            day as int,
            hour as int,
            minute as int,
            wrap_hour as int,
            wrap_minute as int,
            day_now as int,
            hour_now as int,
            minute_now as int,
        ) == Some(r as int),
{
    let day_off = to_i32(day as i64 - day_now as i64);
    let hour_off = to_i32(hour as i64 - hour_now as i64);
    let minute_off = to_i32(minute as i64 - minute_now as i64);
    match (day_off, hour_off, minute_off) {
        (Some(day_off), Some(hour_off), Some(minute_off)) => {
            if day_off == 1 {
                let a = match to_i32(wrap_hour as i64 * 60) {
                    Some(a) => a,
                    None => return None,
                };
                let b = match to_i32(a as i64 + wrap_minute as i64) {
                    Some(b) => b,
                    None => return None,
                };
                to_i32(1440 - (hour_now as i64 * 60 + minute_now as i64) + b as i64)
            } else {
                let a = match to_i32(hour_off as i64 * 60) {
                    Some(a) => a,
                    None => return None,
                };
                to_i32(a as i64 + minute_off as i64)
            }
        },
        _ => None,
    }
}

/// The departure described by the field texts (see `train_from_texts`).
fn train_from_texts_exec(f: &Vec<String>, day_now: i32, hour_now: i32, minute_now: i32) -> (res:
    Result<Train, TrainError>)
    requires
        f@.len() == 11,
        valid_clock(day_now as int, hour_now as int, minute_now as int),
    ensures
        train_result_view(res) == train_from_texts(
            strings_view(f@),
            day_now as int,
            hour_now as int,
            minute_now as int,
        ),
{
    reveal(train_from_texts);
    let ghost fv = strings_view(f@);
    assert(forall|j: int| 0 <= j < 11 ==> fv[j] == (#[trigger] f@[j])@);
    let real_text = chars_of(f[0].as_str());
    let null = vec!['n', 'u', 'l', 'l'];
    let planned = contains_exec(real_text.as_slice(), null.as_slice());
    let (day_i, hour_i, minute_i): (usize, usize, usize) = if planned {
        (1, 2, 3)
    } else {
        (4, 5, 6)
    };
    let ed = field_number_exec(&f[1]);
    let eh = field_number_exec(&f[2]);
    let em = field_number_exec(&f[3]);
    let ht = field_number_exec(&f[hour_i]);
    let mt = field_number_exec(&f[minute_i]);
    let dt = field_number_exec(&f[day_i]);
    let (ed, eh, em, ht, mt, dt) = match (ed, eh, em, ht, mt, dt) {
        (Some(ed), Some(eh), Some(em), Some(ht), Some(mt), Some(dt)) => (ed, eh, em, ht, mt, dt),
        _ => return Err(TrainError::BadNumber),
    };
    let real_minutes = offset_minutes_exec(dt, ht, mt, ht, mt, day_now, hour_now, minute_now);
    let planned_minutes = offset_minutes_exec(ed, eh, em, ht, mt, day_now, hour_now, minute_now);
    let (r, e) = match (real_minutes, planned_minutes) {
        (Some(r), Some(e)) => (r, e),
        _ => return Err(TrainError::Overflow),
    };
    let delay = match to_i32(r as i64 - e as i64) {
        Some(d) => d,
        None => return Err(TrainError::Overflow),
    };
    let number = unquoted_exec(&f[7]);
    let rrx = vec![' ', '(', 'R', 'R', 'X', ')'];
    let empty: Vec<char> = Vec::new();
    let line = replace_all_exec(number.as_slice(), rrx.as_slice(), empty.as_slice());
    let mut direction = unquoted_exec(&f[8]);
    let ghost d0 = direction@;
    direction.push(' ');
    assert(direction@ =~= d0 + seq![' ']);
    let train_type = unquoted_exec(&f[9]);
    let status = chars_of(f[10].as_str());
    let cancelled = vec!['T', 'R', 'I', 'P', '_', 'C', 'A', 'N', 'C', 'E', 'L', 'L', 'E', 'D'];
    let canceled = contains_exec(status.as_slice(), cancelled.as_slice());
    assert(empty@ =~= Seq::<char>::empty());
    Ok(
        Train {
            line: string_of(line.as_slice()),
            direction: string_of(direction.as_slice()),
            time: r,
            train_type: string_of(train_type.as_slice()),
            canceled,
            onplanned: delay > 5,
            delay,
        },
    )
}

/// Whether two character sequences are equal.
fn same_chars(a: &[char], b: &[char]) -> (res: bool)
    ensures
        res == (a@ == b@),
{
    crate::calendar::chars_eq(a, b)
}

/// Whether a departure is shown at stop `id` (see `keep_train`).
pub fn keep_train_exec(id: &[char], t: &Train) -> (res: bool)
    ensures
        res == keep_train(id@, t@),
{
    if t.canceled || t.time < 3 {
        return false;
    }
    if same_chars(id, vec!['2', '0', '0', '1', '8', '2', '6', '9'].as_slice()) {
        t.time > 15
    } else if same_chars(id, vec!['2', '0', '0', '1', '8', '2', '4', '9'].as_slice()) {
        let kind = chars_of(t.train_type.as_str());
        (same_chars(kind.as_slice(), vec!['S', '-', 'B', 'a', 'h', 'n'].as_slice()) || same_chars(
            kind.as_slice(),
            vec!['R', 'e', 'g', 'i', 'o', 'n', 'a', 'l', 'z', 'u', 'g'].as_slice(),
        )) && t.time > 15
    } else {
        let dir = chars_of(t.direction.as_str());
        !contains_exec(dir.as_slice(), vec!['U', 'n', 'i'].as_slice())
    }
}

/// Once reading a departure fails, the list fails with that error.
proof fn lemma_kept_trains_error(
    doc: Seq<char>,
    id: Seq<char>,
    n: int,
    m: int,
    day_now: int,
    hour_now: int,
    minute_now: int,
)
    requires
        0 <= n <= m,
        kept_trains(doc, id, n, day_now, hour_now, minute_now) is Err,
    ensures
        kept_trains(doc, id, m, day_now, hour_now, minute_now) == kept_trains(
            doc,
            id,
            n,
            day_now,
            hour_now,
            minute_now,
        ),
    decreases m - n,
{
    if n < m {
        lemma_kept_trains_error(doc, id, n, m - 1, day_now, hour_now, minute_now);
    }
}

/// The departures shown at stop `id` among the first `limit` departures of
/// the monitor's JSON answer, at most nine, seen from the clock
/// `day_now`/`hour_now`/`minute_now`.  `Err` when the answer is not JSON
/// or one of those departures cannot be read.
pub fn departures_from_json(
    doc: &str,
    id: &str,
    limit: i32,
    day_now: i32,
    hour_now: i32,
    minute_now: i32,
) -> (res: Result<Vec<Train>, TrainError>)
    requires
        valid_clock(day_now as int, hour_now as int, minute_now as int),
    ensures
        trains_result_view(res) == list_spec(
            doc@,
            id@,
            limit as int,
            day_now as int,
            hour_now as int,
            minute_now as int,
        ),
{
    let count: usize = if limit > 0 {
        limit as usize
    } else {
        0
    };
    let paths = departure_paths_exec();
    let rows = match departure_fields(doc, count, &paths) {
        Some(rows) => rows,
        None => return Err(TrainError::InvalidJson),
    };
    let idc = chars_of(id);
    let mut kept: Vec<Train> = Vec::new();
    let mut i: usize = 0;
    assert(departure_paths().len() == 11);
    assert(paths_view(paths@).len() == paths@.len());
    assert(trains_view(kept@) =~= Seq::<TrainView>::empty());
    assert forall|k: int| 0 <= k < count implies #[trigger] strings_view(rows@[k]@) == departure_texts(doc@, k) by {
        assert forall|j: int| 0 <= j < 11 implies strings_view(rows@[k]@)[j] == departure_texts(
            doc@,
            k,
        )[j] by {
            assert(cell(rows@, k, j) == departure_field_json(doc@, k, paths_view(paths@)[j]));
        }
        assert(strings_view(rows@[k]@) =~= departure_texts(doc@, k));
    }
    while i < count
        invariant
            0 <= i <= count,
            count as int == (if limit > 0 {
                limit as int
            } else {
                0
            }),
            valid_clock(day_now as int, hour_now as int, minute_now as int),
            json_parses(doc@),
            idc@ == id@,
            rows@.len() == count,
            forall|k: int| 0 <= k < count ==> (#[trigger] rows@[k])@.len() == 11,
            forall|k: int| 0 <= k < count ==> #[trigger] strings_view(rows@[k]@) == departure_texts(doc@, k),
            kept_trains(doc@, id@, i as int, day_now as int, hour_now as int, minute_now as int)
                == Ok::<Seq<TrainView>, TrainError>(trains_view(kept@)),
        decreases count - i,
    {
        let row = &rows[i];
        assert(strings_view(row@) == departure_texts(doc@, i as int));
        let t = match train_from_texts_exec(row, day_now, hour_now, minute_now) {
            Ok(t) => t,
            Err(e) => {
                proof {
                    assert(kept_trains(
                        doc@,
                        id@,
                        i + 1,
                        day_now as int,
                        hour_now as int,
                        minute_now as int,
                    ) == Err::<Seq<TrainView>, TrainError>(e));
                    lemma_kept_trains_error(
                        doc@,
                        id@,
                        i + 1,
                        limit as int,
                        day_now as int,
                        hour_now as int,
                        minute_now as int,
                    );
                }
                return Err(e);
            },
        };
        let ghost prev = kept@;
        let ghost tv = t@;
        if keep_train_exec(idc.as_slice(), &t) {
            kept.push(t);
            assert(trains_view(kept@) =~= trains_view(prev).push(tv));
        }
        i = i + 1;
    }
    assert(kept_trains(doc@, id@, limit as int, day_now as int, hour_now as int, minute_now as int)
        == Ok::<Seq<TrainView>, TrainError>(trains_view(kept@)));
    let ghost before = trains_view(kept@);
    kept.truncate(9);
    assert(trains_view(kept@) =~= if before.len() > 9 {
        before.take(9)
    } else {
        before
    });
    Ok(kept)
}


/// The stop name in the monitor's JSON answer: the first departure's
/// `stopName`, without quotes.  `Err(InvalidJson)` when the answer is not
/// JSON.
pub fn station_name_from_json(doc: &str) -> (res: Result<String, TrainError>)
    ensures
        res is Ok <==> json_parses(doc@),
        res matches Ok(name) ==> name@ == unquoted(
            departure_field_json(doc@, 0, seq![key_stop_name()]),
        ),
        res matches Err(e) ==> e == TrainError::InvalidJson,
{
    let mut paths: Vec<Vec<String>> = Vec::new();
    paths.push(path1(vec!['s', 't', 'o', 'p', 'N', 'a', 'm', 'e']));
    assert(paths_view(paths@) =~= seq![seq![key_stop_name()]]);
    match departure_fields(doc, 1, &paths) {
        None => Err(TrainError::InvalidJson),
        Some(rows) => {
            assert(cell(rows@, 0, 0) == departure_field_json(doc@, 0, paths_view(paths@)[0]));
            let name = unquoted_exec(&rows[0][0]);
            Ok(string_of(name.as_slice()))
        },
    }
}

/// The monitor's URL up to the stop id.
pub open spec fn monitor_url_head() -> Seq<char> {
    "https://app.vrr.de/vrrstd/XML_DM_REQUEST?outputFormat=JSON&commonMacro=dm&type_dm=any&name_dm="@
}

/// The monitor's URL between the stop id and the limit.
pub open spec fn monitor_url_middle() -> Seq<char> {
    "&language=de&useRealtime=1&lsShowTrainsExplicit=1&mode=direct&typeInfo_dm=stopID&limit="@
}

/// The URL that asks the monitor for the first `limit` departures at stop
/// `id`.
pub fn departures_url(id: &str, limit: i32) -> (res: String)
    ensures
        res@ == monitor_url_head() + id@ + monitor_url_middle() + decimal(limit as int),
{
    let mut v = chars_of(
        "https://app.vrr.de/vrrstd/XML_DM_REQUEST?outputFormat=JSON&commonMacro=dm&type_dm=any&name_dm=",
    );
    append_chars(&mut v, chars_of(id).as_slice());
    append_chars(
        &mut v,
        chars_of(
            "&language=de&useRealtime=1&lsShowTrainsExplicit=1&mode=direct&typeInfo_dm=stopID&limit=",
        ).as_slice(),
    );
    append_chars(&mut v, decimal_of(limit as i64).as_slice());
    string_of(v.as_slice())
}

/// The direction as shown: its first 19 characters when it is 20 bytes or
/// longer, otherwise all of it.
pub fn shown_direction(direction: &str) -> (res: String)
    ensures
        res@ == if direction.len() >= 20 {
            direction@.take(if direction@.len() < 19 { direction@.len() as int } else { 19 })
        } else {
            direction@
        },
{
    let d = chars_of(direction);
    if direction.len() >= 20 {
        string_of(crate::text::take_chars(d.as_slice(), 19).as_slice())
    } else {
        string_of(d.as_slice())
    }
}

/// How a departure is shown.
#[derive(Debug, PartialEq, Eq, Structural)]
pub enum RowStyle {
    /// A cancelled departure: an empty, hidden row.
    Hidden,
    /// More than five minutes late: the delay is shown, in yellow.
    Delayed,
    /// On time.
    Normal,
}

/// How a departure is shown: hidden when cancelled, delayed when more than
/// five minutes late, otherwise normal.
pub fn row_style(t: &Train) -> (res: RowStyle)
    ensures
        res == if t.canceled {
            RowStyle::Hidden
        } else if t.onplanned {
            RowStyle::Delayed
        } else {
            RowStyle::Normal
        },
{
    if t.canceled {
        RowStyle::Hidden
    } else if t.onplanned {
        RowStyle::Delayed
    } else {
        RowStyle::Normal
    }
}

// ---------------------------------------------------------------------------
// Laws
// ---------------------------------------------------------------------------

/// Every departure that the partial list holds is one that is shown at the
/// stop.
proof fn lemma_kept_trains_kept(
    doc: Seq<char>,
    id: Seq<char>,
    n: int,
    day_now: int,
    hour_now: int,
    minute_now: int,
)
    ensures
        kept_trains(doc, id, n, day_now, hour_now, minute_now) matches Ok(ts) ==> forall|i: int|
            0 <= i < ts.len() ==> keep_train(id, #[trigger] ts[i]),
    decreases n,
{
    if n > 0 {
        lemma_kept_trains_kept(doc, id, n - 1, day_now, hour_now, minute_now);
    }
}

/// Law: a stop shows at most nine departures, each of them one that the
/// stop's rule admits (not cancelled, at least three minutes away, and the
/// stop's own condition).
pub proof fn law_departures_shown(
    doc: Seq<char>,
    id: Seq<char>,
    limit: int,
    day_now: int,
    hour_now: int,
    minute_now: int,
)
    ensures
        list_spec(doc, id, limit, day_now, hour_now, minute_now) matches Ok(ts) ==> {
            &&& ts.len() <= 9
            &&& forall|i: int| 0 <= i < ts.len() ==> keep_train(id, #[trigger] ts[i])
        },
{
    lemma_kept_trains_kept(doc, id, limit, day_now, hour_now, minute_now);
}

/// Law: a departure counts as late (`onplanned`) exactly when its delay
/// exceeds five minutes.
pub proof fn law_late_when_delayed(f: Seq<Seq<char>>, day_now: int, hour_now: int, minute_now: int)
    ensures
        train_from_texts(f, day_now, hour_now, minute_now) matches Ok(t) ==> (t.onplanned <==> t.delay
            > 5),
{
    reveal(train_from_texts);
}


/// Law: what each stop shows.  Every departure listed is running and at
/// least three minutes away; at stop 20018269 (Bilk) it is more than 15
/// minutes away; at stop 20018249 (the main station) it is an S-Bahn or a
/// regional train more than 15 minutes away; at any other stop its
/// direction does not mention `Uni`.
pub proof fn law_stop_rules(
    doc: Seq<char>,
    id: Seq<char>,
    limit: int,
    day_now: int,
    hour_now: int,
    minute_now: int,
)
    ensures
        list_spec(doc, id, limit, day_now, hour_now, minute_now) matches Ok(ts) ==> forall|i: int|
            0 <= i < ts.len() ==> {
                &&& !(#[trigger] ts[i]).canceled
                &&& ts[i].time >= 3
                &&& id == "20018269"@ ==> ts[i].time > 15
                &&& id == "20018249"@ ==> ts[i].time > 15 && (ts[i].train_type == "S-Bahn"@
                    || ts[i].train_type == "Regionalzug"@)
                &&& id != "20018269"@ && id != "20018249"@ ==> !contains(ts[i].direction, "Uni"@)
            },
{
    reveal_strlit("20018269");
    reveal_strlit("20018249");
    reveal_strlit("S-Bahn");
    reveal_strlit("Regionalzug");
    reveal_strlit("Uni");
    assert("20018269"@ =~= stop_bilk());
    assert("20018249"@ =~= stop_main_station());
    assert("S-Bahn"@ =~= word_s_bahn());
    assert("Regionalzug"@ =~= word_regionalzug());
    assert("Uni"@ =~= word_uni());
    law_departures_shown(doc, id, limit, day_now, hour_now, minute_now);
}


/// Law: no departure that a stop's rule admits is left out.  Among the
/// first `n` departures, each one that is read, running, at least three
/// minutes away and meets the stop's own condition (more than 15 minutes
/// away at 20018269; an S-Bahn or regional train more than 15 minutes away
/// at 20018249; a direction without `Uni` elsewhere) is among those kept.
pub proof fn law_stop_keeps(
    doc: Seq<char>,
    id: Seq<char>,
    n: int,
    day_now: int,
    hour_now: int,
    minute_now: int,
)
    ensures
        kept_trains(doc, id, n, day_now, hour_now, minute_now) matches Ok(ts) ==> forall|k: int|
            0 <= k < n ==> (#[trigger] train_from_texts(
                departure_texts(doc, k),
                day_now,
                hour_now,
                minute_now,
            ) matches Ok(t) ==> ((!t.canceled && t.time >= 3 && (id == "20018269"@ ==> t.time > 15)
                && (id == "20018249"@ ==> t.time > 15 && (t.train_type == "S-Bahn"@
                || t.train_type == "Regionalzug"@)) && (id != "20018269"@ && id != "20018249"@
                ==> !contains(t.direction, "Uni"@))) ==> ts.contains(t))),
    decreases n,
{
    reveal_strlit("20018269");
    reveal_strlit("20018249");
    reveal_strlit("S-Bahn");
    reveal_strlit("Regionalzug");
    reveal_strlit("Uni");
    assert("20018269"@ =~= stop_bilk());
    assert("20018249"@ =~= stop_main_station());
    assert("S-Bahn"@ =~= word_s_bahn());
    assert("Regionalzug"@ =~= word_regionalzug());
    assert("Uni"@ =~= word_uni());
    if n > 0 {
        law_stop_keeps(doc, id, n - 1, day_now, hour_now, minute_now);
        if let Ok(ts) = kept_trains(doc, id, n, day_now, hour_now, minute_now) {
            let prev = kept_trains(doc, id, n - 1, day_now, hour_now, minute_now)->Ok_0;
            let last = train_from_texts(departure_texts(doc, n - 1), day_now, hour_now, minute_now)->Ok_0;
            assert forall|x: TrainView| prev.contains(x) implies ts.contains(x) by {
                let j = choose|j: int| 0 <= j < prev.len() && prev[j] == x;
                if keep_train(id, last) {
                    assert(ts[j] == prev.push(last)[j]);
                }
            }
            if keep_train(id, last) {
                assert(ts[prev.len() as int] == last);
            }
        }
    }
}

} // verus!
