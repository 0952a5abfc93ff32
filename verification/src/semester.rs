//! Lecture periods: read from the ministry's table of semesters, the period
//! that a day falls in, and how far it has progressed.  Days are counted as
//! chrono's `num_days_from_ce` (day 1 is 0001-01-01).
use vstd::prelude::*;
use crate::markup::{html_select, html_select_spec, regex_captures, regex_captures_spec, table_view};
use crate::text::{chars_of, string_of};

verus! {

/// The earliest day number of a `chrono::NaiveDate` (year -262143).
pub const MIN_DAY_NUMBER: i32 = -96_000_000;

/// The latest day number of a `chrono::NaiveDate` (year 262142).
pub const MAX_DAY_NUMBER: i32 = 96_000_000;

/// The day number of 1970-01-01.
pub const UNIX_EPOCH_DAY: i32 = 719_163;

/// The day that `chrono::NaiveDate::parse_from_str(text, "%d.%m.%Y")` reads,
/// as its `num_days_from_ce`, or `None` when it rejects the text.
pub uninterp spec fn dmy_day_number(text: Seq<char>) -> Option<i32>;

/// `chrono::NaiveDate::parse_from_str` with the format `%d.%m.%Y`, the date
/// taken as `num_days_from_ce`.  Trusted: the result is the named
/// `dmy_day_number`, and a `NaiveDate` lies within the bounds above.
#[verifier::external_body]
pub(crate) fn parse_dmy(text: &str) -> (res: Option<i32>)
    ensures
        res == dmy_day_number(text@),
        res matches Some(d) ==> MIN_DAY_NUMBER <= d <= MAX_DAY_NUMBER,
{
    match chrono::NaiveDate::parse_from_str(text, "%d.%m.%Y") {
        Ok(d) => Some(chrono::Datelike::num_days_from_ce(&d)),
        Err(_) => None,
    }
}

/// A semester, or the break between two: its first and last day and name.
#[derive(Clone, Debug)]
pub struct Semester {
    pub start: i32,
    pub end: i32,
    pub name: String,
}

/// The model of a `Semester`.
pub struct SemesterView {
    pub start: i32,
    pub end: i32,
    pub name: Seq<char>,
}

impl View for Semester {
    type V = SemesterView;

    open spec fn view(&self) -> SemesterView {
        SemesterView { start: self.start, end: self.end, name: self.name@ }
    }
}

/// The models of a sequence of semesters.
pub open spec fn semesters_view(s: Seq<Semester>) -> Seq<SemesterView> {
    s.map_values(|x: Semester| x@)
}

/// Why the semesters cannot be had.
#[derive(Debug, PartialEq, Eq, Structural)]
pub enum SemesterError {
    /// A selector or a regular expression does not compile, or a match lacks
    /// a group.
    BadPattern,
    /// The page has no table.
    NoTable,
    /// A semester name has no dates beside it.
    MissingDates,
    /// A date cannot be read.
    BadDate,
    /// No semester or break contains the day.
    NoSemester,
}

/// The pattern of a semester name in the table.
pub open spec fn name_pattern() -> Seq<char> {
    "([A-z]+)(?:&nbsp;)?<\\/td>"@
}

/// The pattern of a semester's first and last day in the table.
pub open spec fn dates_pattern() -> Seq<char> {
    "(\\d{2}.\\d{2}.\\d{4}) – (\\d{2}.\\d{2}.\\d{4})"@
}

/// Every capture has at least `n` groups (the whole match counted).
pub open spec fn has_groups(caps: Seq<Seq<Seq<char>>>, n: int) -> bool {
    forall|i: int| 0 <= i < caps.len() ==> (#[trigger] caps[i]).len() >= n
}

/// The semesters `0..n`: the `i`-th name with the `i`-th pair of dates; the
/// first error when a name has no dates or a date cannot be read.
pub open spec fn pair_semesters(names: Seq<Seq<Seq<char>>>, dates: Seq<Seq<Seq<char>>>, n: int) -> Result<
    Seq<SemesterView>,
    SemesterError,
>
    decreases n,
{
    if n <= 0 {
        Ok(Seq::empty())
    } else {
        match pair_semesters(names, dates, n - 1) {
            Err(e) => Err(e),
            Ok(prev) => {
                let i = n - 1;
                if i >= dates.len() {
                    Err(SemesterError::MissingDates)
                } else {
                    match (dmy_day_number(dates[i][1]), dmy_day_number(dates[i][2])) {
                        (Some(s), Some(e)) => Ok(
                            prev.push(SemesterView { start: s, end: e, name: names[i][1] }),
                        ),
                        _ => Err(SemesterError::BadDate),
                    }
                }
            },
        }
    }
}

/// The semesters in the first table of the page: names and date ranges
/// are found by the two patterns in the table's HTML and paired in order.
pub open spec fn page_semesters(page: Seq<char>) -> Result<Seq<SemesterView>, SemesterError> {
    match html_select_spec(page, seq!['t', 'a', 'b', 'l', 'e']) {
        None => Err(SemesterError::BadPattern),
        Some(tables) => if tables.len() == 0 {
            Err(SemesterError::NoTable)
        } else {
            let table = tables[0].outer;
            match (
                regex_captures_spec(name_pattern(), table),
                regex_captures_spec(dates_pattern(), table),
            ) {
                (Some(names), Some(dates)) => if has_groups(names, 2) && has_groups(dates, 3) {
                    pair_semesters(names, dates, names.len() as int)
                } else {
                    Err(SemesterError::BadPattern)
                },
                _ => Err(SemesterError::BadPattern),
            }
        },
    }
}

/// The model of a result carrying semesters.
pub open spec fn semesters_result_view(r: Result<Vec<Semester>, SemesterError>) -> Result<
    Seq<SemesterView>,
    SemesterError,
> {
    match r {
        Ok(v) => Ok(semesters_view(v@)),
        Err(e) => Err(e),
    }
}

/// Whether every row of a capture table has at least `n` groups.
fn rows_have_groups(t: &Vec<Vec<String>>, n: usize) -> (res: bool)
    ensures
        res == has_groups(table_view(t@), n as int),
{
    let mut i: usize = 0;
    while i < t.len()
        invariant
            0 <= i <= t.len(),
            forall|k: int| 0 <= k < i ==> (#[trigger] table_view(t@)[k]).len() >= n,
        decreases t.len() - i,
    {
        if t[i].len() < n {
            assert(table_view(t@)[i as int].len() < n);
            return false;
        }
        i = i + 1;
    }
    true
}

/// Once pairing fails, it fails with that error.
proof fn lemma_pair_error(names: Seq<Seq<Seq<char>>>, dates: Seq<Seq<Seq<char>>>, n: int, m: int)
    requires
        0 <= n <= m,
        pair_semesters(names, dates, n) is Err,
    ensures
        pair_semesters(names, dates, m) == pair_semesters(names, dates, n),
    decreases m - n,
{
    if n < m {
        lemma_pair_error(names, dates, n, m - 1);
    }
}

/// The semesters listed on the ministry's page of lecture periods.
pub fn semesters_from_page(page: &str) -> (res: Result<Vec<Semester>, SemesterError>)
    ensures
        semesters_result_view(res) == page_semesters(page@),
{
    let tables = match html_select(page, "table") {
        Some(t) => t,
        None => {
            proof {
                reveal_strlit("table");
                assert("table"@ =~= seq!['t', 'a', 'b', 'l', 'e']);
            }
            return Err(SemesterError::BadPattern);
        },
    };
    proof {
        reveal_strlit("table");
        assert("table"@ =~= seq!['t', 'a', 'b', 'l', 'e']);
    }
    if tables.len() == 0 {
        return Err(SemesterError::NoTable);
    }
    let table = tables[0].outer.as_str();
    let names = regex_captures("([A-z]+)(?:&nbsp;)?<\\/td>", table);
    let dates = regex_captures("(\\d{2}.\\d{2}.\\d{4}) – (\\d{2}.\\d{2}.\\d{4})", table);
    let (names, dates) = match (names, dates) {
        (Some(n), Some(d)) => (n, d),
        _ => return Err(SemesterError::BadPattern),
    };
    if !rows_have_groups(&names, 2) || !rows_have_groups(&dates, 3) {
        return Err(SemesterError::BadPattern);
    }
    let ghost nv = table_view(names@);
    let ghost dv = table_view(dates@);
    let mut res: Vec<Semester> = Vec::new();
    let mut i: usize = 0;
    assert(semesters_view(res@) =~= Seq::<SemesterView>::empty());
    assert(page_semesters(page@) == pair_semesters(nv, dv, nv.len() as int));
    while i < names.len()
        invariant
            0 <= i <= names.len(),
            nv.len() == names.len(),
            dv.len() == dates.len(),
            page_semesters(page@) == pair_semesters(nv, dv, nv.len() as int),
            nv == table_view(names@),
            dv == table_view(dates@),
            has_groups(nv, 2),
            has_groups(dv, 3),
            pair_semesters(nv, dv, i as int) == Ok::<Seq<SemesterView>, SemesterError>(
                semesters_view(res@),
            ),
        decreases names.len() - i,
    {
        if i >= dates.len() {
            proof {
                assert(pair_semesters(nv, dv, i + 1) == Err::<Seq<SemesterView>, SemesterError>(
                    SemesterError::MissingDates,
                ));
                lemma_pair_error(nv, dv, i + 1, nv.len() as int);
            }
            return Err(SemesterError::MissingDates);
        }
        assert(nv[i as int].len() >= 2);
        assert(dv[i as int].len() >= 3);
        assert(names@[i as int]@.len() >= 2);
        assert(dates@[i as int]@.len() >= 3);
        let start = parse_dmy(dates[i][1].as_str());
        let end = parse_dmy(dates[i][2].as_str());
        match (start, end) {
            (Some(s), Some(e)) => {
                let ghost prev = semesters_view(res@);
                let sem = Semester { start: s, end: e, name: names[i][1].clone() };
                res.push(sem);
                assert(semesters_view(res@) =~= prev.push(
                    SemesterView { start: s, end: e, name: nv[i as int][1] },
                ));
            },
            _ => {
                proof {
                    assert(dv[i as int][1] == dates@[i as int]@[1]@);
                    assert(dv[i as int][2] == dates@[i as int]@[2]@);
                    assert(pair_semesters(nv, dv, i + 1) == Err::<Seq<SemesterView>, SemesterError>(
                        SemesterError::BadDate,
                    ));
                    lemma_pair_error(nv, dv, i + 1, nv.len() as int);
                }
                return Err(SemesterError::BadDate);
            },
        }
        i = i + 1;
    }
    Ok(res)
}

// ---------------------------------------------------------------------------
// The current semester
// ---------------------------------------------------------------------------

/// The day lies in the semester, first and last day included.
pub open spec fn contains_day(s: SemesterView, day: int) -> bool {
    s.start <= day && s.end >= day
}

/// The search for the period of `day`, from semester `i` on: the first
/// semester that contains it, or the break after a semester that ended by
/// then and before the next one starts (named after the ended semester).
/// `Some(None)` when there is none; `None` when the search looks past the
/// last semester.
pub open spec fn search_from(sems: Seq<SemesterView>, day: int, i: int) -> Option<
    Option<SemesterView>,
>
    decreases sems.len() - i,
{
    if i < 0 || i >= sems.len() {
        Some(None)
    } else if contains_day(sems[i], day) {
        Some(Some(sems[i]))
    } else if sems[i].end <= day {
        if i + 1 >= sems.len() {
            None
        } else if sems[i + 1].start >= day {
            Some(Some(SemesterView { start: sems[i].end, end: sems[i + 1].start, name: sems[i].name }))
        } else {
            search_from(sems, day, i + 1)
        }
    } else {
        search_from(sems, day, i + 1)
    }
}

/// The search for the period of `day` stays within the list.
pub open spec fn search_in_bounds(sems: Seq<SemesterView>, day: int) -> bool {
    search_from(sems, day, 0) is Some
}

/// Whether the search for the period of `day` stays within the list.
pub fn current_semester_in_bounds(sems: &[Semester], day: i32) -> (res: bool)
    ensures
        res == search_in_bounds(semesters_view(sems@), day as int),
{
    let ghost sv = semesters_view(sems@);
    let mut i: usize = 0;
    while i < sems.len()
        invariant
            0 <= i <= sems.len(),
            sv == semesters_view(sems@),
            search_from(sv, day as int, 0) == search_from(sv, day as int, i as int),
        decreases sems.len() - i,
    {
        let s = &sems[i];
        assert(sv[i as int] == s@);
        if s.start <= day && s.end >= day {
            return true;
        }
        if s.end <= day {
            if i + 1 >= sems.len() {
                return false;
            }
            if sems[i + 1].start >= day {
                return true;
            }
        }
        i = i + 1;
    }
    true
}

/// The period that `day` falls in: the first semester that contains it, or
/// the break after a semester that has ended and before the next starts.
/// `Err(NoSemester)` when there is none.
pub fn current_semester(sems: &[Semester], day: i32) -> (res: Result<Semester, SemesterError>)
    requires
        search_in_bounds(semesters_view(sems@), day as int),
    ensures
        match search_from(semesters_view(sems@), day as int, 0) {
            Some(Some(s)) => res matches Ok(r) && r@ == s,
            _ => res == Err::<Semester, SemesterError>(SemesterError::NoSemester),
        },
{
    let ghost sv = semesters_view(sems@);
    let mut i: usize = 0;
    while i < sems.len()
        invariant
            0 <= i <= sems.len(),
            sv == semesters_view(sems@),
            search_from(sv, day as int, 0) == search_from(sv, day as int, i as int),
            search_from(sv, day as int, 0) is Some,
        decreases sems.len() - i,
    {
        let s = &sems[i];
        assert(sv[i as int] == s@);
        if s.start <= day && s.end >= day {
            return Ok(Semester { start: s.start, end: s.end, name: s.name.clone() });
        }
        if s.end <= day {
            assert(i + 1 < sems.len());
            let n = &sems[i + 1];
            assert(sv[i + 1] == n@);
            if n.start >= day {
                return Ok(Semester { start: s.end, end: n.start, name: s.name.clone() });
            }
        }
        i = i + 1;
    }
    Err(SemesterError::NoSemester)
}

/// How far a period has progressed on `day`: the days passed since its first
/// day and its length in days, when the length is positive.
pub fn progress_days(sem: &Semester, day: i32) -> (res: Option<(i64, i64)>)
    ensures
        res == if sem.end - sem.start > 0 {
            Some(((day - sem.start) as i64, (sem.end - sem.start) as i64))
        } else {
            None::<(i64, i64)>
        },
{
    let days = sem.end as i64 - sem.start as i64;
    let passed = day as i64 - sem.start as i64;
    if days > 0 {
        Some((passed, days))
    } else {
        None
    }
}

/// Unix seconds of midnight (UTC) at the start of the period's first day.
pub fn start_seconds(sem: &Semester) -> (res: i64)
    ensures
        res == (sem.start - UNIX_EPOCH_DAY) * 86_400,
{
    (sem.start as i64 - 719_163) * 86_400
}

// ---------------------------------------------------------------------------
// Laws
// ---------------------------------------------------------------------------

/// The period found from semester `i` on contains the day or lies between
/// the two semesters around it.
proof fn lemma_search_contains(sems: Seq<SemesterView>, day: int, i: int)
    ensures
        search_from(sems, day, i) matches Some(Some(p)) ==> p.start <= day <= p.end,
    decreases sems.len() - i,
{
    if 0 <= i < sems.len() {
        lemma_search_contains(sems, day, i + 1);
    }
}

/// Law: the period found for a day contains that day.
pub proof fn law_current_contains_day(sems: Seq<SemesterView>, day: int)
    ensures
        search_from(sems, day, 0) matches Some(Some(p)) ==> p.start <= day <= p.end,
{
    lemma_search_contains(sems, day, 0);
}

/// Law: a semester's progress never passes its length while the day lies
/// in it.
pub proof fn law_progress_within(start: int, end: int, day: int)
    requires
        start <= day <= end,
        end - start > 0,
    ensures
        0 <= day - start <= end - start,
{
}

} // verus!
