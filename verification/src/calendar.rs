//! Calendar events read from an iCalendar feed: the properties of each
//! `VEVENT`, the next occurrence of a recurring event, and the order by start.
use vstd::prelude::*;
use crate::text::{chars_of, split_field, split_field_exec, string_of};
use crate::time::{
    ics_stamp_seconds, ics_stamp_to_seconds, MAX_UTC_SECONDS, MIN_UTC_SECONDS,
    MIN_RFC3339_SECONDS, MAX_RFC3339_SECONDS,
};

verus! {

// ---------------------------------------------------------------------------
// Parsed iCalendar content
// ---------------------------------------------------------------------------

/// A property line of an iCalendar component: its name and its value
/// (parameters such as `TZID=...` are not kept).
#[derive(Clone, Debug)]
pub struct IcsProperty {
    pub name: String,
    pub value: String,
}

/// A top-level component of a calendar (`VEVENT`, `VTIMEZONE`, ...) with its
/// properties in document order.
#[derive(Clone, Debug)]
pub struct IcsComponent {
    pub name: String,
    pub properties: Vec<IcsProperty>,
}

/// The model of an `IcsProperty`.
pub struct PropertyView {
    pub name: Seq<char>,
    pub value: Seq<char>,
}

/// The model of an `IcsComponent`.
pub struct ComponentView {
    pub name: Seq<char>,
    pub properties: Seq<PropertyView>,
}

impl View for IcsProperty {
    type V = PropertyView;

    open spec fn view(&self) -> PropertyView {
        PropertyView { name: self.name@, value: self.value@ }
    }
}

impl View for IcsComponent {
    type V = ComponentView;

    open spec fn view(&self) -> ComponentView {
        ComponentView { name: self.name@, properties: properties_view(self.properties@) }
    }
}

/// The models of a sequence of properties.
pub open spec fn properties_view(ps: Seq<IcsProperty>) -> Seq<PropertyView> {
    ps.map_values(|p: IcsProperty| p@)
}

/// The models of a sequence of components.
pub open spec fn components_view(cs: Seq<IcsComponent>) -> Seq<ComponentView> {
    cs.map_values(|c: IcsComponent| c@)
}

/// A text with every occurrence of `pat` (found left to right) removed: the
/// pieces between them joined.
pub open spec fn joined_pieces(text: Seq<char>, pat: Seq<char>) -> Seq<char> {
    crate::text::split_all(text, pat).flatten()
}

/// What `icalendar::parser::unfold` makes of a text: the folded lines
/// joined again.  The text is split at `\r\n ` (a line break followed by a
/// space), each piece at `\n `, each of those at `\r\n\t`, each of those
/// at `\n\t`, and all pieces are joined.
pub open spec fn ics_unfold(text: Seq<char>) -> Seq<char> {
    crate::text::split_all(text, seq!['\r', '\n', ' ']).map_values(
        |a: Seq<char>|
            crate::text::split_all(a, seq!['\n', ' ']).map_values(
                |b: Seq<char>|
                    crate::text::split_all(b, seq!['\r', '\n', '\t']).map_values(
                        |c: Seq<char>| joined_pieces(c, seq!['\n', '\t']),
                    ).flatten(),
            ).flatten(),
    ).flatten()
}

/// The top-level components that `icalendar::parser::read_calendar` reads
/// from a text (the children of the `VCALENDAR` root when the root is one),
/// or `None` when it rejects the text.
pub uninterp spec fn ics_components(text: Seq<char>) -> Option<Seq<ComponentView>>;

/// `icalendar::parser::unfold`.  Trusted: the result is `ics_unfold` of
/// the text, the four splits and the join that its source makes.
#[verifier::external_body]
pub(crate) fn unfold(text: &str) -> (res: String)
    ensures
        res@ == ics_unfold(text@),
{
    icalendar::parser::unfold(text)
}

/// `icalendar::parser::read_calendar`, its components converted to plain
/// strings (name and value of each property, by their `Display`).  Trusted:
/// the result is the named `ics_components` of the text.
#[verifier::external_body]
pub(crate) fn read_calendar(text: &str) -> (res: Option<Vec<IcsComponent>>)
    ensures
        res matches Some(cs) ==> ics_components(text@) == Some(components_view(cs@)),
        res is None ==> ics_components(text@) is None,
{
    let cal = match icalendar::parser::read_calendar(text) {
        Ok(cal) => cal,
        Err(_) => return None,
    };
    Some(cal.components.iter().map(|c| IcsComponent {
        name: c.name.to_string(),
        properties: c.properties.iter().map(|p| IcsProperty {
            name: p.name.to_string(),
            value: p.val.to_string(),
        }).collect(),
    }).collect())
}

// ---------------------------------------------------------------------------
// Events
// ---------------------------------------------------------------------------

/// A calendar event; instants are Unix seconds.
#[derive(Clone, Debug)]
pub struct Event {
    pub title: String,
    pub start: i64,
    pub location: String,
    pub description: String,
    /// The `RRULE` value, empty for a single event.
    pub frequency: String,
    /// The occurrence to show: the start for a single event.
    pub next: i64,
}

/// The model of an `Event`.
pub struct EventView {
    pub title: Seq<char>,
    pub start: i64,
    pub location: Seq<char>,
    pub description: Seq<char>,
    pub frequency: Seq<char>,
    pub next: i64,
}

impl View for Event {
    type V = EventView;

    open spec fn view(&self) -> EventView {
        EventView {
            title: self.title@,
            start: self.start,
            location: self.location@,
            description: self.description@,
            frequency: self.frequency@,
            next: self.next,
        }
    }
}

/// The models of a sequence of events.
pub open spec fn events_view(es: Seq<Event>) -> Seq<EventView> {
    es.map_values(|e: Event| e@)
}

/// The empty event: no text, and both instants at the Unix epoch.
pub open spec fn default_event_view() -> EventView {
    EventView {
        title: Seq::empty(),
        start: 0,
        location: Seq::empty(),
        description: Seq::empty(),
        frequency: Seq::empty(),
        next: 0,
    }
}

impl Event {
    /// The empty event.
    pub fn empty() -> (res: Event)
        ensures
            res@ == default_event_view(),
    {
        Event {
            title: String::new(),
            start: 0,
            location: String::new(),
            description: String::new(),
            frequency: String::new(),
            next: 0,
        }
    }

    /// A copy of the event.
    pub fn copy(&self) -> (res: Event)
        ensures
            res@ == self@,
    {
        Event {
            title: self.title.clone(),
            start: self.start,
            location: self.location.clone(),
            description: self.description.clone(),
            frequency: self.frequency.clone(),
            next: self.next,
        }
    }
}

impl Default for Event {
    fn default() -> (res: Event)
        ensures
            res@ == default_event_view(),
    {
        Event::empty()
    }
}

pub open spec fn name_vevent() -> Seq<char> {
    seq!['V', 'E', 'V', 'E', 'N', 'T']
}

pub open spec fn name_summary() -> Seq<char> {
    seq!['S', 'U', 'M', 'M', 'A', 'R', 'Y']
}

pub open spec fn name_dtstart() -> Seq<char> {
    seq!['D', 'T', 'S', 'T', 'A', 'R', 'T']
}

pub open spec fn name_location() -> Seq<char> {
    seq!['L', 'O', 'C', 'A', 'T', 'I', 'O', 'N']
}

pub open spec fn name_description() -> Seq<char> {
    seq!['D', 'E', 'S', 'C', 'R', 'I', 'P', 'T', 'I', 'O', 'N']
}

pub open spec fn name_rrule() -> Seq<char> {
    seq!['R', 'R', 'U', 'L', 'E']
}

/// An event with one more property line taken into account: `SUMMARY`,
/// `DTSTART`, `LOCATION`, `DESCRIPTION` and `RRULE` set their field, a later
/// line overriding an earlier one; other lines change nothing.
pub open spec fn apply_property(e: EventView, p: PropertyView) -> EventView {
    if p.name == name_summary() {
        EventView { title: p.value, ..e }
    } else if p.name == name_dtstart() {
        EventView { start: ics_stamp_seconds(p.value).unwrap(), ..e }
    } else if p.name == name_location() {
        EventView { location: p.value, ..e }
    } else if p.name == name_description() {
        EventView { description: p.value, ..e }
    } else if p.name == name_rrule() {
        EventView { frequency: p.value, ..e }
    } else {
        e
    }
}

/// The event that the property lines of a component describe.
pub open spec fn fold_properties(ps: Seq<PropertyView>) -> EventView
    decreases ps.len(),
{
    if ps.len() == 0 {
        default_event_view()
    } else {
        apply_property(fold_properties(ps.drop_last()), ps.last())
    }
}

/// Every `DTSTART` line holds a readable date stamp.
pub open spec fn starts_readable(ps: Seq<PropertyView>) -> bool {
    forall|i: int|
        0 <= i < ps.len() && (#[trigger] ps[i]).name == name_dtstart() ==> ics_stamp_seconds(
            ps[i].value,
        ) is Some
}

pub open spec fn word_daily() -> Seq<char> {
    seq!['D', 'A', 'I', 'L', 'Y']
}

pub open spec fn word_weekly() -> Seq<char> {
    seq!['W', 'E', 'E', 'K', 'L', 'Y']
}

pub open spec fn word_monthly() -> Seq<char> {
    seq!['M', 'O', 'N', 'T', 'H', 'L', 'Y']
}

pub open spec fn word_yearly() -> Seq<char> {
    seq!['Y', 'E', 'A', 'R', 'L', 'Y']
}

/// Seconds in a day.
pub const DAY_SECONDS: i64 = 86_400;

/// The step of a recurrence frequency: a day, a week, 30 days or 365 days;
/// a day for any other word.
pub open spec fn frequency_step(word: Seq<char>) -> i64 {
    if word == word_daily() {
        86_400
    } else if word == word_weekly() {
        604_800
    } else if word == word_monthly() {
        2_592_000
    } else if word == word_yearly() {
        31_536_000
    } else {
        86_400
    }
}

/// The step of a recurrence rule: the frequency word is the text after the
/// first `=` of the first `;`-separated part.  `None` when that part has no
/// `=`.
pub open spec fn rule_step(rule: Seq<char>) -> Option<i64> {
    match split_field(rule, seq![';'], 0) {
        Some(first) => match split_field(first, seq!['='], 1) {
            Some(word) => Some(frequency_step(word)),
            None => None,
        },
        None => None,
    }
}

/// The end of a recurrence rule: the stamp after the first `=` of the third
/// `;`-separated part, read as an instant.  `None` when there is no third
/// part, it has no `=`, or the stamp cannot be read.
pub open spec fn rule_until(rule: Seq<char>) -> Option<i64> {
    match split_field(rule, seq![';'], 2) {
        Some(third) => match split_field(third, seq!['='], 1) {
            Some(stamp) => ics_stamp_seconds(stamp),
            None => None,
        },
        None => None,
    }
}

/// The first instant `start + k * step` (`k >= 0`) that is not before `now`.
pub open spec fn first_at_or_after(start: int, step: int, now: int) -> int {
    if start < now {
        start + ((now - start + step - 1) / step) * step
    } else {
        start
    }
}

/// The last instant `t - k * step` (`k >= 0`) that is not after `until`.
pub open spec fn last_at_or_before(t: int, step: int, until: int) -> int {
    if t > until {
        t - ((t - until + step - 1) / step) * step
    } else {
        t
    }
}

/// The occurrence of a recurring event that is shown: the first one not
/// before `now`, moved back step by step while it lies after the rule's end.
pub open spec fn recurrence_next(start: int, step: int, until: int, now: int) -> int {
    last_at_or_before(first_at_or_after(start, step, now), step, until)
}

/// The next occurrence of an event can be computed: it is a single event, or
/// its rule has a step and an end, and stepping forward to `now` stays within
/// the instants that chrono can hold.
pub open spec fn occurrence_readable(e: EventView, now: int) -> bool {
    e.frequency.len() == 0 || {
        &&& rule_step(e.frequency) is Some
        &&& rule_until(e.frequency) is Some
        &&& first_at_or_after(e.start as int, rule_step(e.frequency)->0 as int, now)
            <= MAX_UTC_SECONDS
    }
}

/// The event with its occurrence to show.
pub open spec fn with_next_occurrence(e: EventView, now: int) -> EventView {
    if e.frequency.len() == 0 {
        EventView { next: e.start, ..e }
    } else {
        EventView {
            next: recurrence_next(
                e.start as int,
                rule_step(e.frequency)->0 as int,
                rule_until(e.frequency)->0 as int,
                now,
            ) as i64,
            ..e
        }
    }
}

/// The events of the `VEVENT` components, in document order.
pub open spec fn vevent_events(cs: Seq<ComponentView>, now: int) -> Seq<EventView>
    decreases cs.len(),
{
    if cs.len() == 0 {
        Seq::empty()
    } else {
        let rest = vevent_events(cs.drop_last(), now);
        if cs.last().name == name_vevent() {
            rest.push(with_next_occurrence(fold_properties(cs.last().properties), now))
        } else {
            rest
        }
    }
}

/// Every `VEVENT` of the calendar can be read.
pub open spec fn calendar_readable(cs: Seq<ComponentView>, now: int) -> bool {
    forall|i: int|
        0 <= i < cs.len() && (#[trigger] cs[i]).name == name_vevent() ==> {
            &&& starts_readable(cs[i].properties)
            &&& occurrence_readable(fold_properties(cs[i].properties), now)
        }
}

/// The position at which an event with start `key` enters a sequence sorted
/// by start: after every event that does not start later.
pub open spec fn insertion_index(s: Seq<EventView>, key: i64) -> int
    decreases s.len(),
{
    if s.len() == 0 {
        0
    } else if s.last().start <= key {
        s.len() as int
    } else {
        insertion_index(s.drop_last(), key)
    }
}

/// `e` inserted into `s` after every event that does not start later.
pub open spec fn insert_by_start(s: Seq<EventView>, e: EventView) -> Seq<EventView> {
    s.insert(insertion_index(s, e.start), e)
}

/// The events sorted by start; events that start together keep their order.
pub open spec fn sort_by_start(s: Seq<EventView>) -> Seq<EventView>
    decreases s.len(),
{
    if s.len() == 0 {
        s
    } else {
        insert_by_start(sort_by_start(s.drop_last()), s.last())
    }
}

/// The events of a calendar as `extract_data` gives them: an empty event
/// followed by the `VEVENT`s, sorted by start.
pub open spec fn extracted_events(cs: Seq<ComponentView>, now: int) -> Seq<EventView> {
    sort_by_start(seq![default_event_view()] + vevent_events(cs, now))
}

/// Why a calendar cannot be turned into events.
#[derive(Debug, PartialEq, Eq, Structural)]
pub enum CalendarError {
    /// The text is not an iCalendar document.
    Unparsable,
    /// A `VEVENT` has a date stamp or a recurrence rule that cannot be read.
    Unreadable,
}

// ---------------------------------------------------------------------------
// Exec
// ---------------------------------------------------------------------------

/// Whether two character sequences are equal.
pub fn chars_eq(a: &[char], b: &[char]) -> (res: bool)
    ensures
        res == (a@ == b@),
{
    if a.len() != b.len() {
        return false;
    }
    let mut i: usize = 0;
    while i < a.len()
        invariant
            0 <= i <= a.len(),
            a.len() == b.len(),
            forall|j: int| 0 <= j < i ==> a@[j] == b@[j],
        decreases a.len() - i,
    {
        if a[i] != b[i] {
            return false;
        }
        i = i + 1;
    }
    assert(a@ =~= b@);
    true
}

/// The event described by a component's property lines, or `None` when a
/// `DTSTART` line cannot be read.
fn event_from_properties(props: &[IcsProperty]) -> (res: Option<Event>)
    ensures
        res matches Some(e) ==> e@ == fold_properties(properties_view(props@)),
        res is Some <==> starts_readable(properties_view(props@)),
        res matches Some(e) ==> MIN_RFC3339_SECONDS <= e.start <= MAX_RFC3339_SECONDS,
{
    let ghost pv = properties_view(props@);
    let mut e = Event::empty();
    let mut i: usize = 0;
    let summary = vec!['S', 'U', 'M', 'M', 'A', 'R', 'Y'];
    let dtstart = vec!['D', 'T', 'S', 'T', 'A', 'R', 'T'];
    let location = vec!['L', 'O', 'C', 'A', 'T', 'I', 'O', 'N'];
    let description = vec!['D', 'E', 'S', 'C', 'R', 'I', 'P', 'T', 'I', 'O', 'N'];
    let rrule = vec!['R', 'R', 'U', 'L', 'E'];
    while i < props.len()
        invariant
            0 <= i <= props.len(),
            pv == properties_view(props@),
            summary@ == name_summary(),
            dtstart@ == name_dtstart(),
            location@ == name_location(),
            description@ == name_description(),
            rrule@ == name_rrule(),
            e@ == fold_properties(pv.take(i as int)),
            starts_readable(pv.take(i as int)),
            MIN_RFC3339_SECONDS <= e.start <= MAX_RFC3339_SECONDS,
        decreases props.len() - i,
    {
        let p = &props[i];
        assert(pv.take(i + 1).drop_last() =~= pv.take(i as int));
        assert(pv.take(i + 1).last() == p@);
        let name = chars_of(p.name.as_str());
        if chars_eq(name.as_slice(), summary.as_slice()) {
            e.title = p.value.clone();
        } else if chars_eq(name.as_slice(), dtstart.as_slice()) {
            let v = chars_of(p.value.as_str());
            match ics_stamp_to_seconds(v.as_slice()) {
                Some(t) => {
                    e.start = t;
                },
                None => {
                    assert(pv[i as int].name == name_dtstart());
                    return None;
                },
            }
        } else if chars_eq(name.as_slice(), location.as_slice()) {
            e.location = p.value.clone();
        } else if chars_eq(name.as_slice(), description.as_slice()) {
            e.description = p.value.clone();
        } else if chars_eq(name.as_slice(), rrule.as_slice()) {
            e.frequency = p.value.clone();
        }
        assert(starts_readable(pv.take(i + 1))) by {
            assert forall|j: int|
                0 <= j < i + 1 && (#[trigger] pv.take(i + 1)[j]).name
                    == name_dtstart() implies ics_stamp_seconds(pv.take(i + 1)[j].value) is Some by {
                if j < i {
                    assert(pv.take(i + 1)[j] == pv.take(i as int)[j]);
                }
            }
        }
        i = i + 1;
    }
    assert(pv.take(props.len() as int) =~= pv);
    Some(e)
}

/// The step of a frequency word.
fn frequency_step_exec(word: &[char]) -> (res: i64)
    ensures
        res == frequency_step(word@),
{
    if chars_eq(word, vec!['D', 'A', 'I', 'L', 'Y'].as_slice()) {
        86_400
    } else if chars_eq(word, vec!['W', 'E', 'E', 'K', 'L', 'Y'].as_slice()) {
        604_800
    } else if chars_eq(word, vec!['M', 'O', 'N', 'T', 'H', 'L', 'Y'].as_slice()) {
        2_592_000
    } else if chars_eq(word, vec!['Y', 'E', 'A', 'R', 'L', 'Y'].as_slice()) {
        31_536_000
    } else {
        86_400
    }
}

/// The step of a recurrence rule.
fn rule_step_exec(rule: &[char]) -> (res: Option<i64>)
    ensures
        res == rule_step(rule@),
{
    let semi = vec![';'];
    let eq = vec!['='];
    assert(semi@ =~= seq![';']);
    assert(eq@ =~= seq!['=']);
    match split_field_exec(rule, semi.as_slice(), 0) {
        Some(first) => match split_field_exec(first.as_slice(), eq.as_slice(), 1) {
            Some(word) => Some(frequency_step_exec(word.as_slice())),
            None => None,
        },
        None => None,
    }
}

/// The end of a recurrence rule.
fn rule_until_exec(rule: &[char]) -> (res: Option<i64>)
    ensures
        res == rule_until(rule@),
        res matches Some(t) ==> MIN_RFC3339_SECONDS <= t <= MAX_RFC3339_SECONDS,
{
    let semi = vec![';'];
    let eq = vec!['='];
    assert(semi@ =~= seq![';']);
    assert(eq@ =~= seq!['=']);
    match split_field_exec(rule, semi.as_slice(), 2) {
        Some(third) => match split_field_exec(third.as_slice(), eq.as_slice(), 1) {
            Some(stamp) => ics_stamp_to_seconds(stamp.as_slice()),
            None => None,
        },
        None => None,
    }
}


/// `(k - 1) * s < a <= k * s` pins `k` down as the rounded-up quotient.
proof fn lemma_ceil_quotient(a: int, s: int, k: int)
    requires
        s > 0,
        (k - 1) * s < a <= k * s,
    ensures
        (a + s - 1) / s == k,
{
    assert((a + s - 1) / s == k) by (nonlinear_arith)
        requires
            s > 0,
            (k - 1) * s < a,
            a <= k * s,
    {
        assert(k * s <= a + s - 1);
        assert(a + s - 1 < (k + 1) * s);
    }
}

/// The occurrence of a recurring event to show: step forward from `start`
/// until not before `now`, then back while after `until`.  `None` when
/// stepping forward leaves the instants that chrono can hold.
pub fn recurrence_next_exec(start: i64, step: i64, until: i64, now: i64) -> (res: Option<i64>)
    requires
        0 < step <= 31_536_000,
        MIN_RFC3339_SECONDS <= start <= MAX_RFC3339_SECONDS,
        MIN_RFC3339_SECONDS <= until <= MAX_RFC3339_SECONDS,
        MIN_UTC_SECONDS <= now <= MAX_UTC_SECONDS,
    ensures
        res is Some <==> first_at_or_after(start as int, step as int, now as int) <= MAX_UTC_SECONDS,
        res matches Some(t) ==> t == recurrence_next(start as int, step as int, until as int, now as int),
{
    let mut next = start;
    let ghost mut k: int = 0;
    while next < now
        invariant
            0 < step <= 31_536_000,
            MIN_RFC3339_SECONDS <= start <= MAX_RFC3339_SECONDS,
            MIN_UTC_SECONDS <= now <= MAX_UTC_SECONDS,
            k >= 0,
            next == start + k * step,
            k > 0 ==> start < now && next - step < now,
            start <= next,
            next <= start || next < now + step,
        decreases now + step - next,
    {
        proof {
            assert((k + 1) * step == k * step + step) by (nonlinear_arith);
            k = k + 1;
        }
        next = next + step;
    }
    proof {
        if k > 0 {
            assert((k - 1) * step == k * step - step) by (nonlinear_arith);
            lemma_ceil_quotient(now - start, step as int, k);
        }
    }
    assert(next == first_at_or_after(start as int, step as int, now as int));
    if next > MAX_UTC_SECONDS {
        return None;
    }
    let ghost first = next as int;
    let ghost mut m: int = 0;
    while next > until
        invariant
            0 < step <= 31_536_000,
            MIN_RFC3339_SECONDS <= until <= MAX_RFC3339_SECONDS,
            first <= MAX_UTC_SECONDS,
            m >= 0,
            next == first - m * step,
            m > 0 ==> first > until && next + step > until,
            next <= first,
            next >= first || next > until - step,
        decreases next + step - until,
    {
        proof {
            assert((m + 1) * step == m * step + step) by (nonlinear_arith);
            m = m + 1;
        }
        next = next - step;
    }
    proof {
        if m > 0 {
            assert((m - 1) * step == m * step - step) by (nonlinear_arith);
            lemma_ceil_quotient(first - until, step as int, m);
        }
    }
    Some(next)
}

/// `e` inserted into the sorted events after every event that does not
/// start later.
pub(crate) fn insert_sorted(res: &mut Vec<Event>, e: Event)
    ensures
        events_view(final(res)@) == insert_by_start(events_view(old(res)@), e@),
{
    let ghost v = events_view(res@);
    let key = e.start;
    let mut j = res.len();
    assert(v.take(j as int) =~= v);
    while j > 0 && res[j - 1].start > key
        invariant
            0 <= j <= res.len(),
            v == events_view(res@),
            insertion_index(v, key) == insertion_index(v.take(j as int), key),
        decreases j,
    {
        assert(v.take(j as int).drop_last() =~= v.take(j - 1));
        j = j - 1;
    }
    proof {
        if j > 0 {
            assert(v.take(j as int).last() == v[j - 1]);
        } else {
            assert(v.take(0) =~= Seq::<EventView>::empty());
        }
    }
    res.insert(j, e);
    assert(events_view(res@) =~= v.insert(j as int, e@));
}

/// The event with its occurrence to show, or `None` when it cannot be
/// computed.
fn with_next_occurrence_exec(e: Event, now: i64) -> (res: Option<Event>)
    requires
        MIN_RFC3339_SECONDS <= e.start <= MAX_RFC3339_SECONDS,
        MIN_UTC_SECONDS <= now <= MAX_UTC_SECONDS,
    ensures
        res is Some <==> occurrence_readable(e@, now as int),
        res matches Some(r) ==> r@ == with_next_occurrence(e@, now as int),
{
    let mut e = e;
    let rule = chars_of(e.frequency.as_str());
    if rule.len() == 0 {
        e.next = e.start;
        return Some(e);
    }
    let step = match rule_step_exec(rule.as_slice()) {
        Some(s) => s,
        None => return None,
    };
    let until = match rule_until_exec(rule.as_slice()) {
        Some(u) => u,
        None => return None,
    };
    assert(0 < step <= 31_536_000);
    match recurrence_next_exec(e.start, step, until, now) {
        Some(t) => {
            e.next = t;
            Some(e)
        },
        None => None,
    }
}

/// The events of the `VEVENT` components, each with the occurrence to show,
/// after an empty event, sorted by start (stably).  `Err(Unreadable)` when a
/// `VEVENT` has a date stamp or a recurrence rule that cannot be read.
pub fn extract_data_at(components: &[IcsComponent], now: i64) -> (res: Result<
    Vec<Event>,
    CalendarError,
>)
    requires
        MIN_UTC_SECONDS <= now <= MAX_UTC_SECONDS,
    ensures
        res is Ok <==> calendar_readable(components_view(components@), now as int),
        res matches Ok(v) ==> events_view(v@) == extracted_events(
            components_view(components@),
            now as int,
        ),
        res matches Err(e) ==> e == CalendarError::Unreadable,
{
    let ghost cv = components_view(components@);
    let ghost d = default_event_view();
    let vevent = vec!['V', 'E', 'V', 'E', 'N', 'T'];
    let mut res: Vec<Event> = Vec::new();
    res.push(Event::empty());
    proof {
        assert(cv.take(0) =~= Seq::<ComponentView>::empty());
        assert(seq![d] + Seq::<EventView>::empty() =~= seq![d]);
        assert(seq![d].drop_last() =~= Seq::<EventView>::empty());
        assert(sort_by_start(Seq::<EventView>::empty()) =~= Seq::<EventView>::empty());
        assert(vevent_events(cv.take(0), now as int) =~= Seq::<EventView>::empty());
        assert(insertion_index(Seq::<EventView>::empty(), d.start) == 0);
        assert(Seq::<EventView>::empty().insert(0, d) =~= seq![d]);
        assert(sort_by_start(seq![d]) =~= seq![d]);
        assert(events_view(res@) =~= seq![d]);
    }
    let mut i: usize = 0;
    while i < components.len()
        invariant
            0 <= i <= components.len(),
            MIN_UTC_SECONDS <= now <= MAX_UTC_SECONDS,
            cv == components_view(components@),
            d == default_event_view(),
            vevent@ == name_vevent(),
            events_view(res@) == sort_by_start(seq![d] + vevent_events(cv.take(i as int), now as int)),
            calendar_readable(cv.take(i as int), now as int),
        decreases components.len() - i,
    {
        let c = &components[i];
        let ghost before = seq![d] + vevent_events(cv.take(i as int), now as int);
        assert(cv.take(i + 1).drop_last() =~= cv.take(i as int));
        assert(cv.take(i + 1).last() == c@);
        assert(cv[i as int] == c@);
        let name = chars_of(c.name.as_str());
        if chars_eq(name.as_slice(), vevent.as_slice()) {
            let e = match event_from_properties(c.properties.as_slice()) {
                Some(e) => e,
                None => {
                    assert(!calendar_readable(cv, now as int));
                    return Err(CalendarError::Unreadable);
                },
            };
            let e = match with_next_occurrence_exec(e, now) {
                Some(e) => e,
                None => {
                    assert(!calendar_readable(cv, now as int));
                    return Err(CalendarError::Unreadable);
                },
            };
            let ghost ev = e@;
            insert_sorted(&mut res, e);
            proof {
                let after = seq![d] + vevent_events(cv.take(i + 1), now as int);
                assert(after =~= before.push(ev));
                assert(after.drop_last() =~= before);
                assert(calendar_readable(cv.take(i + 1), now as int)) by {
                    assert forall|j: int|
                        0 <= j < i + 1 && (#[trigger] cv.take(i + 1)[j]).name
                            == name_vevent() implies {
                        &&& starts_readable(cv.take(i + 1)[j].properties)
                        &&& occurrence_readable(
                            fold_properties(cv.take(i + 1)[j].properties),
                            now as int,
                        )
                    } by {
                        if j < i {
                            assert(cv.take(i + 1)[j] == cv.take(i as int)[j]);
                        }
                    }
                }
            }
        } else {
            proof {
                let after = seq![d] + vevent_events(cv.take(i + 1), now as int);
                assert(after =~= before);
                assert(calendar_readable(cv.take(i + 1), now as int)) by {
                    assert forall|j: int|
                        0 <= j < i + 1 && (#[trigger] cv.take(i + 1)[j]).name
                            == name_vevent() implies {
                        &&& starts_readable(cv.take(i + 1)[j].properties)
                        &&& occurrence_readable(
                            fold_properties(cv.take(i + 1)[j].properties),
                            now as int,
                        )
                    } by {
                        if j < i {
                            assert(cv.take(i + 1)[j] == cv.take(i as int)[j]);
                        }
                    }
                }
            }
        }
        i = i + 1;
    }
    assert(cv.take(components.len() as int) =~= cv);
    Ok(res)
}


/// The components of an iCalendar document: the text is unfolded, then
/// parsed.  `Err(Unparsable)` when the parser rejects it.
pub fn parse_calendar(text: &str) -> (res: Result<Vec<IcsComponent>, CalendarError>)
    ensures
        res is Ok <==> ics_components(ics_unfold(text@)) is Some,
        res matches Ok(cs) ==> ics_components(ics_unfold(text@)) == Some(components_view(cs@)),
        res matches Err(e) ==> e == CalendarError::Unparsable,
{
    let unfolded = unfold(text);
    match read_calendar(unfolded.as_str()) {
        Some(cs) => Ok(cs),
        None => Err(CalendarError::Unparsable),
    }
}

/// The events of a calendar (see `extract_data_at`), at the current time
/// rounded up to whole seconds (which compares with whole-second instants
/// as the exact time does).  Whatever the clock said, the result is what
/// `extract_data_at` gives for that instant.
pub fn extract_data(components: &[IcsComponent]) -> (res: Result<Vec<Event>, CalendarError>)
    ensures
        exists|now: int|
            MIN_UTC_SECONDS <= now <= MAX_UTC_SECONDS && (res is Ok <==> calendar_readable(
                components_view(components@),
                now,
            )) && (res matches Ok(v) ==> events_view(v@) == extracted_events(
                components_view(components@),
                now,
            )),
        res matches Err(e) ==> e == CalendarError::Unreadable,
{
    let now = crate::time::utc_now_ceil();
    let res = extract_data_at(components, now);
    assert(MIN_UTC_SECONDS <= now as int <= MAX_UTC_SECONDS && (res is Ok <==> calendar_readable(
        components_view(components@),
        now as int,
    )) && (res matches Ok(v) ==> events_view(v@) == extracted_events(
        components_view(components@),
        now as int,
    )));
    res
}

/// The events that do not start before `now`.
pub open spec fn not_started_before(es: Seq<EventView>, now: int) -> Seq<EventView> {
    es.filter(|e: EventView| e.start >= now)
}

/// The upcoming events of an iCalendar document: parsed, extracted at
/// `now`, and without those that start before `now` (the empty event among
/// them).
pub fn upcoming_events(text: &str, now: i64) -> (res: Result<Vec<Event>, CalendarError>)
    requires
        MIN_UTC_SECONDS <= now <= MAX_UTC_SECONDS,
    ensures
        match ics_components(ics_unfold(text@)) {
            None => res == Err::<Vec<Event>, CalendarError>(CalendarError::Unparsable),
            Some(cs) => {
                &&& (res is Ok <==> calendar_readable(cs, now as int))
                &&& (res matches Ok(v) ==> events_view(v@) == not_started_before(
                    extracted_events(cs, now as int),
                    now as int,
                ))
                &&& (res matches Err(e) ==> e == CalendarError::Unreadable)
            },
        },
{
    let components = match parse_calendar(text) {
        Ok(cs) => cs,
        Err(e) => return Err(e),
    };
    let all = match extract_data_at(components.as_slice(), now) {
        Ok(v) => v,
        Err(e) => return Err(e),
    };
    let ghost av = events_view(all@);
    let mut res: Vec<Event> = Vec::new();
    let mut i: usize = 0;
    while i < all.len()
        invariant
            0 <= i <= all.len(),
            av == events_view(all@),
            events_view(res@) == not_started_before(av.take(i as int), now as int),
        decreases all.len() - i,
    {
        proof {
            assert(av.take(i + 1).drop_last() =~= av.take(i as int));
            reveal_with_fuel(Seq::filter, 1);
        }
        if all[i].start >= now {
            res.push(all[i].copy());
            assert(events_view(res@) =~= not_started_before(av.take(i as int), now as int).push(
                av[i as int],
            ));
        }
        i = i + 1;
    }
    assert(av.take(all.len() as int) =~= av);
    Ok(res)
}

/// What `upcoming_events` gives for the document `text` at `now`.
pub open spec fn upcoming_outcome(
    text: Seq<char>,
    now: int,
    res: Result<Vec<Event>, CalendarError>,
) -> bool {
    match ics_components(ics_unfold(text)) {
        None => res == Err::<Vec<Event>, CalendarError>(CalendarError::Unparsable),
        Some(cs) => {
            &&& (res is Ok <==> calendar_readable(cs, now))
            &&& (res matches Ok(v) ==> events_view(v@) == not_started_before(
                extracted_events(cs, now),
                now,
            ))
            &&& (res matches Err(e) ==> e == CalendarError::Unreadable)
        },
    }
}

/// The upcoming events of an iCalendar document as of the current time,
/// read once from the system clock and rounded up to whole seconds (which
/// compares with whole-second instants as the exact time does): for some
/// instant `now` that the clock can give, the result is that of
/// `upcoming_events` at `now`.
pub fn upcoming_events_now(text: &str) -> (res: Result<Vec<Event>, CalendarError>)
    ensures
        exists|now: int|
            MIN_UTC_SECONDS <= now <= MAX_UTC_SECONDS && #[trigger] upcoming_outcome(
                text@,
                now,
                res,
            ),
{
    let now = crate::time::utc_now_ceil();
    let res = upcoming_events(text, now);
    assert(upcoming_outcome(text@, now as int, res));
    res
}

/// A calendar's URL template (as JSON text, quotes included) with `START`
/// replaced by the given Unix seconds, and the quotes removed.
pub fn calendar_url(template_json: &str, start_seconds: i64) -> (res: String)
    ensures
        res@ == crate::text::without_char(
            crate::text::replace_all(
                template_json@,
                seq!['S', 'T', 'A', 'R', 'T'],
                crate::text::decimal(start_seconds as int),
            ),
            '"',
        ),
{
    let t = chars_of(template_json);
    let pat = vec!['S', 'T', 'A', 'R', 'T'];
    let digits = crate::text::decimal_of(start_seconds);
    let replaced = crate::text::replace_all_exec(t.as_slice(), pat.as_slice(), digits.as_slice());
    let cleaned = crate::text::without_char_exec(replaced.as_slice(), '"');
    string_of(cleaned.as_slice())
}

/// The number of calendars that a configuration text lists: the length of
/// its `"calendars"` array; `None` when the text is not JSON or
/// `"calendars"` is not an array.
pub uninterp spec fn config_calendar_count(doc: Seq<char>) -> Option<nat>;

/// The JSON text (the `Display` of a `serde_json::Value`, `null` when
/// absent) of `["calendars"][index]["url"]` in a configuration text.
pub uninterp spec fn config_url_json(doc: Seq<char>, index: int) -> Seq<char>;

/// `serde_json::from_str::<Value>`, then `["calendars"].as_array()`, then
/// for each calendar the `Display` text of its `["url"]` (indexing gives
/// `null` where nothing is found).  Trusted: `None` exactly when the text
/// is not JSON or `"calendars"` is not an array; otherwise one text per
/// calendar, each the named `config_url_json`.
#[verifier::external_body]
pub(crate) fn config_calendars(doc: &str) -> (res: Option<Vec<String>>)
    ensures
        res is None <==> config_calendar_count(doc@) is None,
        res matches Some(v) ==> config_calendar_count(doc@) == Some(v@.len() as nat) && forall|i: int|
            0 <= i < v@.len() ==> #[trigger] v@[i]@ == config_url_json(doc@, i),
{
    let json: serde_json::Value = match serde_json::from_str(doc) {
        Ok(j) => j,
        Err(_) => return None,
    };
    match json["calendars"].as_array() {
        Some(a) => Some(a.iter().map(|c| c["url"].to_string()).collect()),
        None => None,
    }
}

/// Why no calendar can be taken from the configuration.
#[derive(Debug, Clone, Copy, PartialEq, Eq, Structural)]
pub enum ConfigError {
    /// The text is not JSON, or its `"calendars"` is not an array.
    Unreadable,
    /// The array has no calendar at the index asked for.
    NoCalendar,
}

/// The address of calendar `id` of a configuration text, from
/// `start_seconds` on (see `calendar_url`), and how many calendars the
/// configuration lists.  `Err(Unreadable)` when the configuration cannot
/// be read, `Err(NoCalendar)` when it lists `id` calendars or fewer.
pub fn calendar_source(config: &str, id: usize, start_seconds: i64) -> (res: Result<
    (String, usize),
    ConfigError,
>)
    ensures
        match config_calendar_count(config@) {
            None => res == Err::<(String, usize), ConfigError>(ConfigError::Unreadable),
            Some(n) => if id < n {
                res matches Ok((url, count)) && count == n && url@ == crate::text::without_char(
                    crate::text::replace_all(
                        config_url_json(config@, id as int),
                        seq!['S', 'T', 'A', 'R', 'T'],
                        crate::text::decimal(start_seconds as int),
                    ),
                    '"',
                )
            } else {
                res == Err::<(String, usize), ConfigError>(ConfigError::NoCalendar)
            },
        },
{
    let urls = match config_calendars(config) {
        Some(v) => v,
        None => return Err(ConfigError::Unreadable),
    };
    if id >= urls.len() {
        return Err(ConfigError::NoCalendar);
    }
    assert(urls@[id as int]@ == config_url_json(config@, id as int));
    let url = calendar_url(urls[id].as_str(), start_seconds);
    Ok((url, urls.len()))
}

/// The calendar to show after `id` among `count` calendars: the next one,
/// back to the first after the last.
pub fn next_calendar_index(id: usize, count: usize) -> (res: usize)
    requires
        id < count,
    ensures
        res == if id == count - 1 {
            0
        } else {
            id + 1
        },
        res < count,
{
    if id == count - 1 {
        0
    } else {
        id + 1
    }
}

/// The time line shown above an event: its instant as `dd.mm.yyyy  HH:MM`
/// (UTC); `None` for an instant that a `DateTime<Utc>` cannot hold.
pub fn event_time_text(seconds: i64) -> (res: Option<String>)
    ensures
        res is Some <==> MIN_UTC_SECONDS <= seconds <= MAX_UTC_SECONDS,
        res matches Some(t) ==> t@ == crate::time::dmy_hm_spaced_text(seconds),
{
    if MIN_UTC_SECONDS <= seconds && seconds <= MAX_UTC_SECONDS {
        Some(crate::time::format_dmy_hm_spaced(seconds))
    } else {
        None
    }
}

/// The place line shown under an event: its location, or `siehe Kalender`
/// when the location is longer than 17 bytes.
pub fn place_line(location: &str) -> (res: String)
    ensures
        res@ == if location.len() > 17 {
            seq!['s', 'i', 'e', 'h', 'e', ' ', 'K', 'a', 'l', 'e', 'n', 'd', 'e', 'r']
        } else {
            location@
        },
{
    if location.len() > 17 {
        let v = vec!['s', 'i', 'e', 'h', 'e', ' ', 'K', 'a', 'l', 'e', 'n', 'd', 'e', 'r'];
        string_of(v.as_slice())
    } else {
        string_of(chars_of(location).as_slice())
    }
}

// ---------------------------------------------------------------------------
// Laws
// ---------------------------------------------------------------------------

/// The events are in order of start.
pub open spec fn sorted_by_start(s: Seq<EventView>) -> bool {
    forall|i: int, j: int| 0 <= i < j < s.len() ==> s[i].start <= s[j].start
}

/// In a sorted sequence the insertion index splits the events that do not
/// start later than `key` from those that start later.
proof fn lemma_insertion_index(s: Seq<EventView>, key: i64)
    requires
        sorted_by_start(s),
    ensures
        0 <= insertion_index(s, key) <= s.len(),
        forall|i: int| 0 <= i < insertion_index(s, key) ==> s[i].start <= key,
        forall|i: int| insertion_index(s, key) <= i < s.len() ==> s[i].start > key,
    decreases s.len(),
{
    if s.len() > 0 {
        if s.last().start <= key {
            assert forall|i: int| 0 <= i < s.len() implies s[i].start <= key by {
                if i < s.len() - 1 {
                    assert(s[i].start <= s[s.len() - 1].start);
                }
            }
        } else {
            let t = s.drop_last();
            assert(sorted_by_start(t));
            lemma_insertion_index(t, key);
            assert forall|i: int| 0 <= i < insertion_index(s, key) implies s[i].start <= key by {
                assert(s[i] == t[i]);
            }
            assert forall|i: int| insertion_index(s, key) <= i < s.len() implies s[i].start > key by {
                if i < s.len() - 1 {
                    assert(s[i] == t[i]);
                }
            }
        }
    }
}

/// Inserting by start keeps a sequence sorted and adds exactly the event.
proof fn lemma_insert_by_start(s: Seq<EventView>, e: EventView)
    requires
        sorted_by_start(s),
    ensures
        sorted_by_start(insert_by_start(s, e)),
        insert_by_start(s, e).to_multiset() == s.to_multiset().insert(e),
        insert_by_start(s, e).len() == s.len() + 1,
{
    broadcast use vstd::seq_lib::group_to_multiset_ensures;

    lemma_insertion_index(s, e.start);
    let p = insertion_index(s, e.start);
    let r = s.insert(p, e);
    assert forall|i: int, j: int| 0 <= i < j < r.len() implies r[i].start <= r[j].start by {
        if j < p {
        } else if j == p {
        } else if i < p {
        } else if i == p {
        } else {
        }
    }
}

/// Law: sorting by start gives a sorted rearrangement of the same events.
pub proof fn law_sort_by_start(s: Seq<EventView>)
    ensures
        sorted_by_start(sort_by_start(s)),
        sort_by_start(s).to_multiset() == s.to_multiset(),
        sort_by_start(s).len() == s.len(),
    decreases s.len(),
{
    broadcast use vstd::seq_lib::group_to_multiset_ensures;

    if s.len() > 0 {
        law_sort_by_start(s.drop_last());
        lemma_insert_by_start(sort_by_start(s.drop_last()), s.last());
        assert(s.drop_last().push(s.last()) =~= s);
    }
}

/// Sorting keeps every property that each event had before.
pub(crate) proof fn lemma_sort_keeps_each(s: Seq<EventView>, p: spec_fn(EventView) -> bool)
    requires
        forall|k: int| 0 <= k < s.len() ==> p(#[trigger] s[k]),
    ensures
        forall|k: int| 0 <= k < sort_by_start(s).len() ==> p(#[trigger] sort_by_start(s)[k]),
    decreases s.len(),
{
    if s.len() > 0 {
        let t = sort_by_start(s.drop_last());
        lemma_sort_keeps_each(s.drop_last(), p);
        law_sort_by_start(s.drop_last());
        lemma_insertion_index(t, s.last().start);
        let q = insertion_index(t, s.last().start);
        t.insert_ensures(q, s.last());
        assert forall|k: int| 0 <= k < sort_by_start(s).len() implies p(
            #[trigger] sort_by_start(s)[k],
        ) by {
            if k > q {
                assert(t.insert(q, s.last())[(k - 1) + 1] == t[k - 1]);
            }
        }
    }
}

/// Law: the events extracted from a calendar are in order of start, and
/// they are the empty event and the `VEVENT`s' events, each exactly once.
pub proof fn law_extracted_events(cs: Seq<ComponentView>, now: int)
    ensures
        sorted_by_start(extracted_events(cs, now)),
        extracted_events(cs, now).to_multiset() == (seq![default_event_view()] + vevent_events(
            cs,
            now,
        )).to_multiset(),
        extracted_events(cs, now).len() == 1 + vevent_events(cs, now).len(),
{
    law_sort_by_start(seq![default_event_view()] + vevent_events(cs, now));
}

/// Rounding up a quotient: `q = (a + s - 1) / s` is the least `q` with
/// `a <= q * s`.
proof fn lemma_round_up(a: int, s: int)
    requires
        s > 0,
    ensures
        ((a + s - 1) / s - 1) * s < a <= ((a + s - 1) / s) * s,
{
    let q = (a + s - 1) / s;
    let r = (a + s - 1) % s;
    vstd::arithmetic::div_mod::lemma_fundamental_div_mod(a + s - 1, s);
    assert(0 <= r < s);
    assert((q - 1) * s < a <= q * s) by (nonlinear_arith)
        requires
            a + s - 1 == s * q + r,
            0 <= r < s,
            s > 0,
    ;
}

/// Law: the occurrence shown for a recurring event never lies after the
/// rule's end.
pub proof fn law_recurrence_not_after_until(start: int, step: int, until: int, now: int)
    requires
        step > 0,
    ensures
        recurrence_next(start, step, until, now) <= until,
{
    let t = first_at_or_after(start, step, now);
    if t > until {
        lemma_round_up(t - until, step);
    }
}

/// Law: the occurrence shown for a recurring event is the start moved by a
/// whole number of steps.
pub proof fn law_recurrence_on_grid(start: int, step: int, until: int, now: int)
    requires
        step > 0,
    ensures
        (recurrence_next(start, step, until, now) - start) % step == 0,
{
    let q1 = if start < now {
        (now - start + step - 1) / step
    } else {
        0
    };
    let t = start + q1 * step;
    assert(t == first_at_or_after(start, step, now));
    let q2 = if t > until {
        (t - until + step - 1) / step
    } else {
        0
    };
    assert(recurrence_next(start, step, until, now) == t - q2 * step);
    assert(t - q2 * step - start == (q1 - q2) * step) by (nonlinear_arith)
        requires
            t == start + q1 * step,
    ;
    vstd::arithmetic::div_mod::lemma_mod_multiples_basic(q1 - q2, step);
}

/// Law: while the rule has not ended by then, the occurrence shown is the
/// earliest one that is not before `now`.
pub proof fn law_recurrence_upcoming(start: int, step: int, until: int, now: int)
    requires
        step > 0,
        first_at_or_after(start, step, now) <= until,
    ensures
        start < now ==> now <= recurrence_next(start, step, until, now),
        start < now ==> recurrence_next(start, step, until, now) - step < now,
        now <= start ==> recurrence_next(start, step, until, now) == start,
{
    if start < now {
        lemma_round_up(now - start, step);
        let q = (now - start + step - 1) / step;
        assert((q - 1) * step == q * step - step) by (nonlinear_arith);
    }
}

/// Law: once the rule has ended before `now`, the occurrence shown is the
/// last step that is not after the rule's end.
pub proof fn law_recurrence_ended(start: int, step: int, until: int, now: int)
    requires
        step > 0,
        first_at_or_after(start, step, now) > until,
    ensures
        until - step < recurrence_next(start, step, until, now) <= until,
{
    let t = first_at_or_after(start, step, now);
    lemma_round_up(t - until, step);
    let q = (t - until + step - 1) / step;
    assert((q - 1) * step == q * step - step) by (nonlinear_arith);
}


/// Law: a sequence already in order of start is left as it is; in
/// particular, events that start together are not reordered.
pub proof fn law_sort_keeps_sorted(s: Seq<EventView>)
    requires
        sorted_by_start(s),
    ensures
        sort_by_start(s) == s,
    decreases s.len(),
{
    if s.len() > 0 {
        let t = s.drop_last();
        assert(sorted_by_start(t));
        law_sort_keeps_sorted(t);
        if t.len() > 0 {
            assert(t.last().start <= s.last().start);
        }
        assert(insertion_index(t, s.last().start) == t.len());
        assert(t.insert(t.len() as int, s.last()) =~= s);
    }
}

/// Keeping the events that do not start before `now` keeps them in order.
proof fn lemma_filter_sorted(s: Seq<EventView>, now: int)
    requires
        sorted_by_start(s),
    ensures
        sorted_by_start(not_started_before(s, now)),
        forall|i: int|
            0 <= i < not_started_before(s, now).len() ==> #[trigger] not_started_before(s, now)[i].start
                >= now,
    decreases s.len(),
{
    reveal_with_fuel(Seq::filter, 1);
    if s.len() > 0 {
        let t = s.drop_last();
        assert(sorted_by_start(t));
        lemma_filter_sorted(t, now);
        let ft = not_started_before(t, now);
        if s.last().start >= now {
            assert(not_started_before(s, now) == ft.push(s.last()));
            assert forall|i: int| 0 <= i < ft.len() implies ft[i].start <= s.last().start by {
                assert(ft.contains(ft[i]));
                t.lemma_filter_contains_rev(|e: EventView| e.start >= now, ft[i]);
                let k = choose|k: int| 0 <= k < t.len() && t[k] == ft[i];
                assert(s[k] == t[k]);
            }
        }
    }
}

/// Law: the upcoming events of a calendar are in order of start, and none
/// starts before `now`.
pub proof fn law_upcoming_events(cs: Seq<ComponentView>, now: int)
    ensures
        sorted_by_start(not_started_before(extracted_events(cs, now), now)),
        forall|i: int|
            0 <= i < not_started_before(extracted_events(cs, now), now).len()
                ==> #[trigger] not_started_before(extracted_events(cs, now), now)[i].start >= now,
{
    law_extracted_events(cs, now);
    lemma_filter_sorted(extracted_events(cs, now), now);
}


/// Law: the step of a recurrence rule follows its frequency word (the text
/// after the first `=` of the first `;`-separated part): a day for `DAILY`,
/// seven days for `WEEKLY`, 30 days for `MONTHLY`, 365 days for `YEARLY`,
/// and a day for any other word.
pub proof fn law_rule_step(rule: Seq<char>, word: Seq<char>)
    requires
        split_field(rule, seq![';'], 0) matches Some(first) && split_field(first, seq!['='], 1)
            == Some(word),
    ensures
        word == "DAILY"@ ==> rule_step(rule) == Some(86_400i64),
        word == "WEEKLY"@ ==> rule_step(rule) == Some((7 * 86_400) as i64),
        word == "MONTHLY"@ ==> rule_step(rule) == Some((30 * 86_400) as i64),
        word == "YEARLY"@ ==> rule_step(rule) == Some((365 * 86_400) as i64),
        word != "DAILY"@ && word != "WEEKLY"@ && word != "MONTHLY"@ && word != "YEARLY"@
            ==> rule_step(rule) == Some(86_400i64),
{
    reveal_strlit("DAILY");
    reveal_strlit("WEEKLY");
    reveal_strlit("MONTHLY");
    reveal_strlit("YEARLY");
    assert("DAILY"@ =~= word_daily());
    assert("WEEKLY"@ =~= word_weekly());
    assert("MONTHLY"@ =~= word_monthly());
    assert("YEARLY"@ =~= word_yearly());
}

} // verus!
