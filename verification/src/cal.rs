//! The public calendar feed read by cutting its text at markers: each entry
//! after a `UID:` gives an event, the events are sorted by start, and a
//! listing of one line per event is written from them.
use vstd::prelude::*;
use crate::calendar::{events_view, insert_sorted, sort_by_start, Event, EventView};
use crate::text::{
    append_chars, byte_slice, byte_slice_of, chars_of, contains, contains_exec, decimal,
    decimal_of, split_all, split_all_exec, split_field, split_field_exec, string_of,
    without_char, without_char_exec,
};
use vstd::utf8::encode_utf8;
use crate::time::{
    dmy_hm_text, format_dmy_hm, parse_rfc3339, rfc3339_seconds, MAX_RFC3339_SECONDS,
    MAX_UTC_SECONDS, MIN_RFC3339_SECONDS, MIN_UTC_SECONDS,
};

verus! {

/// `2021-01-01T00:00:00Z` in Unix seconds: the start of the placeholder
/// that heads the list, and of an entry that gives none.
pub const FEED_DEFAULT_START: i64 = 1_609_459_200;

/// Why no listing can be written from a feed.
#[derive(Debug, Clone, Copy, PartialEq, Eq, Structural)]
pub enum FeedError {
    /// An entry's start cannot be cut into RFC 3339 text or is not a valid
    /// instant.
    BadDate,
    /// No entry with a title was found, so there is no first line.
    NoEvents,
}

// ---------------------------------------------------------------------------
// Reading one entry
// ---------------------------------------------------------------------------

/// The first line of `s`.
pub open spec fn first_line(s: Seq<char>) -> Seq<char> {
    match split_field(s, seq!['\n'], 0) {
        Some(l) => l,
        None => s,
    }
}

/// The rest of the line after the first `marker` in `s` (up to the next
/// `marker`, if one follows on that line); empty when `marker` is absent.
pub open spec fn line_after(s: Seq<char>, marker: Seq<char>) -> Seq<char> {
    match split_field(s, marker, 1) {
        Some(f) => first_line(f),
        None => Seq::empty(),
    }
}

/// The RFC 3339 text made from a stamp `YYYYMMDDTHHMMSS` by the same byte
/// ranges the feed reader cuts: `YYYY-MM-DDTHH:MM:00Z` (seconds dropped,
/// read as UTC); `None` where a cut would not fall inside the text or on a
/// character boundary.
pub open spec fn feed_stamp_text(date: Seq<char>) -> Option<Seq<char>> {
    match (byte_slice(date, 0, 8), byte_slice(date, 9, 15)) {
        (Some(a), Some(b)) => {
            let d0 = a + seq!['T'] + b + seq!['Z'];
            match (byte_slice(d0, 0, 4), byte_slice(d0, 4, 6), byte_slice(d0, 6, 8), byte_slice(d0, 9, 15)) {
                (Some(p1), Some(p2), Some(p3), Some(p4)) => {
                    let d1 = p1 + seq!['-'] + p2 + seq!['-'] + p3 + seq!['T'] + p4;
                    match (byte_slice(d1, 0, 11), byte_slice(d1, 11, 13), byte_slice(d1, 13, 15)) {
                        (Some(q1), Some(q2), Some(q3)) => Some(
                            q1 + q2 + seq![':'] + q3 + seq![':', '0', '0', 'Z'],
                        ),
                        _ => None,
                    }
                },
                _ => None,
            }
        },
        _ => None,
    }
}

/// The instant of a feed stamp, or `None` when it cannot be read.
pub open spec fn feed_stamp_seconds(date: Seq<char>) -> Option<i64> {
    match feed_stamp_text(date) {
        Some(t) => rfc3339_seconds(t),
        None => None,
    }
}

/// The marker of an entry's title.
pub open spec fn summary_marker() -> Seq<char> {
    "SUMMARY:"@
}

/// The marker of an entry's start, given in local time of Berlin.
pub open spec fn start_marker() -> Seq<char> {
    "DTSTART;TZID=Europe/Berlin:"@
}

/// The marker of an entry's location.
pub open spec fn location_marker() -> Seq<char> {
    "LOCATION:"@
}

/// The marker of an entry's description.
pub open spec fn description_marker() -> Seq<char> {
    "DESCRIPTION:"@
}

/// The marker that begins each entry.
pub open spec fn entry_marker() -> Seq<char> {
    "UID:"@
}

/// The location shown when an entry gives none.
pub open spec fn unknown_location() -> Seq<char> {
    "TBA"@
}

/// The separator between the fields of a listing line.
pub open spec fn field_separator() -> Seq<char> {
    " && "@
}

/// The event read from one piece of the feed (backslashes removed first):
/// the title, the location up to a `|`, the description, each the rest of
/// its marker's line; the start read from its stamp.  An absent title or
/// description is empty, an absent location `TBA`, an absent start
/// `FEED_DEFAULT_START`.  `BadDate` when a start is given and cannot be
/// read.
pub open spec fn entry_event(raw: Seq<char>) -> Result<EventView, FeedError> {
    let i = without_char(raw, '\\');
    let title = if contains(i, summary_marker()) {
        line_after(i, summary_marker())
    } else {
        Seq::empty()
    };
    let location = if contains(i, location_marker()) {
        first_field(line_after(i, location_marker()), seq!['|'])
    } else {
        unknown_location()
    };
    let description = if contains(i, description_marker()) {
        line_after(i, description_marker())
    } else {
        Seq::empty()
    };
    let start = if contains(i, start_marker()) {
        feed_stamp_seconds(line_after(i, start_marker()))
    } else {
        Some(FEED_DEFAULT_START)
    };
    match start {
        None => Err(FeedError::BadDate),
        Some(t) => Ok(
            EventView {
                title,
                start: t,
                location,
                description,
                frequency: Seq::empty(),
                next: t,
            },
        ),
    }
}

/// The part of `s` before the first `sep`.
pub open spec fn first_field(s: Seq<char>, sep: Seq<char>) -> Seq<char> {
    match split_field(s, sep, 0) {
        Some(f) => f,
        None => s,
    }
}

/// The placeholder event that heads the list.
pub open spec fn feed_placeholder() -> EventView {
    EventView {
        title: Seq::empty(),
        start: FEED_DEFAULT_START,
        location: Seq::empty(),
        description: Seq::empty(),
        frequency: Seq::empty(),
        next: FEED_DEFAULT_START,
    }
}

/// The list after reading the first `k` pieces: the placeholder, then each
/// event with a title in order; once the list holds more than seven events
/// the remaining pieces are not read.
pub open spec fn collected_events(pieces: Seq<Seq<char>>, k: nat) -> Result<
    Seq<EventView>,
    FeedError,
>
    decreases k,
{
    if k == 0 {
        Ok(seq![feed_placeholder()])
    } else {
        match collected_events(pieces, (k - 1) as nat) {
            Err(e) => Err(e),
            Ok(v) => if v.len() > 7 {
                Ok(v)
            } else {
                match entry_event(pieces[k - 1]) {
                    Err(e) => Err(e),
                    Ok(ev) => if ev.title.len() > 0 {
                        Ok(v.push(ev))
                    } else {
                        Ok(v)
                    },
                }
            },
        }
    }
}

/// The events of a feed, sorted by start (placeholder included).
pub open spec fn feed_events(text: Seq<char>) -> Result<Seq<EventView>, FeedError> {
    let pieces = split_all(text, entry_marker());
    match collected_events(pieces, pieces.len()) {
        Err(e) => Err(e),
        Ok(v) => Ok(sort_by_start(v)),
    }
}

// ---------------------------------------------------------------------------
// The listing
// ---------------------------------------------------------------------------

/// One listing line: title, start (`%d.%m.%Y %H:%M`), location and
/// description, separated by ` && `.
pub open spec fn listing_line(e: EventView) -> Seq<char> {
    e.title + field_separator() + dmy_hm_text(e.start) + field_separator() + e.location
        + field_separator() + e.description + seq!['\n']
}

/// The lines of the events at `2..n`, each left out when its title equals
/// the one before.
pub open spec fn listing_rest(s: Seq<EventView>, n: int) -> Seq<char>
    decreases n,
{
    if n <= 2 {
        Seq::empty()
    } else {
        listing_rest(s, n - 1) + if s[n - 1].title != s[n - 2].title {
            listing_line(s[n - 1])
        } else {
            Seq::empty()
        }
    }
}

/// The listing of a feed: the line of the second event in order of start
/// (the first is skipped), then those of the later events whose title
/// differs from the one before.  `NoEvents` when there is no second event.
pub open spec fn feed_listing(text: Seq<char>) -> Result<Seq<char>, FeedError> {
    match feed_events(text) {
        Err(e) => Err(e),
        Ok(s) => if s.len() < 2 {
            Err(FeedError::NoEvents)
        } else {
            Ok(listing_line(s[1]) + listing_rest(s, s.len() as int))
        },
    }
}

// ---------------------------------------------------------------------------
// Exec
// ---------------------------------------------------------------------------

fn first_line_exec(s: &[char]) -> (res: Vec<char>)
    ensures
        res@ == first_line(s@),
{
    let nl = vec!['\n'];
    assert(nl@ =~= seq!['\n']);
    match split_field_exec(s, nl.as_slice(), 0) {
        Some(l) => l,
        None => crate::text::copy_range(s, 0, s.len()),
    }
}

fn line_after_exec(s: &[char], marker: &[char]) -> (res: Vec<char>)
    requires
        marker.len() > 0,
    ensures
        res@ == line_after(s@, marker@),
{
    match split_field_exec(s, marker, 1) {
        Some(f) => first_line_exec(f.as_slice()),
        None => Vec::new(),
    }
}

fn first_field_exec(s: &[char], sep: &[char]) -> (res: Vec<char>)
    requires
        sep.len() > 0,
    ensures
        res@ == first_field(s@, sep@),
{
    match split_field_exec(s, sep, 0) {
        Some(f) => f,
        None => crate::text::copy_range(s, 0, s.len()),
    }
}

/// The pieces `&s[a..b]` of a string, as characters.
fn slice_chars(s: &String, from: usize, to: usize) -> (res: Option<Vec<char>>)
    ensures
        res matches Some(r) ==> byte_slice(s@, from as int, to as int) == Some(r@),
        res is None ==> byte_slice(s@, from as int, to as int) is None,
{
    match byte_slice_of(s.as_str(), from, to) {
        Some(t) => Some(chars_of(t.as_str())),
        None => None,
    }
}

/// The RFC 3339 text of a feed stamp (see `feed_stamp_text`).
pub fn feed_stamp_text_exec(date: &[char]) -> (res: Option<String>)
    ensures
        res matches Some(r) ==> feed_stamp_text(date@) == Some(r@),
        res is None ==> feed_stamp_text(date@) is None,
{
    let ds = string_of(date);
    let a = match slice_chars(&ds, 0, 8) {
        Some(x) => x,
        None => return None,
    };
    let b = match slice_chars(&ds, 9, 15) {
        Some(x) => x,
        None => return None,
    };
    let mut d0 = a;
    d0.push('T');
    append_chars(&mut d0, b.as_slice());
    d0.push('Z');
    assert(d0@ =~= a@ + seq!['T'] + b@ + seq!['Z']);
    let d0s = string_of(d0.as_slice());
    let p1 = match slice_chars(&d0s, 0, 4) {
        Some(x) => x,
        None => return None,
    };
    let p2 = match slice_chars(&d0s, 4, 6) {
        Some(x) => x,
        None => return None,
    };
    let p3 = match slice_chars(&d0s, 6, 8) {
        Some(x) => x,
        None => return None,
    };
    let p4 = match slice_chars(&d0s, 9, 15) {
        Some(x) => x,
        None => return None,
    };
    let mut d1 = p1;
    d1.push('-');
    append_chars(&mut d1, p2.as_slice());
    d1.push('-');
    append_chars(&mut d1, p3.as_slice());
    d1.push('T');
    append_chars(&mut d1, p4.as_slice());
    assert(d1@ =~= p1@ + seq!['-'] + p2@ + seq!['-'] + p3@ + seq!['T'] + p4@);
    let d1s = string_of(d1.as_slice());
    let q1 = match slice_chars(&d1s, 0, 11) {
        Some(x) => x,
        None => return None,
    };
    let q2 = match slice_chars(&d1s, 11, 13) {
        Some(x) => x,
        None => return None,
    };
    let q3 = match slice_chars(&d1s, 13, 15) {
        Some(x) => x,
        None => return None,
    };
    let mut out = q1;
    append_chars(&mut out, q2.as_slice());
    out.push(':');
    append_chars(&mut out, q3.as_slice());
    append_chars(&mut out, vec![':', '0', '0', 'Z'].as_slice());
    assert(out@ =~= q1@ + q2@ + seq![':'] + q3@ + seq![':', '0', '0', 'Z']);
    Some(string_of(out.as_slice()))
}

/// The instant of a feed stamp, or `None` when it cannot be read.
fn feed_stamp_seconds_exec(date: &[char]) -> (res: Option<i64>)
    ensures
        res == feed_stamp_seconds(date@),
        res matches Some(t) ==> MIN_RFC3339_SECONDS <= t <= MAX_RFC3339_SECONDS,
{
    match feed_stamp_text_exec(date) {
        Some(t) => parse_rfc3339(t.as_str()),
        None => None,
    }
}

/// The event read from one piece of the feed (see `entry_event`).
pub fn entry_event_exec(raw: &[char]) -> (res: Result<Event, FeedError>)
    ensures
        res matches Ok(e) ==> entry_event(raw@) == Ok::<EventView, FeedError>(e@),
        res matches Err(x) ==> entry_event(raw@) == Err::<EventView, FeedError>(x),
        res matches Ok(e) ==> MIN_RFC3339_SECONDS <= e.start <= MAX_RFC3339_SECONDS,
{
    let i = without_char_exec(raw, '\\');
    let summary = chars_of("SUMMARY:");
    let start_m = chars_of("DTSTART;TZID=Europe/Berlin:");
    let location_m = chars_of("LOCATION:");
    let description_m = chars_of("DESCRIPTION:");
    proof {
        reveal_strlit("SUMMARY:");
        reveal_strlit("DTSTART;TZID=Europe/Berlin:");
        reveal_strlit("LOCATION:");
        reveal_strlit("DESCRIPTION:");
    }
    let title = if contains_exec(i.as_slice(), summary.as_slice()) {
        line_after_exec(i.as_slice(), summary.as_slice())
    } else {
        Vec::new()
    };
    let start = if contains_exec(i.as_slice(), start_m.as_slice()) {
        let d = line_after_exec(i.as_slice(), start_m.as_slice());
        match feed_stamp_seconds_exec(d.as_slice()) {
            Some(t) => t,
            None => return Err(FeedError::BadDate),
        }
    } else {
        FEED_DEFAULT_START
    };
    let location = if contains_exec(i.as_slice(), location_m.as_slice()) {
        let l = line_after_exec(i.as_slice(), location_m.as_slice());
        let bar = vec!['|'];
        assert(bar@ =~= seq!['|']);
        first_field_exec(l.as_slice(), bar.as_slice())
    } else {
        chars_of("TBA")
    };
    let description = if contains_exec(i.as_slice(), description_m.as_slice()) {
        line_after_exec(i.as_slice(), description_m.as_slice())
    } else {
        Vec::new()
    };
    Ok(
        Event {
            title: string_of(title.as_slice()),
            start,
            location: string_of(location.as_slice()),
            description: string_of(description.as_slice()),
            frequency: String::new(),
            next: start,
        },
    )
}

/// Once the list holds more than seven events, reading more pieces leaves
/// it as it is.
proof fn lemma_collected_full(pieces: Seq<Seq<char>>, k: nat, n: nat, v: Seq<EventView>)
    requires
        collected_events(pieces, k) == Ok::<Seq<EventView>, FeedError>(v),
        v.len() > 7,
        k <= n,
    ensures
        collected_events(pieces, n) == Ok::<Seq<EventView>, FeedError>(v),
    decreases n - k,
{
    if k < n {
        lemma_collected_full(pieces, k, (n - 1) as nat, v);
    }
}

/// The events of a feed, sorted by start (placeholder included).
pub fn feed_events_exec(text: &str) -> (res: Result<Vec<Event>, FeedError>)
    ensures
        res matches Ok(v) ==> feed_events(text@) == Ok::<Seq<EventView>, FeedError>(
            events_view(v@),
        ),
        res matches Err(x) ==> feed_events(text@) == Err::<Seq<EventView>, FeedError>(x),
        res matches Ok(v) ==> forall|k: int|
            0 <= k < v@.len() ==> MIN_RFC3339_SECONDS <= #[trigger] v@[k].start
                <= MAX_RFC3339_SECONDS,
{
    let t = chars_of(text);
    let uid = chars_of("UID:");
    proof {
        reveal_strlit("UID:");
    }
    let pieces = split_all_exec(t.as_slice(), uid.as_slice());
    let ghost pv = split_all(text@, entry_marker());
    let mut list: Vec<Event> = Vec::new();
    list.push(
        Event {
            title: String::new(),
            start: FEED_DEFAULT_START,
            location: String::new(),
            description: String::new(),
            frequency: String::new(),
            next: FEED_DEFAULT_START,
        },
    );
    assert(events_view(list@) =~= seq![feed_placeholder()]);
    let mut k: usize = 0;
    while k < pieces.len() && list.len() <= 7
        invariant
            0 <= k <= pieces.len(),
            pv == split_all(text@, entry_marker()),
            pieces@.len() == pv.len(),
            forall|j: int| 0 <= j < pieces@.len() ==> #[trigger] pieces@[j]@ == pv[j],
            collected_events(pv, k as nat) == Ok::<Seq<EventView>, FeedError>(
                events_view(list@),
            ),
            forall|j: int|
                0 <= j < list@.len() ==> MIN_RFC3339_SECONDS <= #[trigger] list@[j].start
                    <= MAX_RFC3339_SECONDS,
        decreases pieces.len() - k,
    {
        assert(pieces@[k as int]@ == pv[k as int]);
        match entry_event_exec(pieces[k].as_slice()) {
            Err(e) => {
                assert(collected_events(pv, (k + 1) as nat) == Err::<Seq<EventView>, FeedError>(
                    e,
                ));
                proof {
                    lemma_collected_err(pv, (k + 1) as nat, pv.len(), e);
                    assert(collected_events(pv, pv.len()) == Err::<Seq<EventView>, FeedError>(e));
                    assert(pv == split_all(text@, entry_marker()));
                }
                return Err(e);
            },
            Ok(ev) => {
                if !ev.title.as_str().is_empty() {
                    let ghost before = events_view(list@);
                    list.push(ev);
                    assert(events_view(list@) =~= before.push(ev@));
                }
            },
        }
        k = k + 1;
    }
    proof {
        if k < pieces.len() {
            lemma_collected_full(pv, k as nat, pv.len(), events_view(list@));
        }
    }
    let ghost lv = events_view(list@);
    let mut sorted: Vec<Event> = Vec::new();
    let mut i: usize = 0;
    assert(lv.take(0) =~= Seq::<EventView>::empty());
    assert(events_view(sorted@) =~= sort_by_start(lv.take(0)));
    while i < list.len()
        invariant
            0 <= i <= list.len(),
            lv == events_view(list@),
            events_view(sorted@) == sort_by_start(lv.take(i as int)),
        decreases list.len() - i,
    {
        assert(lv.take(i + 1).drop_last() =~= lv.take(i as int));
        assert(lv.take(i + 1).last() == list@[i as int]@);
        insert_sorted(&mut sorted, list[i].copy());
        i = i + 1;
    }
    assert(lv.take(list.len() as int) =~= lv);
    proof {
        let within = |e: EventView| MIN_RFC3339_SECONDS <= e.start <= MAX_RFC3339_SECONDS;
        assert forall|j: int| 0 <= j < lv.len() implies within(#[trigger] lv[j]) by {
            assert(lv[j].start == list@[j].start);
        }
        crate::calendar::lemma_sort_keeps_each(lv, within);
        assert forall|j: int| 0 <= j < sorted@.len() implies MIN_RFC3339_SECONDS
            <= #[trigger] sorted@[j].start <= MAX_RFC3339_SECONDS by {
            assert(within(events_view(sorted@)[j]));
        }
    }
    Ok(sorted)
}

/// A failed piece fails every longer read.
proof fn lemma_collected_err(pieces: Seq<Seq<char>>, k: nat, n: nat, e: FeedError)
    requires
        collected_events(pieces, k) == Err::<Seq<EventView>, FeedError>(e),
        k <= n,
    ensures
        collected_events(pieces, n) == Err::<Seq<EventView>, FeedError>(e),
    decreases n - k,
{
    if k < n {
        lemma_collected_err(pieces, k, (n - 1) as nat, e);
    }
}


/// One listing line of an event (see `listing_line`).
fn listing_line_exec(e: &Event) -> (res: Vec<char>)
    requires
        MIN_UTC_SECONDS <= e.start <= MAX_UTC_SECONDS,
    ensures
        res@ == listing_line(e@),
{
    let sep = chars_of(" && ");
    let date = format_dmy_hm(e.start);
    let mut out = chars_of(e.title.as_str());
    append_chars(&mut out, sep.as_slice());
    append_chars(&mut out, chars_of(date.as_str()).as_slice());
    append_chars(&mut out, sep.as_slice());
    append_chars(&mut out, chars_of(e.location.as_str()).as_slice());
    append_chars(&mut out, sep.as_slice());
    append_chars(&mut out, chars_of(e.description.as_str()).as_slice());
    out.push('\n');
    out
}

/// The listing written from a feed's text (see `feed_listing`).
pub fn memes_from_feed(text: &str) -> (res: Result<String, FeedError>)
    ensures
        res matches Ok(r) ==> feed_listing(text@) == Ok::<Seq<char>, FeedError>(r@),
        res matches Err(x) ==> feed_listing(text@) == Err::<Seq<char>, FeedError>(x),
{
    let events = match feed_events_exec(text) {
        Ok(v) => v,
        Err(e) => return Err(e),
    };
    let ghost sv = events_view(events@);
    if events.len() < 2 {
        return Err(FeedError::NoEvents);
    }
    let mut out = listing_line_exec(&events[1]);
    assert(listing_rest(sv, 2) =~= Seq::<char>::empty());
    assert(out@ =~= listing_line(sv[1]) + listing_rest(sv, 2));
    let mut i: usize = 2;
    while i < events.len()
        invariant
            2 <= i <= events.len(),
            sv == events_view(events@),
            out@ == listing_line(sv[1]) + listing_rest(sv, i as int),
            forall|k: int|
                0 <= k < events@.len() ==> MIN_RFC3339_SECONDS <= #[trigger] events@[k].start
                    <= MAX_RFC3339_SECONDS,
        decreases events.len() - i,
    {
        let ghost before = out@;
        assert(events@[i as int].start == events[i as int].start);
        if events[i].title != events[i - 1].title {
            let line = listing_line_exec(&events[i]);
            append_chars(&mut out, line.as_slice());
            assert(out@ =~= before + listing_line(sv[i as int]));
        } else {
            assert(listing_rest(sv, i + 1) =~= listing_rest(sv, i as int) + Seq::<char>::empty());
        }
        i = i + 1;
    }
    Ok(string_of(out.as_slice()))
}

/// The address of the feed from the instant `timestamp` on (Unix seconds).
pub fn memes_url(timestamp: i64) -> (res: String)
    ensures
        res@ == "https://nextcloud.inphima.de/remote.php/dav/public-calendars/CAx5MEp7cGrQ6cEe?start="@
            + decimal(timestamp as int) + "&export=&componentType=VEVENT"@,
{
    let mut out = chars_of(
        "https://nextcloud.inphima.de/remote.php/dav/public-calendars/CAx5MEp7cGrQ6cEe?start=",
    );
    append_chars(&mut out, decimal_of(timestamp).as_slice());
    append_chars(&mut out, chars_of("&export=&componentType=VEVENT").as_slice());
    string_of(out.as_slice())
}

/// The address of the feed from the current time on, read once from the
/// system clock, in whole seconds rounded down.
pub fn memes_url_now() -> (res: String)
    ensures
        exists|t: i64|
            MIN_UTC_SECONDS <= t <= MAX_UTC_SECONDS && res@ == "https://nextcloud.inphima.de/remote.php/dav/public-calendars/CAx5MEp7cGrQ6cEe?start="@
                + decimal(t as int) + "&export=&componentType=VEVENT"@,
{
    let t = crate::time::utc_now_floor();
    memes_url(t)
}


// ---------------------------------------------------------------------------
// Showing the listing
// ---------------------------------------------------------------------------

/// The texts of a sequence of strings.
pub open spec fn strings_view(v: Seq<String>) -> Seq<Seq<char>> {
    v.map_values(|x: String| x@)
}

/// The rows shown from a listing: an empty row first, then each line of the
/// listing cut at ` && `.
pub open spec fn listing_rows(text: Seq<char>) -> Seq<Seq<Seq<char>>> {
    seq![seq![Seq::<char>::empty()]] + split_all(text, seq!['\n']).map_values(
        |l: Seq<char>| split_all(l, field_separator()),
    )
}

/// The rows shown from a listing (see `listing_rows`).
pub fn feed_rows(text: &str) -> (res: Vec<Vec<String>>)
    ensures
        res@.len() == listing_rows(text@).len(),
        forall|k: int|
            0 <= k < res@.len() ==> strings_view(#[trigger] res@[k]@) == listing_rows(text@)[k],
{
    let t = chars_of(text);
    let nl = vec!['\n'];
    let sep = chars_of(" && ");
    proof {
        reveal_strlit(" && ");
    }
    assert(nl@ =~= seq!['\n']);
    let lines = split_all_exec(t.as_slice(), nl.as_slice());
    let ghost rows = listing_rows(text@);
    let ghost lv = split_all(text@, seq!['\n']);
    let mut res: Vec<Vec<String>> = Vec::new();
    let mut first: Vec<String> = Vec::new();
    first.push(String::new());
    assert(strings_view(first@) =~= seq![Seq::<char>::empty()]);
    res.push(first);
    let mut i: usize = 0;
    while i < lines.len()
        invariant
            0 <= i <= lines.len(),
            lv == split_all(text@, seq!['\n']),
            rows == listing_rows(text@),
            sep@ == field_separator(),
            sep@.len() == 4,
            lines@.len() == lv.len(),
            forall|j: int| 0 <= j < lines@.len() ==> #[trigger] lines@[j]@ == lv[j],
            res@.len() == i + 1,
            forall|k: int| 0 <= k < res@.len() ==> strings_view(#[trigger] res@[k]@) == rows[k],
        decreases lines.len() - i,
    {
        let pieces = split_all_exec(lines[i].as_slice(), sep.as_slice());
        let mut row: Vec<String> = Vec::new();
        let mut j: usize = 0;
        while j < pieces.len()
            invariant
                0 <= j <= pieces.len(),
                row@.len() == j,
                forall|m: int| 0 <= m < j ==> #[trigger] row@[m]@ == pieces@[m]@,
            decreases pieces.len() - j,
        {
            row.push(string_of(pieces[j].as_slice()));
            j = j + 1;
        }
        assert(lines@[i as int]@ == lv[i as int]);
        assert(strings_view(row@) =~= split_all(lv[i as int], field_separator()));
        assert(rows[i + 1] == split_all(lv[i as int], field_separator()));
        res.push(row);
        i = i + 1;
    }
    assert(res@.len() == rows.len());
    res
}

/// How a row is shown.
#[derive(Debug, Clone, Copy, PartialEq, Eq, Structural)]
pub enum FeedLayout {
    /// An empty row: nothing is shown.
    Hidden,
    /// A title longer than 20 bytes, scrolled, with the location.
    Scrolling,
    /// A location longer than 17 bytes: `siehe Kalender` in its place.
    SeeCalendar,
    /// Title and location as they are.
    Plain,
}

/// How a row (title, start, location, ...) is shown: hidden when the title
/// is empty; else scrolled when the title is longer than 20 bytes; else
/// with `siehe Kalender` when the location is longer than 17 bytes.
pub fn feed_row_layout(row: &Vec<String>) -> (res: FeedLayout)
    requires
        row@.len() >= 1,
        row@[0]@.len() > 0 ==> row@.len() >= 3,
    ensures
        res == if row@[0]@.len() == 0 {
            FeedLayout::Hidden
        } else if (encode_utf8(row@[0]@).len() as usize) > 20 {
            FeedLayout::Scrolling
        } else if (encode_utf8(row@[2]@).len() as usize) > 17 {
            FeedLayout::SeeCalendar
        } else {
            FeedLayout::Plain
        },
{
    if row[0].as_str().is_empty() {
        FeedLayout::Hidden
    } else if row[0].as_str().len() > 20 {
        FeedLayout::Scrolling
    } else if row[2].as_str().len() > 17 {
        FeedLayout::SeeCalendar
    } else {
        FeedLayout::Plain
    }
}


// ---------------------------------------------------------------------------
// Laws
// ---------------------------------------------------------------------------

/// The list read from the first `k` pieces: the placeholder first, at most
/// eight events, each with a title but the placeholder.
proof fn lemma_collected_shape(pieces: Seq<Seq<char>>, k: nat)
    ensures
        collected_events(pieces, k) matches Ok(v) ==> {
            &&& 1 <= v.len() <= 8
            &&& v[0] == feed_placeholder()
            &&& forall|j: int| 1 <= j < v.len() ==> (#[trigger] v[j]).title.len() > 0
        },
    decreases k,
{
    if k > 0 {
        lemma_collected_shape(pieces, (k - 1) as nat);
    }
}

/// Law: the events of a feed are in order of start; there are at most
/// eight of them, the placeholder among them, and every other one has a
/// title.
pub proof fn law_feed_events(text: Seq<char>)
    ensures
        feed_events(text) matches Ok(s) ==> {
            &&& crate::calendar::sorted_by_start(s)
            &&& 1 <= s.len() <= 8
            &&& s.contains(feed_placeholder())
            &&& forall|j: int|
                0 <= j < s.len() ==> #[trigger] s[j] == feed_placeholder() || s[j].title.len()
                    > 0
        },
{
    let pieces = split_all(text, entry_marker());
    lemma_collected_shape(pieces, pieces.len());
    if let Ok(v) = collected_events(pieces, pieces.len()) {
        crate::calendar::law_sort_by_start(v);
        let titled = |e: EventView| e == feed_placeholder() || e.title.len() > 0;
        assert forall|j: int| 0 <= j < v.len() implies titled(#[trigger] v[j]) by {}
        crate::calendar::lemma_sort_keeps_each(v, titled);
        let s = sort_by_start(v);
        assert forall|j: int| 0 <= j < s.len() implies #[trigger] s[j] == feed_placeholder()
            || s[j].title.len() > 0 by {
            assert(titled(s[j]));
        }
        assert(v.to_multiset().count(feed_placeholder()) > 0) by {
            broadcast use vstd::seq_lib::group_to_multiset_ensures;
            assert(v.contains(v[0]));
        }
        assert(s.contains(feed_placeholder())) by {
            broadcast use vstd::seq_lib::group_to_multiset_ensures;
            assert(s.to_multiset().count(feed_placeholder()) > 0);
        }
    }
}


/// The list read from the first `k` pieces depends on those pieces alone.
proof fn lemma_collected_prefix(p: Seq<Seq<char>>, q: Seq<Seq<char>>, k: nat)
    requires
        k <= p.len(),
        k <= q.len(),
        p.take(k as int) == q.take(k as int),
    ensures
        collected_events(p, k) == collected_events(q, k),
    decreases k,
{
    if k > 0 {
        assert(p.take(k - 1) =~= p.take(k as int).take(k - 1));
        assert(q.take(k - 1) =~= q.take(k as int).take(k - 1));
        lemma_collected_prefix(p, q, (k - 1) as nat);
        assert(p[k - 1] == p.take(k as int)[k - 1]);
        assert(q[k - 1] == q.take(k as int)[k - 1]);
    }
}

/// Law: once seven titled entries have been read, nothing after them is
/// read: two feeds whose first `k` entries agree, and whose first `k`
/// entries hold seven titled ones, give the same events and the same
/// listing, whatever follows.
pub proof fn law_feed_stops_after_seven(a: Seq<char>, b: Seq<char>, k: nat)
    requires
        k <= split_all(a, entry_marker()).len(),
        k <= split_all(b, entry_marker()).len(),
        split_all(a, entry_marker()).take(k as int) == split_all(b, entry_marker()).take(k as int),
        collected_events(split_all(a, entry_marker()), k) matches Ok(v) && v.len() > 7,
    ensures
        feed_events(a) == feed_events(b),
        feed_listing(a) == feed_listing(b),
{
    let pa = split_all(a, entry_marker());
    let pb = split_all(b, entry_marker());
    lemma_collected_prefix(pa, pb, k);
    let v = collected_events(pa, k)->Ok_0;
    lemma_collected_full(pa, k, pa.len(), v);
    lemma_collected_full(pb, k, pb.len(), v);
}


/// Law: the listing of a feed is the line of its second event, then, for
/// each later event in order of start, its line exactly when its title
/// differs from that of the event just before it.
pub proof fn law_feed_listing_lines(text: Seq<char>)
    ensures
        feed_listing(text) matches Ok(l) ==> feed_events(text) matches Ok(s) && s.len() >= 2 && l
            == listing_line(s[1]) + Seq::new(
            (s.len() - 2) as nat,
            |j: int|
                if s[j + 2].title != s[j + 1].title {
                    listing_line(s[j + 2])
                } else {
                    Seq::<char>::empty()
                },
        ).flatten(),
{
    if let Ok(s) = feed_events(text) {
        if s.len() >= 2 {
            lemma_listing_rest_lines(s, s.len() as int);
        }
    }
}

/// `listing_rest` as the lines of the events at `2..n` whose title differs
/// from the one before.
proof fn lemma_listing_rest_lines(s: Seq<EventView>, n: int)
    requires
        2 <= n <= s.len(),
    ensures
        listing_rest(s, n) == Seq::new(
            (n - 2) as nat,
            |j: int|
                if s[j + 2].title != s[j + 1].title {
                    listing_line(s[j + 2])
                } else {
                    Seq::<char>::empty()
                },
        ).flatten(),
    decreases n,
{
    let f = |j: int|
        if s[j + 2].title != s[j + 1].title {
            listing_line(s[j + 2])
        } else {
            Seq::<char>::empty()
        };
    if n == 2 {
        assert(Seq::new(0, f) =~= Seq::<Seq<char>>::empty());
    } else {
        lemma_listing_rest_lines(s, n - 1);
        assert(Seq::new((n - 2) as nat, f) =~= Seq::new((n - 3) as nat, f).push(f(n - 3)));
        Seq::new((n - 3) as nat, f).lemma_flatten_push(f(n - 3));
    }
}

} // verus!
