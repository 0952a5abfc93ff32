//! Instants as Unix seconds: the clock, RFC 3339 parsing through chrono, and
//! the reshaping of iCalendar date stamps (`YYYYMMDD[THHMMSS[Z]]`) into
//! RFC 3339 text.
use vstd::prelude::*;
use crate::text::{copy_range, string_of};

verus! {

/// Unix seconds of `-262143-01-01T00:00:00Z`, chrono's earliest `DateTime<Utc>`.
pub const MIN_UTC_SECONDS: i64 = -8_334_601_315_200;

/// Unix seconds of `+262142-12-31T23:59:59Z`, chrono's latest `DateTime<Utc>`.
pub const MAX_UTC_SECONDS: i64 = 8_210_266_876_799;

/// A lower bound of every instant that RFC 3339 text can name: year 0000 with
/// the largest offset, `+23:59`.
pub const MIN_RFC3339_SECONDS: i64 = -62_167_305_600;

/// An upper bound of every instant that RFC 3339 text can name: year 9999
/// with the smallest offset, `-23:59`.
pub const MAX_RFC3339_SECONDS: i64 = 253_402_387_200;

/// The instant, in Unix seconds, that chrono's RFC 3339 parser reads from
/// `text`, or `None` when it rejects the text.
pub uninterp spec fn rfc3339_seconds(text: Seq<char>) -> Option<i64>;

/// `chrono::DateTime::parse_from_rfc3339`, the result taken as Unix seconds
/// (`DateTime::timestamp`).  Trusted: the result is the named
/// `rfc3339_seconds` of the text, and (chrono reads exactly four year digits
/// and offsets up to 23:59) it lies between the bounds above.
#[verifier::external_body]
pub(crate) fn parse_rfc3339(text: &str) -> (res: Option<i64>)
    ensures
        res == rfc3339_seconds(text@),
        res matches Some(t) ==> MIN_RFC3339_SECONDS <= t <= MAX_RFC3339_SECONDS,
{
    match chrono::DateTime::parse_from_rfc3339(text) {
        Ok(t) => Some(t.timestamp()),
        Err(_) => None,
    }
}

/// `std::time::SystemTime::now().duration_since(UNIX_EPOCH)`: the system
/// clock as a distance from 1970-01-01T00:00:00Z, in whole seconds and
/// nanoseconds, `Ok` when the clock is not before that instant and `Err`
/// (the distance back to it) when it is.  Trusted: the nanoseconds are
/// below one second (`Duration::subsec_nanos`); nothing else is said, as it
/// is the clock.
#[verifier::external_body]
fn clock_since_epoch() -> (res: Result<(u64, u32), (u64, u32)>)
    ensures
        res matches Ok((s, n)) ==> n < 1_000_000_000,
        res matches Err((s, n)) ==> n < 1_000_000_000,
{
    match std::time::SystemTime::now().duration_since(std::time::UNIX_EPOCH) {
        Ok(d) => Ok((d.as_secs(), d.subsec_nanos())),
        Err(e) => Err((e.duration().as_secs(), e.duration().subsec_nanos())),
    }
}

/// `x` kept within the instants that a `DateTime<Utc>` can hold.
pub open spec fn clamp_utc(x: int) -> int {
    if x < MIN_UTC_SECONDS {
        MIN_UTC_SECONDS as int
    } else if x > MAX_UTC_SECONDS {
        MAX_UTC_SECONDS as int
    } else {
        x
    }
}

/// The whole seconds `s` after (`after`) or before the Unix epoch, plus `n`
/// nanoseconds in the same direction, rounded down (`up == false`) or up.
pub open spec fn rounded_clock(after: bool, s: int, n: int, up: bool) -> int {
    if after {
        if up && n > 0 { s + 1 } else { s }
    } else {
        if !up && n > 0 { -s - 1 } else { -s }
    }
}

/// The clock in whole seconds, rounded down or up, within the bounds above.
fn clock_seconds(up: bool) -> (res: i64)
    ensures
        MIN_UTC_SECONDS <= res <= MAX_UTC_SECONDS,
        exists|after: bool, s: u64, n: u32|
            n < 1_000_000_000 && res == clamp_utc(rounded_clock(after, s as int, n as int, up)),
{
    let (after, s, n) = match clock_since_epoch() {
        Ok((s, n)) => (true, s, n),
        Err((s, n)) => (false, s, n),
    };
    let ghost exact = rounded_clock(after, s as int, n as int, up);
    let res: i64 = if s > 9_000_000_000_000 {
        if after {
            MAX_UTC_SECONDS
        } else {
            MIN_UTC_SECONDS
        }
    } else {
        let si = s as i64;
        let r: i64 = if after {
            if up && n > 0 { si + 1 } else { si }
        } else {
            if !up && n > 0 { -si - 1 } else { -si }
        };
        if r < MIN_UTC_SECONDS {
            MIN_UTC_SECONDS
        } else if r > MAX_UTC_SECONDS {
            MAX_UTC_SECONDS
        } else {
            r
        }
    };
    assert(res == clamp_utc(exact));
    res
}

/// The current time in Unix seconds, rounded up (the least whole second
/// not before it), kept within the instants that a `DateTime<Utc>` can
/// hold.  A whole second `t` is before the current time exactly when it is
/// before this value, so comparisons of whole-second instants with it agree
/// with comparisons with the exact time.
pub(crate) fn utc_now_ceil() -> (res: i64)
    ensures
        MIN_UTC_SECONDS <= res <= MAX_UTC_SECONDS,
{
    clock_seconds(true)
}

/// The current time in Unix seconds, rounded down (as
/// `DateTime::timestamp` gives it), kept within the instants that a
/// `DateTime<Utc>` can hold.
pub(crate) fn utc_now_floor() -> (res: i64)
    ensures
        MIN_UTC_SECONDS <= res <= MAX_UTC_SECONDS,
{
    clock_seconds(false)
}

/// The text of an instant, given in Unix seconds, in chrono's format
/// `%d.%m.%Y %H:%M` (UTC, as `31.03.2023 16:00`).
pub uninterp spec fn dmy_hm_text(seconds: i64) -> Seq<char>;

/// `chrono::DateTime::<Utc>::from_timestamp(seconds, 0)` (which has the
/// instant for every value between the bounds above), then
/// `format("%d.%m.%Y %H:%M")`.  Trusted: the result is the named
/// `dmy_hm_text` of the instant.
#[verifier::external_body]
pub(crate) fn format_dmy_hm(seconds: i64) -> (res: String)
    requires
        MIN_UTC_SECONDS <= seconds <= MAX_UTC_SECONDS,
    ensures
        res@ == dmy_hm_text(seconds),
{
    match chrono::DateTime::<chrono::Utc>::from_timestamp(seconds, 0) {
        Some(t) => t.format("%d.%m.%Y %H:%M").to_string(),
        None => String::new(),
    }
}

/// The text of an instant, given in Unix seconds, in chrono's format
/// `%d.%m.%Y  %H:%M` (two spaces; UTC, as `31.03.2023  16:00`).
pub uninterp spec fn dmy_hm_spaced_text(seconds: i64) -> Seq<char>;

/// `chrono::DateTime::<Utc>::from_timestamp(seconds, 0)`, then
/// `format("%d.%m.%Y  %H:%M")`.  Trusted: the result is the named
/// `dmy_hm_spaced_text` of the instant.
#[verifier::external_body]
pub(crate) fn format_dmy_hm_spaced(seconds: i64) -> (res: String)
    requires
        MIN_UTC_SECONDS <= seconds <= MAX_UTC_SECONDS,
    ensures
        res@ == dmy_hm_spaced_text(seconds),
{
    match chrono::DateTime::<chrono::Utc>::from_timestamp(seconds, 0) {
        Some(t) => t.format("%d.%m.%Y  %H:%M").to_string(),
        None => String::new(),
    }
}

/// `c` is an ASCII character (one byte in UTF-8).
pub open spec fn is_ascii_char(c: char) -> bool {
    (c as u32) < 0x80
}

/// `c` takes two bytes in UTF-8.
pub open spec fn is_two_byte_char(c: char) -> bool {
    0x80 <= (c as u32) && (c as u32) < 0x800
}

/// A date stamp followed by the time of day that is assumed when none is
/// given.
pub open spec fn ics_padded(v: Seq<char>) -> Seq<char> {
    v + seq!['T', '0', '0', '0', '0', '0', '0', 'Z']
}

/// The byte ranges that the reshaping cuts from the padded stamp (bytes
/// 0..4, 4..6, 6..8, 9..15) fall on character boundaries: the first 13
/// characters are ASCII and byte 15 starts a character.
pub open spec fn ics_stamp_sliceable(v: Seq<char>) -> bool {
    let d = ics_padded(v);
    &&& v.len() >= 7
    &&& forall|i: int| 0 <= i < 13 ==> is_ascii_char(#[trigger] d[i])
    &&& (is_two_byte_char(d[13]) || (is_ascii_char(d[13]) && is_ascii_char(d[14])))
}

/// The RFC 3339 text made of a stamp `YYYYMMDDTHHMM..`:
/// `YYYY-MM-DDTHH:MM:00Z`.  Seconds are dropped, and the stamp is read as
/// UTC whatever time zone it was given in.
pub open spec fn ics_stamp_rfc3339(v: Seq<char>) -> Seq<char> {
    let d = ics_padded(v);
    d.subrange(0, 4) + seq!['-'] + d.subrange(4, 6) + seq!['-'] + d.subrange(6, 8) + seq!['T']
        + d.subrange(9, 11) + seq![':'] + d.subrange(11, 13) + seq![':', '0', '0', 'Z']
}

/// The instant named by an iCalendar date stamp, or `None` when it cannot
/// be read.
pub open spec fn ics_stamp_seconds(v: Seq<char>) -> Option<i64> {
    if ics_stamp_sliceable(v) {
        rfc3339_seconds(ics_stamp_rfc3339(v))
    } else {
        None
    }
}

/// Whether the stamp's byte ranges fall on character boundaries.
fn stamp_sliceable(v: &[char]) -> (res: bool)
    ensures
        res == ics_stamp_sliceable(v@),
{
    if v.len() < 7 {
        return false;
    }
    let mut d: Vec<char> = copy_range(v, 0, v.len());
    crate::text::append_chars(&mut d, vec!['T', '0', '0', '0', '0', '0', '0', 'Z'].as_slice());
    assert(d@ =~= ics_padded(v@));
    let mut i: usize = 0;
    while i < 13
        invariant
            0 <= i <= 13,
            d@ == ics_padded(v@),
            d@.len() >= 15,
            forall|j: int| 0 <= j < i ==> is_ascii_char(#[trigger] d@[j]),
        decreases 13 - i,
    {
        if (d[i] as u32) >= 0x80 {
            return false;
        }
        i = i + 1;
    }
    let c13 = d[13] as u32;
    let c14 = d[14] as u32;
    (0x80 <= c13 && c13 < 0x800) || (c13 < 0x80 && c14 < 0x80)
}

/// The RFC 3339 text of a stamp whose byte ranges can be cut.
fn stamp_rfc3339_text(v: &[char]) -> (res: String)
    requires
        ics_stamp_sliceable(v@),
    ensures
        res@ == ics_stamp_rfc3339(v@),
{
    let mut d: Vec<char> = copy_range(v, 0, v.len());
    crate::text::append_chars(&mut d, vec!['T', '0', '0', '0', '0', '0', '0', 'Z'].as_slice());
    assert(d@ =~= ics_padded(v@));
    let out = vec![
        d[0], d[1], d[2], d[3], '-', d[4], d[5], '-', d[6], d[7], 'T', d[9], d[10], ':', d[11],
        d[12], ':', '0', '0', 'Z',
    ];
    assert(out@ =~= ics_stamp_rfc3339(v@));
    string_of(out.as_slice())
}

/// The instant named by an iCalendar date stamp (`20230331T160000`,
/// `20240508`, `20230715T220000Z`), or `None` when the stamp cannot be read.
pub fn ics_stamp_to_seconds(v: &[char]) -> (res: Option<i64>)
    ensures
        res == ics_stamp_seconds(v@),
        res matches Some(t) ==> MIN_RFC3339_SECONDS <= t <= MAX_RFC3339_SECONDS,
{
    if !stamp_sliceable(v) {
        return None;
    }
    let text = stamp_rfc3339_text(v);
    parse_rfc3339(text.as_str())
}

} // verus!
