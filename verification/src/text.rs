//! Text helpers over character sequences: searching, splitting, replacing,
//! decimal formatting and parsing.  Every exec function here is verified
//! against the spec function next to it.
use vstd::prelude::*;
use vstd::utf8::{decode_utf8, encode_utf8, is_char_boundary};

verus! {

// ---------------------------------------------------------------------------
// Specifications
// ---------------------------------------------------------------------------

/// `pat` occurs in `s` starting at index `i`.
pub open spec fn occurs_at(s: Seq<char>, pat: Seq<char>, i: int) -> bool {
    &&& 0 <= i
    &&& i + pat.len() <= s.len()
    &&& s.subrange(i, i + pat.len()) == pat
}

/// `pat` does not occur in `s` at any index below `i`.
pub open spec fn no_occurrence_before(s: Seq<char>, pat: Seq<char>, i: int) -> bool {
    forall|j: int| 0 <= j < i ==> !occurs_at(s, pat, j)
}

/// `i` is the index of the leftmost occurrence of `pat` in `s`.
pub open spec fn is_first_occurrence(s: Seq<char>, pat: Seq<char>, i: int) -> bool {
    occurs_at(s, pat, i) && no_occurrence_before(s, pat, i)
}

/// The index of the leftmost occurrence of `pat` in `s`, if any.
pub open spec fn first_occurrence(s: Seq<char>, pat: Seq<char>) -> Option<int> {
    if exists|i: int| is_first_occurrence(s, pat, i) {
        Some(choose|i: int| is_first_occurrence(s, pat, i))
    } else {
        None
    }
}

/// `s` contains `pat`.
pub open spec fn contains(s: Seq<char>, pat: Seq<char>) -> bool {
    exists|i: int| occurs_at(s, pat, i)
}

/// The `k`-th piece (counting from 0) of `s` split at the non-overlapping
/// occurrences of `pat`, found from left to right; `None` when `s` has
/// fewer than `k + 1` pieces.
pub open spec fn split_field(s: Seq<char>, pat: Seq<char>, k: nat) -> Option<Seq<char>>
    decreases k,
{
    match first_occurrence(s, pat) {
        None => if k == 0 {
            Some(s)
        } else {
            None
        },
        Some(i) => if k == 0 {
            Some(s.subrange(0, i))
        } else {
            split_field(s.subrange(i + pat.len(), s.len() as int), pat, (k - 1) as nat)
        },
    }
}

/// `s` with every non-overlapping occurrence of `pat`, found from left to
/// right, replaced by `rep`.
pub open spec fn replace_all(s: Seq<char>, pat: Seq<char>, rep: Seq<char>) -> Seq<char>
    decreases s.len(),
{
    if pat.len() == 0 {
        s
    } else {
        match first_occurrence(s, pat) {
            None => s,
            Some(i) => if 0 <= i && i + pat.len() <= s.len() {
                s.subrange(0, i) + rep + replace_all(
                    s.subrange(i + pat.len(), s.len() as int),
                    pat,
                    rep,
                )
            } else {
                s
            },
        }
    }
}

/// `s` without any occurrence of the character `c`.
pub open spec fn without_char(s: Seq<char>, c: char) -> Seq<char> {
    s.filter(|x: char| x != c)
}

/// The decimal digit character of `d` (`0 <= d < 10`).
pub open spec fn digit_char(d: int) -> char {
    ((d + 48) as u32) as char
}

/// The decimal notation of a natural number, without leading zeros.
pub open spec fn nat_decimal(n: nat) -> Seq<char>
    decreases n,
{
    if n < 10 {
        seq![digit_char(n as int)]
    } else {
        nat_decimal((n / 10) as nat).push(digit_char((n % 10) as int))
    }
}

/// The decimal notation of an integer, with a leading `-` when negative.
pub open spec fn decimal(n: int) -> Seq<char> {
    if n < 0 {
        seq!['-'] + nat_decimal((-n) as nat)
    } else {
        nat_decimal(n as nat)
    }
}

/// `c` is an ASCII decimal digit.
pub open spec fn is_digit(c: char) -> bool {
    '0' <= c && c <= '9'
}

/// Every character of `s` is an ASCII digit.
pub open spec fn all_digits(s: Seq<char>) -> bool {
    forall|i: int| 0 <= i < s.len() ==> is_digit(#[trigger] s[i])
}

/// The value of a string of ASCII decimal digits.
pub open spec fn digits_value(s: Seq<char>) -> int
    decreases s.len(),
{
    if s.len() == 0 {
        0
    } else {
        digits_value(s.drop_last()) * 10 + (s.last() as int - 48)
    }
}

/// What `str::parse::<i32>` gives for `s`: an optional `+` or `-` followed by
/// one or more ASCII digits whose value lies in the range of `i32`.
pub open spec fn parse_i32_spec(s: Seq<char>) -> Option<i32> {
    let signed = s.len() > 0 && (s[0] == '+' || s[0] == '-');
    let body = if signed {
        s.drop_first()
    } else {
        s
    };
    let value = if signed && s[0] == '-' {
        -digits_value(body)
    } else {
        digits_value(body)
    };
    if body.len() > 0 && all_digits(body) && i32::MIN <= value <= i32::MAX {
        Some(value as i32)
    } else {
        None
    }
}

// ---------------------------------------------------------------------------
// Trusted std helpers
// ---------------------------------------------------------------------------

/// `String::push`: appends the character `c` at the end of `s`.
#[verifier::external_body]
pub(crate) fn push_char(s: &mut String, c: char)
    ensures
        final(s)@ == old(s)@.push(c),
{
    s.push(c);
}

// ---------------------------------------------------------------------------
// Lemmas
// ---------------------------------------------------------------------------

/// The leftmost occurrence, when one is known, is what `first_occurrence` gives.
pub proof fn lemma_first_occurrence_is(s: Seq<char>, pat: Seq<char>, i: int)
    requires
        is_first_occurrence(s, pat, i),
    ensures
        first_occurrence(s, pat) == Some(i),
{
    let j = choose|j: int| is_first_occurrence(s, pat, j);
    assert(is_first_occurrence(s, pat, j));
    if j < i {
        assert(!occurs_at(s, pat, j));
    } else if i < j {
        assert(!occurs_at(s, pat, i));
    }
}

/// With no occurrence at all, `first_occurrence` gives `None`.
pub proof fn lemma_first_occurrence_none(s: Seq<char>, pat: Seq<char>)
    requires
        no_occurrence_before(s, pat, s.len() - pat.len() + 1),
    ensures
        first_occurrence(s, pat) is None,
        !contains(s, pat),
{
    if exists|i: int| is_first_occurrence(s, pat, i) {
        let j = choose|i: int| is_first_occurrence(s, pat, i);
        assert(occurs_at(s, pat, j));
    }
    assert forall|i: int| !occurs_at(s, pat, i) by {
        if occurs_at(s, pat, i) {
            assert(0 <= i < s.len() - pat.len() + 1);
        }
    }
}

/// A first occurrence is an occurrence.
pub proof fn lemma_first_occurrence_occurs(s: Seq<char>, pat: Seq<char>)
    requires
        first_occurrence(s, pat) is Some,
    ensures
        is_first_occurrence(s, pat, first_occurrence(s, pat)->0),
        contains(s, pat),
{
}

// ---------------------------------------------------------------------------
// Exec functions
// ---------------------------------------------------------------------------

/// The characters of a string slice, in order.
pub fn chars_of(s: &str) -> (res: Vec<char>)
    ensures
        res@ == s@,
{
    let mut res: Vec<char> = Vec::new();
    for c in it: s.chars()
        invariant
            res@ == it.seq().take(it.index() as int),
    {
        res.push(c);
    }
    res
}

/// A string made of the given characters.
pub fn string_of(cs: &[char]) -> (res: String)
    ensures
        res@ == cs@,
{
    let mut res = String::new();
    let mut i: usize = 0;
    while i < cs.len()
        invariant
            0 <= i <= cs.len(),
            res@ == cs@.take(i as int),
        decreases cs.len() - i,
    {
        push_char(&mut res, cs[i]);
        assert(cs@.take(i as int).push(cs@[i as int]) =~= cs@.take(i + 1));
        i = i + 1;
    }
    assert(cs@.take(cs.len() as int) =~= cs@);
    res
}

/// The characters `s[from..to]`, copied.
pub fn copy_range(s: &[char], from: usize, to: usize) -> (res: Vec<char>)
    requires
        from <= to <= s.len(),
    ensures
        res@ == s@.subrange(from as int, to as int),
{
    let mut res: Vec<char> = Vec::new();
    let mut i = from;
    while i < to
        invariant
            from <= i <= to <= s.len(),
            res@ == s@.subrange(from as int, i as int),
        decreases to - i,
    {
        res.push(s[i]);
        assert(s@.subrange(from as int, i as int).push(s@[i as int]) =~= s@.subrange(
            from as int,
            i + 1,
        ));
        i = i + 1;
    }
    res
}

/// Appends the characters `t` to `v`.
pub fn append_chars(v: &mut Vec<char>, t: &[char])
    ensures
        final(v)@ == old(v)@ + t@,
{
    let mut i: usize = 0;
    while i < t.len()
        invariant
            0 <= i <= t.len(),
            v@ == old(v)@ + t@.take(i as int),
        decreases t.len() - i,
    {
        v.push(t[i]);
        assert(old(v)@ + t@.take(i as int).push(t@[i as int]) =~= old(v)@ + t@.take(i + 1));
        i = i + 1;
    }
    assert(t@.take(t.len() as int) =~= t@);
}

/// Whether `pat` occurs in `s` at index `i`.
pub fn occurs_at_exec(s: &[char], pat: &[char], i: usize) -> (res: bool)
    ensures
        res == occurs_at(s@, pat@, i as int),
{
    if i > s.len() || pat.len() > s.len() - i {
        return false;
    }
    let mut j: usize = 0;
    while j < pat.len()
        invariant
            0 <= j <= pat.len(),
            i + pat.len() <= s.len(),
            forall|k: int| 0 <= k < j ==> s@[i + k] == pat@[k],
        decreases pat.len() - j,
    {
        if s[i + j] != pat[j] {
            assert(s@.subrange(i as int, i + pat.len())[j as int] != pat@[j as int]);
            return false;
        }
        j = j + 1;
    }
    assert(s@.subrange(i as int, i + pat.len()) =~= pat@);
    true
}

/// The index of the leftmost occurrence of `pat` in `s`.
pub fn find(s: &[char], pat: &[char]) -> (res: Option<usize>)
    ensures
        res matches Some(i) ==> first_occurrence(s@, pat@) == Some(i as int),
        res is None ==> first_occurrence(s@, pat@) is None,
{
    if pat.len() > s.len() {
        proof {
            lemma_first_occurrence_none(s@, pat@);
        }
        return None;
    }
    let last = s.len() - pat.len();
    let mut i: usize = 0;
    loop
        invariant
            0 <= i <= last,
            last == s.len() - pat.len(),
            no_occurrence_before(s@, pat@, i as int),
        ensures
            no_occurrence_before(s@, pat@, last + 1),
        decreases last - i,
    {
        if occurs_at_exec(s, pat, i) {
            proof {
                lemma_first_occurrence_is(s@, pat@, i as int);
            }
            return Some(i);
        }
        if i == last {
            proof {
                assert forall|j: int| 0 <= j < last + 1 implies !occurs_at(s@, pat@, j) by {
                    if j < i {
                    }
                }
            }
            break;
        }
        i = i + 1;
    }
    proof {
        lemma_first_occurrence_none(s@, pat@);
    }
    None
}

/// Whether `s` contains `pat`.
pub fn contains_exec(s: &[char], pat: &[char]) -> (res: bool)
    ensures
        res == contains(s@, pat@),
{
    match find(s, pat) {
        Some(_) => {
            proof {
                lemma_first_occurrence_occurs(s@, pat@);
            }
            true
        },
        None => {
            proof {
                if exists|i: int| occurs_at(s@, pat@, i) {
                    let w = choose|i: int| occurs_at(s@, pat@, i);
                    lemma_min_occurrence(s@, pat@, w);
                }
            }
            false
        },
    }
}

/// An occurrence implies that a leftmost one exists.
pub proof fn lemma_min_occurrence(s: Seq<char>, pat: Seq<char>, w: int)
    requires
        occurs_at(s, pat, w),
    ensures
        first_occurrence(s, pat) is Some,
    decreases w,
{
    if no_occurrence_before(s, pat, w) {
        lemma_first_occurrence_is(s, pat, w);
    } else {
        let v = choose|v: int| 0 <= v < w && occurs_at(s, pat, v);
        lemma_min_occurrence(s, pat, v);
    }
}

/// The `k`-th piece of `s` split at `pat`.
pub fn split_field_exec(s: &[char], pat: &[char], k: usize) -> (res: Option<Vec<char>>)
    requires
        pat.len() > 0,
    ensures
        res matches Some(r) ==> split_field(s@, pat@, k as nat) == Some(r@),
        res is None ==> split_field(s@, pat@, k as nat) is None,
    decreases k,
{
    match find(s, pat) {
        None => if k == 0 {
            Some(copy_range(s, 0, s.len()))
        } else {
            None
        },
        Some(i) => {
            proof {
                lemma_first_occurrence_occurs(s@, pat@);
                assert(occurs_at(s@, pat@, i as int));
            }
            if k == 0 {
                Some(copy_range(s, 0, i))
            } else {
                assert(i + pat@.len() <= s@.len());
                assert(i + pat.len() <= s.len());
                let rest = copy_range(s, i + pat.len(), s.len());
                split_field_exec(rest.as_slice(), pat, k - 1)
            }
        },
    }
}

/// `s` with every occurrence of `pat` replaced by `rep`.
pub fn replace_all_exec(s: &[char], pat: &[char], rep: &[char]) -> (res: Vec<char>)
    ensures
        res@ == replace_all(s@, pat@, rep@),
    decreases s.len(),
{
    if pat.len() == 0 {
        return copy_range(s, 0, s.len());
    }
    match find(s, pat) {
        None => copy_range(s, 0, s.len()),
        Some(i) => {
            proof {
                lemma_first_occurrence_occurs(s@, pat@);
                assert(occurs_at(s@, pat@, i as int));
            }
            let mut res = copy_range(s, 0, i);
            append_chars(&mut res, rep);
            let rest = copy_range(s, i + pat.len(), s.len());
            let tail = replace_all_exec(rest.as_slice(), pat, rep);
            append_chars(&mut res, tail.as_slice());
            res
        },
    }
}

/// `s` without any occurrence of `c`.
pub fn without_char_exec(s: &[char], c: char) -> (res: Vec<char>)
    ensures
        res@ == without_char(s@, c),
{
    let mut res: Vec<char> = Vec::new();
    let mut i: usize = 0;
    while i < s.len()
        invariant
            0 <= i <= s.len(),
            res@ == without_char(s@.take(i as int), c),
        decreases s.len() - i,
    {
        proof {
            assert(s@.take(i + 1).drop_last() =~= s@.take(i as int));
            reveal_with_fuel(Seq::filter, 1);
        }
        if s[i] != c {
            res.push(s[i]);
        }
        i = i + 1;
    }
    assert(s@.take(s.len() as int) =~= s@);
    res
}

/// The first `n` characters of `s` (all of them when it is shorter).
pub fn take_chars(s: &[char], n: usize) -> (res: Vec<char>)
    ensures
        res@ == s@.take(if n < s.len() { n as int } else { s.len() as int }),
{
    let end = if n < s.len() {
        n
    } else {
        s.len()
    };
    copy_range(s, 0, end)
}

/// The decimal notation of `n`.
pub fn decimal_of(n: i64) -> (res: Vec<char>)
    ensures
        res@ == decimal(n as int),
{
    let negative = n < 0;
    // the magnitude as u64 (i64::MIN has no positive i64 counterpart)
    let mag: u64 = if negative {
        if n == i64::MIN {
            9223372036854775808u64
        } else {
            (-n) as u64
        }
    } else {
        n as u64
    };
    let digits = nat_decimal_of(mag);
    if negative {
        let mut res: Vec<char> = Vec::new();
        res.push('-');
        append_chars(&mut res, digits.as_slice());
        assert(res@ =~= seq!['-'] + digits@);
        res
    } else {
        digits
    }
}

/// The decimal notation of a natural number.
pub fn nat_decimal_of(n: u64) -> (res: Vec<char>)
    ensures
        res@ == nat_decimal(n as nat),
    decreases n,
{
    let d = (n % 10) as u32;
    let c = char_of_digit(d);
    if n < 10 {
        let mut res: Vec<char> = Vec::new();
        res.push(c);
        assert(res@ =~= seq![digit_char(n as int)]);
        res
    } else {
        let mut res = nat_decimal_of(n / 10);
        res.push(c);
        res
    }
}

/// The character of a decimal digit.
pub fn char_of_digit(d: u32) -> (c: char)
    requires
        d < 10,
    ensures
        c == digit_char(d as int),
{
    if d == 0 {
        '0'
    } else if d == 1 {
        '1'
    } else if d == 2 {
        '2'
    } else if d == 3 {
        '3'
    } else if d == 4 {
        '4'
    } else if d == 5 {
        '5'
    } else if d == 6 {
        '6'
    } else if d == 7 {
        '7'
    } else if d == 8 {
        '8'
    } else {
        '9'
    }
}


/// Digit strings have non-negative values that only grow when digits are
/// appended.
proof fn lemma_digits_value_grows(s: Seq<char>, k: int)
    requires
        all_digits(s),
        0 <= k <= s.len(),
    ensures
        0 <= digits_value(s.take(k)) <= digits_value(s),
    decreases s.len(),
{
    if s.len() > 0 {
        let t = s.drop_last();
        assert(all_digits(t));
        if k == s.len() {
            assert(s.take(k) =~= s);
            lemma_digits_value_grows(t, t.len() as int);
            assert(t.take(t.len() as int) =~= t);
        } else {
            lemma_digits_value_grows(t, k);
            assert(t.take(k) =~= s.take(k));
            lemma_digits_value_grows(t, t.len() as int);
            assert(t.take(t.len() as int) =~= t);
        }
    } else {
        assert(s.take(k) =~= s);
    }
}

/// The value of a string of digits if it does not exceed `cap`; `None`
/// when a character is not a digit or the value exceeds `cap`.
pub fn digits_up_to(b: &[char], cap: i64) -> (res: Option<i64>)
    requires
        0 <= cap <= 1_000_000_000_000,
    ensures
        res == (if all_digits(b@) && digits_value(b@) <= cap {
            Some(digits_value(b@) as i64)
        } else {
            None
        }),
{
    let mut acc: i64 = 0;
    let mut j: usize = 0;
    while j < b.len()
        invariant
            0 <= j <= b.len(),
            0 <= cap <= 1_000_000_000_000,
            all_digits(b@.take(j as int)),
            acc == digits_value(b@.take(j as int)),
            0 <= acc <= cap,
        decreases b.len() - j,
    {
        let c = b[j];
        if !('0' <= c && c <= '9') {
            assert(!is_digit(b@[j as int]));
            return None;
        }
        let d = (c as u32 - 48) as i64;
        assert(b@.take(j + 1).drop_last() =~= b@.take(j as int));
        assert(b@.take(j + 1).last() == c);
        let next = acc * 10 + d;
        assert(all_digits(b@.take(j + 1)));
        if next > cap {
            proof {
                if all_digits(b@) {
                    lemma_digits_value_grows(b@, j + 1);
                }
            }
            return None;
        }
        acc = next;
        j = j + 1;
    }
    assert(b@.take(j as int) =~= b@);
    Some(acc)
}

/// What `str::parse::<i32>` gives: the value of an optionally signed
/// string of ASCII digits, `None` for anything else or a value out of range.
pub fn parse_i32(s: &[char]) -> (res: Option<i32>)
    ensures
        res == parse_i32_spec(s@),
{
    if s.len() == 0 {
        return None;
    }
    let signed = s[0] == '+' || s[0] == '-';
    let negative = s[0] == '-';
    let start: usize = if signed {
        1
    } else {
        0
    };
    let body = copy_range(s, start, s.len());
    assert(body@ =~= (if signed {
        s@.drop_first()
    } else {
        s@
    }));
    if body.len() == 0 {
        assert(parse_i32_spec(s@) is None);
        return None;
    }
    match digits_up_to(body.as_slice(), 2_147_483_648) {
        None => {
            proof {
                if !all_digits(body@) {
                    let i = choose|i: int| 0 <= i < body@.len() && !is_digit(body@[i]);
                    assert(!is_digit(body@[i]));
                    assert(parse_i32_spec(s@) is None);
                } else {
                    assert(digits_value(body@) > 2_147_483_648);
                    assert(parse_i32_spec(s@) is None);
                }
            }
            None
        },
        Some(v) => {
            proof {
                lemma_digits_value_grows(body@, 0);
            }
            if negative {
                Some((-v) as i32)
            } else if v > 2_147_483_647 {
                assert(!signed || s@[0] == '+');
                assert(parse_i32_spec(s@) is None);
                None
            } else {
                Some(v as i32)
            }
        },
    }
}


// ---------------------------------------------------------------------------
// Byte ranges and splitting into all pieces
// ---------------------------------------------------------------------------

/// The text that the byte range `from..to` of the UTF-8 encoding of `s`
/// holds, as `&s[from..to]` gives it; `None` where that would panic: the
/// range is reversed, leaves the text, or cuts a character.
pub open spec fn byte_slice(s: Seq<char>, from: int, to: int) -> Option<Seq<char>> {
    let b = encode_utf8(s);
    if 0 <= from <= to <= b.len() && is_char_boundary(b, from) && is_char_boundary(b, to) {
        Some(decode_utf8(b.subrange(from, to)))
    } else {
        None
    }
}

/// A boundary of a valid encoding is one of its prefix too.
proof fn lemma_boundary_of_prefix(b: Seq<u8>, from: int, to: int)
    requires
        vstd::utf8::valid_utf8(b),
        0 <= from <= to <= b.len(),
        is_char_boundary(b, from),
        is_char_boundary(b, to),
    ensures
        vstd::utf8::valid_utf8(b.subrange(0, to)),
        is_char_boundary(b.subrange(0, to), from),
{
    let p = b.subrange(0, to);
    vstd::utf8::valid_utf8_split(b, to);
    if from == to {
        vstd::utf8::is_char_boundary_start_end_of_seq(p);
    } else {
        vstd::utf8::is_char_boundary_iff_not_is_continuation_byte(b, from);
        vstd::utf8::is_char_boundary_iff_not_is_continuation_byte(p, from);
        assert(p[from] == b[from]);
    }
}

/// `&s[from..to]` as an owned string, or `None` where slicing would panic.
pub fn byte_slice_of(s: &str, from: usize, to: usize) -> (res: Option<String>)
    ensures
        res matches Some(r) ==> byte_slice(s@, from as int, to as int) == Some(r@),
        res is None ==> byte_slice(s@, from as int, to as int) is None,
{
    proof {
        vstd::utf8::encode_utf8_valid_utf8(s@);
    }
    let ghost b = encode_utf8(s@);
    if from > to || !s.is_char_boundary(from) || !s.is_char_boundary(to) {
        return None;
    }
    assert(to <= b.len());
    proof {
        lemma_boundary_of_prefix(b, from as int, to as int);
    }
    let (head, _) = s.split_at(to);
    let (_, mid) = head.split_at(from);
    proof {
        assert(encode_utf8(mid@) =~= b.subrange(from as int, to as int));
        vstd::utf8::encode_utf8_decode_utf8(mid@);
    }
    Some(mid.to_owned())
}

/// All pieces of `s` split at the non-overlapping occurrences of `pat`,
/// found from left to right (`pat` is not empty).
pub open spec fn split_all(s: Seq<char>, pat: Seq<char>) -> Seq<Seq<char>>
    decreases s.len(),
{
    if pat.len() == 0 {
        seq![s]
    } else {
        match first_occurrence(s, pat) {
            None => seq![s],
            Some(i) => if 0 <= i && i + pat.len() <= s.len() {
                seq![s.subrange(0, i)] + split_all(s.subrange(i + pat.len(), s.len() as int), pat)
            } else {
                seq![s]
            },
        }
    }
}

/// All pieces of `s` split at `pat`.
pub fn split_all_exec(s: &[char], pat: &[char]) -> (res: Vec<Vec<char>>)
    requires
        pat.len() > 0,
    ensures
        res@.len() == split_all(s@, pat@).len(),
        forall|k: int| 0 <= k < res@.len() ==> #[trigger] res@[k]@ == split_all(s@, pat@)[k],
    decreases s.len(),
{
    match find(s, pat) {
        None => {
            let mut res: Vec<Vec<char>> = Vec::new();
            res.push(copy_range(s, 0, s.len()));
            res
        },
        Some(i) => {
            proof {
                lemma_first_occurrence_occurs(s@, pat@);
                assert(occurs_at(s@, pat@, i as int));
            }
            let rest = copy_range(s, i + pat.len(), s.len());
            let tail = split_all_exec(rest.as_slice(), pat);
            let mut res: Vec<Vec<char>> = Vec::new();
            res.push(copy_range(s, 0, i));
            let ghost whole = split_all(s@, pat@);
            let ghost tv = split_all(rest@, pat@);
            assert(whole =~= seq![s@.subrange(0, i as int)] + tv);
            let mut j: usize = 0;
            while j < tail.len()
                invariant
                    0 <= j <= tail.len(),
                    tail@.len() == tv.len(),
                    forall|k: int| 0 <= k < tail@.len() ==> #[trigger] tail@[k]@ == tv[k],
                    res@.len() == j + 1,
                    whole == seq![s@.subrange(0, i as int)] + tv,
                    forall|k: int| 0 <= k < res@.len() ==> #[trigger] res@[k]@ == whole[k],
                decreases tail.len() - j,
            {
                res.push(copy_range(tail[j].as_slice(), 0, tail[j].len()));
                assert(res@[j + 1]@ == whole[j + 1]);
                j = j + 1;
            }
            res
        },
    }
}

} // verus!
