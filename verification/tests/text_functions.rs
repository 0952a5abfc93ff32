use fscs_monitor::text::{
    byte_slice_of, chars_of, decimal_of, find, split_all_exec, parse_i32, replace_all_exec, split_field_exec, string_of,
    without_char_exec,
};

fn c(s: &str) -> Vec<char> {
    chars_of(s)
}

#[test]
fn integers_are_parsed_like_str_parse() {
    for s in ["0", "+5", "-0", "0042", "2147483647", "-2147483648", "12a", "", "-", "+", "2147483648", "-2147483649", " 1", "99999999999999999999", "٣"] {
        assert_eq!(parse_i32(&c(s)), s.parse::<i32>().ok(), "{:?}", s);
    }
}

#[test]
fn decimal_notation() {
    for n in [0i64, 7, -7, 10, 1_700_000_000, i64::MAX, i64::MIN] {
        assert_eq!(string_of(&decimal_of(n)), n.to_string());
    }
}

#[test]
fn fields_like_str_split() {
    for (s, p) in [("a;b;;c", ";"), ("FREQ=WEEKLY", "="), ("", ","), ("aaa", "aa"), ("x url(y) url(z)", "url(")] {
        let pieces: Vec<&str> = s.split(p).collect();
        for k in 0..5 {
            let got = split_field_exec(&c(s), &c(p), k).map(|v| string_of(&v));
            assert_eq!(got, pieces.get(k).map(|x| x.to_string()), "{:?} {:?} {}", s, p, k);
        }
    }
}

#[test]
fn replacing_like_str_replace() {
    for (s, p, r) in [("a (RRX) b (RRX)", " (RRX)", ""), ("aaaa", "aa", "b"), ("START-START", "START", "12"), ("none", "x", "y")] {
        assert_eq!(string_of(&replace_all_exec(&c(s), &c(p), &c(r))), s.replace(p, r));
    }
    assert_eq!(string_of(&without_char_exec(&c("\"a\"b\""), '"')), "ab");
}

#[test]
fn finding() {
    assert_eq!(find(&c("abcabc"), &c("ca")), Some(2));
    assert_eq!(find(&c("abc"), &c("d")), None);
    assert_eq!(find(&c("ab"), &c("abc")), None);
}

#[test]
fn byte_ranges_like_str_get() {
    for s in ["20230331T160000", "ab", "äbc", "", "2023äb"] {
        for from in 0..8 {
            for to in 0..8 {
                assert_eq!(byte_slice_of(s, from, to), s.get(from..to).map(|x| x.to_string()), "{:?} {} {}", s, from, to);
            }
        }
    }
}

#[test]
fn all_pieces_like_str_split() {
    for (s, p) in [("a;b;;c", ";"), ("", ","), ("aaa", "aa"), ("UID:x\nUID:y", "UID:"), ("x", "x")] {
        let pieces: Vec<String> = s.split(p).map(|x| x.to_string()).collect();
        let got: Vec<String> = split_all_exec(&c(s), &c(p)).iter().map(|v| string_of(v)).collect();
        assert_eq!(got, pieces, "{:?} {:?}", s, p);
    }
}
