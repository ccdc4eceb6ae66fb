use mini_http::text::{
    find_in, from_chars, matches_at, same_text, split_on, starts_with, to_chars, write_decimal,
};

fn chars(s: &str) -> Vec<char> {
    s.chars().collect()
}

fn pieces(hay: &str, pat: &str) -> Vec<String> {
    let hay = chars(hay);
    let pat = chars(pat);
    split_on(&hay, &pat).into_iter().map(|p| p.iter().collect()).collect()
}

#[test]
fn chars_and_back() {
    assert_eq!(to_chars("a\u{e9}\u{4e16}\r\n"), vec!['a', '\u{e9}', '\u{4e16}', '\r', '\n']);
    assert_eq!(to_chars(""), Vec::<char>::new());
    assert_eq!(from_chars(&['h', '\u{e9}', '!']), "h\u{e9}!");
    assert_eq!(from_chars(&[]), "");
}

#[test]
fn find_reports_the_first_occurrence() {
    assert_eq!(find_in(&chars("a b c"), &chars(" ")), Some(1));
    assert_eq!(find_in(&chars("abc"), &chars(" ")), None);
    assert_eq!(find_in(&chars("x\ry\r\nz\r\n"), &chars("\r\n")), Some(3));
    assert_eq!(find_in(&chars("\r\n"), &chars("\r\n")), Some(0));
    assert_eq!(find_in(&chars("\r"), &chars("\r\n")), None);
    assert_eq!(find_in(&chars("aaa"), &chars("aa")), Some(0));
    assert_eq!(find_in(&chars("abc"), &chars("")), Some(0));
    assert_eq!(find_in(&chars(""), &chars("")), Some(0));
    assert_eq!(find_in(&chars(""), &chars("a")), None);
    assert_eq!(find_in(&chars("\u{e9}\u{e9}?"), &chars("?")), Some(2));
}

#[test]
fn matches_at_checks_one_position() {
    assert!(matches_at(&chars("key: value"), &chars(": "), 3));
    assert!(!matches_at(&chars("key: value"), &chars(": "), 2));
    assert!(!matches_at(&chars("key:"), &chars(": "), 3));
    assert!(!matches_at(&chars("key"), &chars(": "), 7));
    assert!(matches_at(&chars("key"), &chars(""), 3));
    assert!(!matches_at(&chars("key"), &chars(""), 4));
}

#[test]
fn prefixes_and_equality() {
    assert!(starts_with(&chars("HTTP/1.1"), &chars("HTTP/")));
    assert!(starts_with(&chars("HTTP/"), &chars("HTTP/")));
    assert!(!starts_with(&chars("HTTP"), &chars("HTTP/")));
    assert!(!starts_with(&chars("HTTX/1.1"), &chars("HTTP/")));
    assert!(starts_with(&chars(""), &chars("")));
    assert!(same_text(&chars("GET"), &chars("GET")));
    assert!(!same_text(&chars("GET"), &chars("GETS")));
    assert!(!same_text(&chars("GETS"), &chars("GET")));
    assert!(!same_text(&chars("GET"), &chars("PUT")));
}

#[test]
fn split_cuts_at_every_occurrence() {
    assert_eq!(pieces("a&b&c", "&"), ["a", "b", "c"]);
    assert_eq!(pieces("a&&c", "&"), ["a", "", "c"]);
    assert_eq!(pieces("&a&", "&"), ["", "a", ""]);
    assert_eq!(pieces("", "&"), [""]);
    assert_eq!(pieces("abc", "&"), ["abc"]);
    assert_eq!(pieces("k: v: w", ": "), ["k", "v", "w"]);
    assert_eq!(pieces("k:: v", ": "), ["k:", "v"]);
    assert_eq!(pieces("aaa", "aa"), ["", "a"]);
    assert_eq!(pieces("abc", ""), ["abc"]);
}

#[test]
fn decimal_digits() {
    for (n, expected) in [
        (0u32, "0"),
        (9, "9"),
        (10, "10"),
        (200, "200"),
        (90210, "90210"),
        (u32::MAX, "4294967295"),
    ] {
        let mut out = String::from("#");
        write_decimal(n, &mut out);
        assert_eq!(out, format!("#{}", expected));
    }
}
