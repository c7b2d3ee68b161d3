use forum_scraper::text::{
    concat_str, contains, ends_with, matches_at, parse_i32, replace, starts_with, str_eq,
    strip_prefix, trim,
};

#[test]
fn trim_removes_unicode_white_space_at_both_ends() {
    assert_eq!(trim("  a b \n"), "a b");
    assert_eq!(trim("\u{3000}x\u{85}"), "x");
    assert_eq!(trim("\t\r\n"), "");
    assert_eq!(trim(""), "");
    assert_eq!(trim("x"), "x");
}

#[test]
fn trim_agrees_with_std() {
    for s in ["", " ", "a", " a ", "\u{a0}b\u{2009}", "a  b", "\u{200b}c\u{200b}", "\n\nz\t"] {
        assert_eq!(trim(s), s.trim());
    }
}

#[test]
fn trim_twice_is_trim_once() {
    for s in ["  x y  ", "\u{2028}q\u{2029}", "", "abc"] {
        let once = trim(s);
        assert_eq!(trim(&once), once);
    }
}

#[test]
fn prefix_suffix_and_infix() {
    assert!(starts_with("E-mail: a@b", "E-mail:"));
    assert!(!starts_with("Email:", "E-mail:"));
    assert!(starts_with("abc", ""));
    assert!(ends_with("pic.jpg", ".jpg"));
    assert!(!ends_with("jpg", ".jpg"));
    assert!(contains("xx f%3d4 yy", "f%3d4"));
    assert!(!contains("f%3d", "f%3d4"));
    assert!(contains("abc", ""));
    assert!(matches_at("abcd", "cd", 2));
    assert!(!matches_at("abcd", "cd", 3));
    assert!(str_eq("æøå", "æøå"));
    assert!(!str_eq("a", "ab"));
    assert_eq!(concat_str("ab", "cd"), "abcd");
}

#[test]
fn strip_prefix_returns_the_rest() {
    assert_eq!(strip_prefix("Emne: Hej", "Emne:"), Some(" Hej".to_string()));
    assert_eq!(strip_prefix("Navn: X", "Emne:"), None);
    assert_eq!(strip_prefix("Svar:", "Svar:"), Some(String::new()));
}

#[test]
fn replace_matches_std() {
    let cases = [
        ("a%3fb%3f", "%3f", "?"),
        ("aaa", "aa", "b"),
        ("abc", "", "-"),
        ("", "", "x"),
        ("../volvo240.dk/x", "../volvo240.dk/", ""),
        ("%26amp;%26", "%26amp;", "&"),
        ("æøå", "ø", "oe"),
        ("no match", "zz", "y"),
    ];
    for (s, from, to) in cases {
        assert_eq!(replace(s, from, to), s.replace(from, to));
    }
    assert_eq!(replace("aaa", "aa", "b"), "ba");
    assert_eq!(replace("abc", "", "-"), "-a-b-c-");
}

#[test]
fn replace_by_itself_changes_nothing() {
    for (s, p) in [("abab", "ab"), ("xyz", ""), ("aaaa", "aa")] {
        assert_eq!(replace(s, p, p), s);
    }
}

#[test]
fn parse_i32_matches_std() {
    let cases = [
        "42", "-2147483648", "2147483647", "2147483648", "-2147483649", "+7", "+", "-", "",
        "1a", "007", "99999999999999999999", "-0", "+-1", " 1", "١٢",
    ];
    for s in cases {
        assert_eq!(parse_i32(s), s.parse::<i32>().ok(), "input {s:?}");
    }
    assert_eq!(parse_i32("-2147483648"), Some(i32::MIN));
    assert_eq!(parse_i32("2147483648"), None);
    assert_eq!(parse_i32("+7"), Some(7));
}

#[test]
fn replacing_an_absent_text_changes_nothing() {
    assert_eq!(replace("hello", "zz", "y"), "hello");
    assert_eq!(replace("", "a", "b"), "");
}
