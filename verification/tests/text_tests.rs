use vinland::text::{
    chars_eq, chars_of, contains_chars, is_whitespace, join_from, lower_str, parse_usize, push_decimal,
    split_char, split_whitespace, starts_with, string_from_chars, trim,
};

fn cs(s: &str) -> Vec<char> {
    s.chars().collect()
}

#[test]
fn parse_usize_like_std() {
    assert_eq!(parse_usize(&cs("42")), Some(42));
    assert_eq!(parse_usize(&cs("+7")), Some(7));
    assert_eq!(parse_usize(&cs("007")), Some(7));
    assert_eq!(parse_usize(&cs("")), None);
    assert_eq!(parse_usize(&cs("+")), None);
    assert_eq!(parse_usize(&cs("-1")), None);
    assert_eq!(parse_usize(&cs("1a")), None);
    assert_eq!(parse_usize(&cs(" 1")), None);
    assert_eq!(parse_usize(&cs(&usize::MAX.to_string())), Some(usize::MAX));
    assert_eq!(parse_usize(&cs("18446744073709551616")), None);
}

#[test]
fn decimal_rendering() {
    let mut out = cs("n=");
    push_decimal(&mut out, 0);
    assert_eq!(string_from_chars(&out), "n=0");
    let mut out = Vec::new();
    push_decimal(&mut out, 1234567890);
    assert_eq!(string_from_chars(&out), "1234567890");
}

#[test]
fn trimming_and_splitting() {
    assert_eq!(trim(&cs("  a b \t\n")), cs("a b"));
    assert_eq!(trim(&cs("   ")), cs(""));
    assert_eq!(split_char(&cs("a+b++c"), '+'), vec![cs("a"), cs("b"), cs(""), cs("c")]);
    assert_eq!(split_char(&cs(""), '+'), vec![cs("")]);
    assert_eq!(split_whitespace(&cs("  exec  foo\tbar ")), vec![cs("exec"), cs("foo"), cs("bar")]);
    assert_eq!(split_whitespace(&cs("   ")), Vec::<Vec<char>>::new());
    assert_eq!(join_from(&[cs("a"), cs("b"), cs("c")], 1), cs("b c"));
}

#[test]
fn comparisons() {
    assert!(starts_with(&cs("firefox-esr"), &cs("firefox")));
    assert!(!starts_with(&cs("fire"), &cs("firefox")));
    assert!(contains_chars(&cs("picture-in-picture"), &cs("in-p")));
    assert!(contains_chars(&cs("abc"), &cs("")));
    assert!(!contains_chars(&cs("abc"), &cs("abcd")));
    assert!(chars_eq(&cs("x"), &cs("x")));
    assert_eq!(lower_str("MiXeD Ünïcode"), cs("mixed ünïcode"));
    assert_eq!(chars_of("héllo"), cs("héllo"));
    assert!(is_whitespace('\u{3000}'));
    assert!(!is_whitespace('a'));
}
