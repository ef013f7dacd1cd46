use paradise_proxy::text::{
    chars_of, contains, join, parse_u32, parse_u64, push_decimal, split_char, trim,
};

#[test]
fn trim_removes_unicode_white_space() {
    assert_eq!(trim("  \t hello world \n"), "hello world");
    assert_eq!(trim("\u{3000}\u{a0}text\u{2028}"), "text");
    assert_eq!(trim("   "), "");
    assert_eq!(trim(""), "");
    assert_eq!(trim("a"), "a");
}

#[test]
fn trim_twice_is_trim_once() {
    for s in ["  x  ", "\n\n y z \t", "", " ", "abc"] {
        let once = trim(s);
        assert_eq!(trim(&once), once);
        assert_eq!(once, s.trim());
    }
}

#[test]
fn split_char_matches_str_split() {
    for s in ["a\nb\nc", "", "\n", "a\n", "\na", "one line"] {
        let ours = split_char(s, '\n');
        let std: Vec<String> = s.split('\n').map(|x| x.to_string()).collect();
        assert_eq!(ours, std);
    }
}

#[test]
fn contains_finds_substrings() {
    assert!(contains("call me on QQ 123", "QQ"));
    assert!(!contains("call me", "QQ"));
    assert!(contains("anything", ""));
    assert!(!contains("", "a"));
    assert!(contains("中文wx", "wx"));
}

#[test]
fn join_puts_separator_between_parts() {
    let parts = vec!["a".to_string(), "b".to_string(), "c".to_string()];
    assert_eq!(join(&parts, ","), "a,b,c");
    assert_eq!(join(&vec!["only".to_string()], ","), "only");
    assert_eq!(join(&Vec::new(), ","), "");
}

#[test]
fn parse_follows_from_str() {
    assert_eq!(parse_u32("12"), Some(12));
    assert_eq!(parse_u32("+12"), Some(12));
    assert_eq!(parse_u32("4294967295"), Some(u32::MAX));
    assert_eq!(parse_u32("4294967296"), None);
    assert_eq!(parse_u32(""), None);
    assert_eq!(parse_u32("+"), None);
    assert_eq!(parse_u32("-1"), None);
    assert_eq!(parse_u32(" 1"), None);
    assert_eq!(parse_u32("1a"), None);
    assert_eq!(parse_u64("18446744073709551615"), Some(u64::MAX));
    assert_eq!(parse_u64("18446744073709551616"), None);
    assert_eq!(parse_u64("007"), Some(7));
    for s in ["0", "99", "+5", "x", "", "123456789012"] {
        assert_eq!(parse_u32(s), s.parse::<u32>().ok());
    }
}

#[test]
fn decimal_spelling() {
    let mut s = String::from("n=");
    push_decimal(&mut s, 0);
    assert_eq!(s, "n=0");
    let mut t = String::new();
    push_decimal(&mut t, 1234567890123);
    assert_eq!(t, "1234567890123");
    let mut u = String::new();
    push_decimal(&mut u, u64::MAX);
    assert_eq!(u, u64::MAX.to_string());
}

#[test]
fn chars_of_keeps_order() {
    assert_eq!(chars_of("héllo"), vec!['h', 'é', 'l', 'l', 'o']);
}
