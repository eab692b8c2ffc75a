use qliveplayer_lib::text::{
    after_last_char, decimal_string, contains_str, fancy_first_match, parse_u64, regex_capture,
    join_str, split_char, starts_with, str_eq, text_from_utf8, trim, url_path_last_segment,
};

#[test]
fn parse_u64_accepts_digits_and_one_plus() {
    assert_eq!(parse_u64("0"), Some(0));
    assert_eq!(parse_u64("42"), Some(42));
    assert_eq!(parse_u64("+12"), Some(12));
    assert_eq!(parse_u64("007"), Some(7));
    assert_eq!(parse_u64("18446744073709551615"), Some(u64::MAX));
}

#[test]
fn parse_u64_rejects_other_text() {
    assert_eq!(parse_u64(""), None);
    assert_eq!(parse_u64("+"), None);
    assert_eq!(parse_u64("++1"), None);
    assert_eq!(parse_u64("-1"), None);
    assert_eq!(parse_u64("1a"), None);
    assert_eq!(parse_u64(" 1"), None);
    assert_eq!(parse_u64("18446744073709551616"), None);
}

#[test]
fn parse_u64_agrees_with_std() {
    for s in ["", "0", "+0", "99", "+99", "x", "12 ", "4294967296", "99999999999999999999"] {
        assert_eq!(parse_u64(s), s.parse::<u64>().ok(), "input {:?}", s);
    }
}

#[test]
fn split_char_keeps_empty_pieces() {
    assert_eq!(split_char("a\nb\n", '\n'), vec!["a", "b", ""]);
    assert_eq!(split_char("", '\n'), vec![""]);
    assert_eq!(split_char("\n\n", '\n'), vec!["", "", ""]);
    assert_eq!(split_char("abc", '\n'), vec!["abc"]);
}

#[test]
fn trim_removes_unicode_white_space() {
    assert_eq!(trim("\t x y \u{3000}\n"), "x y");
    assert_eq!(trim("   "), "");
    assert_eq!(trim(""), "");
    assert_eq!(trim("\u{85}a\u{a0}"), "a");
    let s = " \u{2003}mixed\tcontent\r\n";
    assert_eq!(trim(s), s.trim());
}

#[test]
fn contains_and_prefix() {
    assert!(contains_str("https://live.bilibili.com/1", "live.bilibili.com"));
    assert!(contains_str("abc", ""));
    assert!(!contains_str("ab", "abc"));
    assert!(!contains_str("abd", "bc"));
    assert!(starts_with("#EXT-X-MEDIA-SEQUENCE:1", "#EXT"));
    assert!(starts_with("x", ""));
    assert!(!starts_with("#", "##"));
    assert!(str_eq("danmaku", "danmaku"));
    assert!(!str_eq("danmaku", "danmak"));
    assert_eq!(join_str("ab", "cd"), "abcd");
}

#[test]
fn after_last_char_takes_the_tail() {
    assert_eq!(after_last_char("a/b/c", '/'), "c");
    assert_eq!(after_last_char("abc", '/'), "abc");
    assert_eq!(after_last_char("abc/", '/'), "");
    assert_eq!(after_last_char("", '/'), "");
}

#[test]
fn url_last_segment_of_addresses() {
    assert_eq!(url_path_last_segment("https://www.twitch.tv/somechannel"), Some("somechannel".to_string()));
    assert_eq!(url_path_last_segment("https://cc.163.com/361433/"), Some("".to_string()));
    assert_eq!(url_path_last_segment("https://cc.163.com/a/b?x=1"), Some("b".to_string()));
    assert_eq!(url_path_last_segment("not a url"), None);
    assert_eq!(url_path_last_segment("mailto:someone@example.com"), None);
}

#[test]
fn regex_capture_groups() {
    assert_eq!(
        regex_capture("#EXT-X-MEDIA-SEQUENCE: *([0-9]+)", "#EXT-X-MEDIA-SEQUENCE: 42", 1),
        Some("42".to_string())
    );
    assert_eq!(regex_capture("a(b)?c", "ac", 1), None);
    assert_eq!(regex_capture("a(b)?c", "ac", 0), Some("ac".to_string()));
    assert_eq!(regex_capture("(", "(", 0), None);
    assert_eq!(regex_capture("x", "abc", 0), None);
}

#[test]
fn fancy_first_match_outcomes() {
    assert_eq!(fancy_first_match("a(?!b)", "abac"), Some(Some("a".to_string())));
    assert_eq!(fancy_first_match("z", "abc"), Some(None));
    assert_eq!(fancy_first_match("(", "abc"), None);
}

#[test]
fn utf8_decoding() {
    assert_eq!(text_from_utf8("héllo".as_bytes()), Some("héllo".to_string()));
    assert_eq!(text_from_utf8(&[0xff, 0x41]), None);
    assert_eq!(text_from_utf8(&[]), Some(String::new()));
}

#[test]
fn decimal_numerals() {
    assert_eq!(decimal_string(0), "0");
    assert_eq!(decimal_string(7), "7");
    assert_eq!(decimal_string(10), "10");
    assert_eq!(decimal_string(12345), "12345");
    assert_eq!(decimal_string(usize::MAX), usize::MAX.to_string());
}
