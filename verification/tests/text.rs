use jmcomic_downloader::text::{
    chars_of, decimal_text, join_text, same_text, split_text, string_of, text_less,
};

#[test]
fn decimal_rendering() {
    assert_eq!(decimal_text(0), "0");
    assert_eq!(decimal_text(42), "42");
    assert_eq!(decimal_text(-7), "-7");
    assert_eq!(decimal_text(1000), "1000");
    assert_eq!(decimal_text(i64::MAX), i64::MAX.to_string());
    assert_eq!(decimal_text(i64::MIN), i64::MIN.to_string());
}

#[test]
fn split_like_str_split() {
    for s in ["a/b", "", "a//b/", "/", "{x}/{y}", "无/分隔"] {
        let expected: Vec<String> = s.split('/').map(|p| p.to_string()).collect();
        assert_eq!(split_text(s, '/'), expected);
    }
}

#[test]
fn chars_round_trip() {
    let s = "漫画 comic";
    let cs = chars_of(s);
    assert_eq!(cs.len(), 8);
    assert_eq!(string_of(&cs), s);
}

#[test]
fn text_comparisons() {
    assert!(same_text("abc", "abc"));
    assert!(!same_text("abc", "abd"));
    assert!(!same_text("ab", "abc"));
    assert!(text_less("a", "b"));
    assert!(text_less("ab", "abc"));
    assert!(!text_less("abc", "ab"));
    assert!(!text_less("x", "x"));
    assert!(text_less("Z", "a"));
    assert!(text_less("b", "中"));
    assert_eq!(join_text("ab", "中"), "ab中");
}
