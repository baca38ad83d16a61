use question_harvest::text::{
    char_is_white, parse_i64, parse_unsigned, split_field, strip_trailing_char, trim, two_words,
};

#[test]
fn whitespace_matches_std() {
    for c in ['\t', '\n', ' ', '\u{85}', '\u{a0}', '\u{2003}', '\u{3000}', 'a', '0', '-', '\u{200b}'] {
        assert_eq!(char_is_white(c), c.is_whitespace(), "{:?}", c);
    }
}

#[test]
fn trim_removes_outer_whitespace() {
    assert_eq!(trim("  How to sort?\n"), "How to sort?");
    assert_eq!(trim("\u{a0}x y\t"), "x y");
    assert_eq!(trim("   "), "");
    assert_eq!(trim(""), "");
    assert_eq!(trim("ünïcode"), "ünïcode");
}

#[test]
fn trailing_marks_are_stripped() {
    assert_eq!(strip_trailing_char("2026-01-23 13:32:20Z", 'Z'), "2026-01-23 13:32:20");
    assert_eq!(strip_trailing_char("ZZaZZ", 'Z'), "ZZa");
    assert_eq!(strip_trailing_char("ZZ", 'Z'), "");
}

#[test]
fn fields_follow_split() {
    let link = "/questions/79870378/how-to-sort";
    for k in 0..6 {
        assert_eq!(split_field(link, '/', k), link.split('/').nth(k).map(String::from));
    }
    assert_eq!(split_field("", '/', 0), Some(String::new()));
    assert_eq!(split_field("", '/', 1), None);
    assert_eq!(split_field("a//b/", '/', 1), Some(String::new()));
    assert_eq!(split_field("a//b/", '/', 3), Some(String::new()));
    assert_eq!(split_field("a//b/", '/', 4), None);
}

#[test]
fn two_words_follow_split_whitespace() {
    assert_eq!(
        two_words("2026-01-23 13:32:20"),
        Some(("2026-01-23".to_string(), "13:32:20".to_string()))
    );
    assert_eq!(two_words("  a \t b  "), Some(("a".to_string(), "b".to_string())));
    assert_eq!(two_words("one"), None);
    assert_eq!(two_words("a b c"), None);
    assert_eq!(two_words(""), None);
}

#[test]
fn unsigned_numbers_follow_parse() {
    assert_eq!(parse_unsigned("2026", 0xffff), Some(2026));
    assert_eq!(parse_unsigned("+12", 0xff), Some(12));
    assert_eq!(parse_unsigned("007", 0xff), Some(7));
    assert_eq!(parse_unsigned("256", 0xff), None);
    assert_eq!(parse_unsigned("255", 0xff), Some(255));
    assert_eq!(parse_unsigned("", 0xff), None);
    assert_eq!(parse_unsigned("+", 0xff), None);
    assert_eq!(parse_unsigned("-1", 0xff), None);
    assert_eq!(parse_unsigned("1a", 0xff), None);
    assert_eq!(parse_unsigned("99999999999999999999", u64::MAX), None);
}

#[test]
fn signed_numbers_follow_parse() {
    assert_eq!(parse_i64("79870378"), Some(79870378));
    assert_eq!(parse_i64("-42"), Some(-42));
    assert_eq!(parse_i64("+42"), Some(42));
    assert_eq!(parse_i64("-9223372036854775808"), Some(i64::MIN));
    assert_eq!(parse_i64("9223372036854775807"), Some(i64::MAX));
    assert_eq!(parse_i64("9223372036854775808"), None);
    assert_eq!(parse_i64("-9223372036854775809"), None);
    assert_eq!(parse_i64("-"), None);
    assert_eq!(parse_i64("-+1"), None);
    assert_eq!(parse_i64("how-to-sort"), None);
}
