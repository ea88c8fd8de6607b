use resumeclaw::json::{str_eq, JsonValue};
use resumeclaw::text::{
    concat3, decimal_string, eq_ignore_ascii_case, join_strings, lines_of, parse_unsigned_str,
    split_char, split_once_char, to_ascii_lowercase, trim_end_matches_char, trim_start_matches_char,
    trim_str,
};

#[test]
fn trimming_follows_unicode_whitespace() {
    assert_eq!(trim_str(" \t\u{3000}简历\n "), "简历");
    assert_eq!(trim_str("   "), "");
    assert_eq!(trim_start_matches_char("//a/", '/'), "a/");
    assert_eq!(trim_end_matches_char("http://x//", '/'), "http://x");
}

#[test]
fn splitting_and_joining() {
    assert_eq!(split_once_char("a b c", ' '), Some(("a".to_string(), "b c".to_string())));
    assert_eq!(split_once_char("abc", ' '), None);
    assert_eq!(split_char("a,,b", ','), vec!["a", "", "b"]);
    assert_eq!(split_char("", ','), vec![""]);
    assert_eq!(lines_of("a\r\nb\n\nc"), vec!["a", "b", "", "c"]);
    assert_eq!(lines_of(""), Vec::<String>::new());
    let parts = vec!["x".to_string(), "y".to_string()];
    assert_eq!(join_strings(&parts, ", "), "x, y");
    assert_eq!(join_strings(&Vec::new(), ", "), "");
    assert_eq!(concat3("a", "b", "c"), "abc");
}

#[test]
fn ascii_case() {
    assert_eq!(to_ascii_lowercase("USER@Example.COM"), "user@example.com");
    assert_eq!(to_ascii_lowercase("Ä"), "Ä");
    assert!(eq_ignore_ascii_case("List", "lIST"));
    assert!(!eq_ignore_ascii_case("list", "lists"));
    assert!(str_eq("a", "a") && !str_eq("a", "b"));
}

#[test]
fn decimal_round_trip() {
    for n in [0u64, 7, 10, 587, u64::MAX] {
        assert_eq!(decimal_string(n), n.to_string());
        assert_eq!(parse_unsigned_str(&decimal_string(n), u64::MAX), Some(n));
    }
    assert_eq!(parse_unsigned_str("+25", 65535), Some(25));
    assert_eq!(parse_unsigned_str("65536", 65535), None);
    assert_eq!(parse_unsigned_str("", 65535), None);
    assert_eq!(parse_unsigned_str("1a", 65535), None);
    assert_eq!(parse_unsigned_str("-1", 65535), None);
}

#[test]
fn json_values() {
    let v = JsonValue::Object(vec![
        ("a".to_string(), JsonValue::Str("x".to_string())),
        ("b".to_string(), JsonValue::Null),
    ]);
    assert_eq!(v.get("a").and_then(|x| x.as_str()), Some("x"));
    assert!(v.get("c").is_none());
    assert_eq!(v.object_len(), Some(2));
    assert_eq!(JsonValue::Null.object_len(), None);
    assert_eq!(JsonValue::string("s"), JsonValue::Str("s".to_string()));
    assert_eq!(v.clone(), v);
}
