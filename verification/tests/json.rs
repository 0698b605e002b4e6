use chipa_license_validator::json::{find_field, parse_object};

fn pairs(s: &str) -> Option<Vec<(String, String)>> {
    parse_object(s)
}

#[test]
fn test_parse_basic_object() {
    let p = pairs("{\"success\":\"ok\",\"token\":\"abc\"}").unwrap();
    assert_eq!(
        p,
        vec![
            ("success".to_string(), "ok".to_string()),
            ("token".to_string(), "abc".to_string())
        ]
    );
}

#[test]
fn test_parse_empty_object() {
    assert_eq!(pairs("{}").unwrap(), vec![]);
    assert_eq!(pairs("  { }  ").unwrap(), vec![]);
}

#[test]
fn test_parse_whitespace() {
    let p = pairs(" {\n  \"a\" : \"1\" ,\r\n\t\"b\":\"2\" } ").unwrap();
    assert_eq!(
        p,
        vec![("a".to_string(), "1".to_string()), ("b".to_string(), "2".to_string())]
    );
}

#[test]
fn test_parse_escapes() {
    let p = pairs("{\"m\":\"a\\n\\t\\\"b\\\\c\\/d\"}").unwrap();
    assert_eq!(p[0].1, "a\n\t\"b\\c/d");
}

#[test]
fn test_parse_unicode_escapes() {
    let p = pairs("{\"m\":\"\\u0041\\u00e9\"}").unwrap();
    assert_eq!(p[0].1, "A\u{e9}");
    // an astral character written as a surrogate pair
    let p = pairs("{\"m\":\"\\ud83d\\ude00\"}").unwrap();
    assert_eq!(p[0].1, "\u{1F600}");
    // a lone surrogate denotes nothing
    assert!(pairs("{\"m\":\"\\ud83d\"}").is_none());
    assert!(pairs("{\"m\":\"\\ude00\"}").is_none());
}

#[test]
fn test_parse_skips_non_string_members() {
    // fields of other value types do not break the parse; they are
    // skipped and only the string fields are kept
    let p = pairs("{\"success\":\"ok\",\"token\":\"t\",\"ttl\":3}").unwrap();
    assert_eq!(
        p,
        vec![
            ("success".to_string(), "ok".to_string()),
            ("token".to_string(), "t".to_string())
        ]
    );
    let p = pairs("{\"a\":1,\"b\":\"x\"}").unwrap();
    assert_eq!(p, vec![("b".to_string(), "x".to_string())]);
    let p = pairs("{\"a\":[1,{\"c\":\"2, }\"}],\"b\":\"x\"}").unwrap();
    assert_eq!(p, vec![("b".to_string(), "x".to_string())]);
    assert_eq!(pairs("{\"a\":true}").unwrap(), vec![]);
    assert_eq!(pairs("{\"a\":null}").unwrap(), vec![]);
    assert_eq!(pairs("{\"a\":{\"b\":\"c\"}}").unwrap(), vec![]);
    // but the skipped value must be present and balanced
    assert!(pairs("{\"a\":}").is_none());
    assert!(pairs("{\"a\":,\"b\":\"x\"}").is_none());
    assert!(pairs("{\"a\":[}").is_none());
    assert!(pairs("{\"a\":]}").is_none());
}

#[test]
fn test_parse_rejects_other_shapes() {
    assert!(pairs("").is_none());
    assert!(pairs("   ").is_none());
    assert!(pairs("\"just a string\"").is_none());
    assert!(pairs("{\"a\":\"b\"").is_none());
    assert!(pairs("{\"a\":\"b\"} trailing").is_none());
    assert!(pairs("{\"a\":\"b\",}").is_none());
    assert!(pairs("{\"a\" \"b\"}").is_none());
    // a raw control character inside a string
    assert!(pairs("{\"a\":\"x\u{1}y\"}").is_none());
}

#[test]
fn test_parse_non_ascii_text() {
    let p = pairs("{\"gr\u{fc}\u{df}e\":\"sch\u{f6}n\"}").unwrap();
    assert_eq!(p[0].0, "gr\u{fc}\u{df}e");
    assert_eq!(p[0].1, "sch\u{f6}n");
}

#[test]
fn test_find_field() {
    let p = pairs("{\"a\":\"1\",\"b\":\"2\",\"a\":\"3\"}").unwrap();
    assert_eq!(find_field(&p, &"a".to_string()).unwrap(), "1");
    assert_eq!(find_field(&p, &"b".to_string()).unwrap(), "2");
    assert!(find_field(&p, &"c".to_string()).is_none());
}
