use codex_gateway_core::json::{json_object, parse_json, print_json, Json, JsonMap};
use codex_gateway_core::text::{
    decimal_text, equal_ignoring_case, is_before, is_white_char, joined, lines, same_text, split,
    split_at_first, starts_with, strip_prefix, to_lowercase, trim, trim_end_of, trim_of,
};

fn parse(s: &str) -> Json {
    match parse_json(s.as_bytes()) {
        Ok(value) => value,
        Err(error) => panic!("{}", error),
    }
}

fn printed(value: &Json) -> String {
    String::from_utf8(print_json(value)).unwrap()
}

#[test]
fn json_is_read_and_written() {
    let text = "{\"a\":[null,true,-1,18446744073709551615,1.5,\"x\\n\"],\"b\":{}}";
    assert_eq!(printed(&parse(text)), text);
    assert_eq!(printed(&parse("{\"b\":1,\"a\":2,\"b\":3}")), "{\"a\":2,\"b\":3}");
    assert_eq!(
        parse_json(b"{").err().as_deref(),
        Some("EOF while parsing an object at line 1 column 1")
    );
}

#[test]
fn json_values_are_read_by_kind() {
    let value = parse("{\"t\":\"x\",\"b\":false,\"n\":-5,\"big\":18446744073709551615,\"f\":0.5,\"l\":[1],\"z\":null}");
    assert_eq!(value.get_text("t").unwrap(), "x");
    assert_eq!(value.get("b").unwrap().as_bool(), Some(false));
    assert_eq!(value.get("n").unwrap().as_i64(), Some(-5));
    assert_eq!(value.get("big").unwrap().as_i64(), None);
    assert_eq!(value.get("f").unwrap().as_i64(), None);
    assert_eq!(value.get("l").unwrap().as_array().unwrap().len(), 1);
    assert!(value.get("z").unwrap().is_null());
    assert!(value.get("none").is_none());
    assert!(value.get("t").unwrap().get("x").is_none());
}

#[test]
fn members_are_kept_in_order_each_once() {
    let mut map = JsonMap::new();
    map.insert("b".to_string(), Json::Unsigned(1));
    map.insert("a".to_string(), Json::Unsigned(2));
    map.insert("b".to_string(), Json::Unsigned(3));
    assert_eq!(map.len(), 2);
    assert_eq!(map.get("a").unwrap().as_i64(), Some(2));
    assert_eq!(map.get("b").unwrap().as_i64(), Some(3));
    assert!(map.get("c").is_none());
    assert_eq!(printed(&Json::Object(map)), "{\"a\":2,\"b\":3}");
    let copy = json_object(vec![("k", Json::array(vec![Json::Bool(true)]))]).clone();
    assert_eq!(printed(&copy), "{\"k\":[true]}");
}

#[test]
fn text_is_trimmed() {
    assert_eq!(trim(" \t\u{a0}x y\r\n\u{3000}"), "x y");
    assert_eq!(trim("  "), "");
    assert_eq!(trim_end_of("a//", '/'), "a");
    assert_eq!(trim_of("\"\"a\"b\"", '"'), "a\"b");
    assert!(is_white_char('\u{2028}'));
    assert!(!is_white_char('\u{200b}'));
}

#[test]
fn every_white_character_is_known() {
    for code in 0u32..0x3100 {
        if let Some(c) = char::from_u32(code) {
            assert_eq!(is_white_char(c), c.is_whitespace());
        }
    }
}

#[test]
fn text_is_taken_apart() {
    assert_eq!(split("a;b;;c", ';'), vec!["a", "b", "", "c"]);
    assert_eq!(split("", ';'), vec![""]);
    assert_eq!(
        split_at_first("a:b:c", ':'),
        Some(("a".to_string(), "b:c".to_string()))
    );
    assert_eq!(split_at_first("abc", ':'), None);
    assert_eq!(lines("a\r\nb\n\nc"), vec!["a", "b", "", "c"]);
    assert_eq!(lines("a\n"), vec!["a"]);
    assert_eq!(strip_prefix("abc", "ab").as_deref(), Some("c"));
    assert_eq!(strip_prefix("abc", "b"), None);
    assert!(starts_with("\u{e4}b", "\u{e4}"));
}

#[test]
fn text_is_compared() {
    assert_eq!(to_lowercase("AbC\u{c4}"), "abc\u{c4}");
    assert!(equal_ignoring_case("Content-Type", "content-type"));
    assert!(!equal_ignoring_case("\u{c4}", "\u{e4}"));
    assert!(is_before("a", "b"));
    assert!(is_before("a", "aa"));
    assert!(!is_before("b", "a"));
    assert!(!is_before("a", "a"));
    assert!(same_text("a", "a"));
    assert_eq!(joined("a", "b"), "ab");
    assert_eq!(decimal_text(0), "0");
    assert_eq!(decimal_text(u64::MAX), "18446744073709551615");
}
