use birp::json::Json;
use birp::json_text::{to_compact_string, value_to_string};

fn convert(value: &serde_json::Value) -> Json {
    match value {
        serde_json::Value::Null => Json::Null,
        serde_json::Value::Bool(b) => Json::Bool(*b),
        serde_json::Value::Number(n) => Json::Number(n.to_string()),
        serde_json::Value::String(s) => Json::String(s.clone()),
        serde_json::Value::Array(items) => Json::Array(items.iter().map(convert).collect()),
        serde_json::Value::Object(members) => {
            Json::Object(members.iter().map(|(k, v)| (k.clone(), convert(v))).collect())
        }
    }
}

fn json(text: &str) -> Json {
    convert(&serde_json::from_str::<serde_json::Value>(text).unwrap())
}

fn number(literal: &str) -> Json {
    Json::Number(literal.to_string())
}

#[test]
fn unsigned_integers_are_read() {
    assert_eq!(number("0").as_u64(), Some(0));
    assert_eq!(number("42").as_u64(), Some(42));
    assert_eq!(number("18446744073709551615").as_u64(), Some(u64::MAX));
}

#[test]
fn what_is_no_unsigned_integer_is_not_read() {
    assert_eq!(number("18446744073709551616").as_u64(), None);
    assert_eq!(number("-1").as_u64(), None);
    assert_eq!(number("1.0").as_u64(), None);
    assert_eq!(number("01").as_u64(), None);
    assert_eq!(number("").as_u64(), None);
    assert_eq!(number("1e3").as_u64(), None);
    assert_eq!(Json::String("7".to_string()).as_u64(), None);
    assert_eq!(Json::Null.as_u64(), None);
}

#[test]
fn signed_integers_are_read() {
    assert_eq!(number("0").as_i64(), Some(0));
    assert_eq!(number("-23402").as_i64(), Some(-23402));
    assert_eq!(number("9223372036854775807").as_i64(), Some(i64::MAX));
    assert_eq!(number("-9223372036854775808").as_i64(), Some(i64::MIN));
}

#[test]
fn what_is_no_signed_integer_is_not_read() {
    assert_eq!(number("9223372036854775808").as_i64(), None);
    assert_eq!(number("-9223372036854775809").as_i64(), None);
    assert_eq!(number("-0").as_i64(), None);
    assert_eq!(number("-").as_i64(), None);
    assert_eq!(number("-01").as_i64(), None);
    assert_eq!(number("-1.5").as_i64(), None);
}

#[test]
fn integers_agree_with_serde_json() {
    for text in ["0", "7", "-7", "4294967295", "18446744073709551615", "-9223372036854775808", "1.5", "-0.0", "1e300"] {
        let theirs = serde_json::from_str::<serde_json::Value>(text).unwrap();
        let ours = convert(&theirs);
        assert_eq!(ours.as_u64(), theirs.as_u64(), "as_u64 of {text}");
        assert_eq!(ours.as_i64(), theirs.as_i64(), "as_i64 of {text}");
    }
}

#[test]
fn from_u64_writes_the_numeral() {
    assert_eq!(Json::from_u64(0), number("0"));
    assert_eq!(Json::from_u64(4294967296), number("4294967296"));
    assert_eq!(Json::from_u64(u64::MAX), number("18446744073709551615"));
}

#[test]
fn get_finds_the_first_member_of_a_name() {
    let value = Json::Object(vec![
        ("a".to_string(), Json::Bool(true)),
        ("b".to_string(), Json::Null),
        ("a".to_string(), Json::Bool(false)),
    ]);
    assert_eq!(value.get("a"), Some(&Json::Bool(true)));
    assert_eq!(value.get("b"), Some(&Json::Null));
    assert_eq!(value.get("c"), None);
    assert_eq!(Json::Array(vec![]).get("a"), None);
}

#[test]
fn accessors_tell_the_shapes_apart() {
    assert_eq!(Json::Bool(true).as_bool(), Some(true));
    assert_eq!(Json::Null.as_bool(), None);
    assert_eq!(Json::String("x".to_string()).as_str(), Some(&"x".to_string()));
    assert_eq!(number("1").as_str(), None);
    assert!(Json::Array(vec![Json::Null]).as_array().is_some());
    assert!(Json::Object(vec![]).as_array().is_none());
    assert!(Json::Object(vec![]).as_object().is_some());
    assert!(Json::Null.is_null());
    assert!(!Json::Bool(false).is_null());
}

#[test]
fn a_copy_equals_the_value() {
    let value = json(r#"{"a":[1,2.5,{"b":null}],"c":"text","d":true}"#);
    assert_eq!(value.duplicate(), value);
    assert_eq!(value.clone(), value);
}

#[test]
fn compact_text_of_scalars() {
    assert_eq!(to_compact_string(&Json::Null), "null");
    assert_eq!(to_compact_string(&Json::Bool(true)), "true");
    assert_eq!(to_compact_string(&Json::Bool(false)), "false");
    assert_eq!(to_compact_string(&number("-12.5")), "-12.5");
    assert_eq!(to_compact_string(&Json::String("hi".to_string())), "\"hi\"");
}

#[test]
fn compact_text_escapes_strings() {
    let text = "quote\" slash\\ bell\u{7} back\u{8} tab\t line\n feed\u{c} ret\r unit\u{1f} del\u{7f} é";
    let ours = to_compact_string(&Json::String(text.to_string()));
    assert_eq!(
        ours,
        "\"quote\\\" slash\\\\ bell\\u0007 back\\b tab\\t line\\n feed\\f ret\\r unit\\u001f del\u{7f} é\""
    );
    assert_eq!(ours, serde_json::Value::String(text.to_string()).to_string());
}

#[test]
fn compact_text_of_containers() {
    assert_eq!(to_compact_string(&json("[]")), "[]");
    assert_eq!(to_compact_string(&json("{}")), "{}");
    assert_eq!(to_compact_string(&json("[1, [2, 3], {\"a\": null}]")), "[1,[2,3],{\"a\":null}]");
    assert_eq!(to_compact_string(&json("{\"b\": 1, \"a\": [true]}")), "{\"a\":[true],\"b\":1}");
}

#[test]
fn compact_text_agrees_with_serde_json() {
    for text in [
        "null",
        "[1,2.5,-3,1e100,\"a\\nb\"]",
        "{\"x\":{\"y\":[{},[],\"\"]},\"k\\\"ey\":0.1}",
        "\"\\u0000\\u001f\\u0020\"",
        "[[[[]]]]",
    ] {
        let theirs = serde_json::from_str::<serde_json::Value>(text).unwrap();
        assert_eq!(to_compact_string(&convert(&theirs)), theirs.to_string(), "text of {text}");
    }
}

#[test]
fn value_to_string_gives_a_string_as_it_is() {
    assert_eq!(value_to_string(&Json::String("a \"name\"".to_string())), "a \"name\"");
    assert_eq!(value_to_string(&Json::String(String::new())), "");
}

#[test]
fn value_to_string_writes_other_values() {
    assert_eq!(value_to_string(&number("3")), "3");
    assert_eq!(value_to_string(&number("1.5")), "1.5");
    assert_eq!(value_to_string(&Json::Null), "null");
    assert_eq!(value_to_string(&Json::Bool(true)), "true");
    assert_eq!(value_to_string(&json("{\"Named\":{\"x\":1}}")), "{\"Named\":{\"x\":1}}");
    assert_eq!(value_to_string(&json("[\"a\"]")), "[\"a\"]");
}

fn quoted_as_stated(text: &str) -> String {
    let mut out = String::from("\"");
    for c in text.chars() {
        match c {
            '"' => out.push_str("\\\""),
            '\\' => out.push_str("\\\\"),
            '\u{8}' => out.push_str("\\b"),
            '\t' => out.push_str("\\t"),
            '\n' => out.push_str("\\n"),
            '\u{c}' => out.push_str("\\f"),
            '\r' => out.push_str("\\r"),
            c if (c as u32) < 0x20 => out.push_str(&format!("\\u00{:02x}", c as u32)),
            c => out.push(c),
        }
    }
    out.push('"');
    out
}

#[test]
fn every_character_is_quoted_as_stated() {
    let mut codes: Vec<u32> = (0..0x3100).collect();
    codes.extend([0xd7ff, 0xe000, 0xfffd, 0xffff, 0x10000, 0x1f600, 0x10ffff]);
    for code in codes {
        if let Some(c) = char::from_u32(code) {
            let text = format!("a{c}b{c}");
            assert_eq!(
                to_compact_string(&Json::String(text.clone())),
                quoted_as_stated(&text),
                "character {code:#x}"
            );
        }
    }
}
