use birp::text::{
    chars_eq, chars_lt, chars_of, decimal_string, parse_decimal, slice_of, string_of, strip_prefix,
    text_eq, text_lt,
};
use birp::text_map::TextMap;

fn chars(s: &str) -> Vec<char> {
    s.chars().collect()
}

#[test]
fn characters_round_trip() {
    assert_eq!(chars_of("héllo"), vec!['h', 'é', 'l', 'l', 'o']);
    assert_eq!(string_of(&chars("héllo")), "héllo");
    assert_eq!(chars_of(""), Vec::<char>::new());
}

#[test]
fn equality_of_texts() {
    assert!(text_eq("abc", "abc"));
    assert!(!text_eq("abc", "abd"));
    assert!(!text_eq("abc", "ab"));
    assert!(text_eq("", ""));
    assert!(chars_eq(&chars("x"), &chars("x")));
    assert!(!chars_eq(&chars("x"), &chars("")));
}

#[test]
fn lexicographic_order_is_that_of_str() {
    let words = ["", "a", "ab", "b", "B", "a::b", "é", "z", "zz", "\u{10000}", "\u{ffff}"];
    for a in words {
        for b in words {
            assert_eq!(text_lt(a, b), a < b, "{a:?} < {b:?}");
            assert_eq!(chars_lt(&chars(a), &chars(b)), a < b);
        }
    }
}

#[test]
fn decimal_numerals() {
    assert_eq!(decimal_string(0), "0");
    assert_eq!(decimal_string(9), "9");
    assert_eq!(decimal_string(10), "10");
    assert_eq!(decimal_string(1234567890), "1234567890");
    assert_eq!(decimal_string(u64::MAX), "18446744073709551615");
}

#[test]
fn decimal_numerals_are_read_back() {
    assert_eq!(parse_decimal(&chars("0")), Some(0));
    assert_eq!(parse_decimal(&chars("907")), Some(907));
    assert_eq!(parse_decimal(&chars("18446744073709551615")), Some(u64::MAX));
    assert_eq!(parse_decimal(&chars("18446744073709551616")), None);
    assert_eq!(parse_decimal(&chars("99999999999999999999999")), None);
    assert_eq!(parse_decimal(&chars("007")), None);
    assert_eq!(parse_decimal(&chars("")), None);
    assert_eq!(parse_decimal(&chars("+1")), None);
    assert_eq!(parse_decimal(&chars("1a")), None);
    assert_eq!(parse_decimal(&chars("١")), None);
}

#[test]
fn prefixes_and_slices() {
    assert_eq!(strip_prefix(&chars("#/$defs/glam::Vec3"), &chars("#/$defs/")), Some(chars("glam::Vec3")));
    assert_eq!(strip_prefix(&chars("#/$defs/"), &chars("#/$defs/")), Some(chars("")));
    assert_eq!(strip_prefix(&chars("#/defs/x"), &chars("#/$defs/")), None);
    assert_eq!(strip_prefix(&chars("#"), &chars("#/$defs/")), None);
    assert_eq!(slice_of(&chars("abcdef"), 2, 4), chars("cd"));
    assert_eq!(slice_of(&chars("abcdef"), 3, 3), chars(""));
}

#[test]
fn a_map_hands_out_its_entries_in_the_order_of_their_keys() {
    let mut map: TextMap<u32> = TextMap::new();
    assert!(map.is_empty());
    map.insert("b".to_string(), 2);
    map.insert("a".to_string(), 1);
    map.insert("c".to_string(), 3);
    map.insert("B".to_string(), 0);
    assert_eq!(map.len(), 4);
    let keys: Vec<&str> = (0..map.len()).map(|i| map.key_at(i).as_str()).collect();
    assert_eq!(keys, vec!["B", "a", "b", "c"]);
    let values: Vec<u32> = (0..map.len()).map(|i| *map.value_at(i)).collect();
    assert_eq!(values, vec![0, 1, 2, 3]);
}

#[test]
fn insert_replaces_and_insert_if_absent_keeps() {
    let mut map: TextMap<u32> = TextMap::new();
    map.insert("k".to_string(), 1);
    map.insert("k".to_string(), 2);
    assert_eq!(map.len(), 1);
    assert_eq!(map.get("k"), Some(&2));
    map.insert_if_absent("k".to_string(), 3);
    assert_eq!(map.get("k"), Some(&2));
    map.insert_if_absent("j".to_string(), 4);
    assert_eq!(map.get("j"), Some(&4));
    assert_eq!(map.len(), 2);
    assert!(map.contains_key("j"));
    assert!(!map.contains_key("i"));
    assert_eq!(map.get("i"), None);
    assert_eq!(map.position("j"), Some(0));
    assert_eq!(map.position("k"), Some(1));
    assert_eq!(map.position("l"), None);
}
