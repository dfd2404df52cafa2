use xml_doc::parser::{initial_charset, must_switch};
use xml_doc::text::{find_char, join_name, split_name, str_eq, strip_prefix};
use xml_doc::{read_label, NameMap, Signature};

#[test]
fn strings_are_compared_by_their_characters() {
    assert!(str_eq("", ""));
    assert!(str_eq("abc", "abc"));
    assert!(str_eq("é€𝄞", "é€𝄞"));
    assert!(!str_eq("abc", "abd"));
    assert!(!str_eq("abc", "ab"));
    assert!(!str_eq("", "a"));
    assert!(!str_eq("é", "e"));
}

#[test]
fn characters_are_found_by_position() {
    assert_eq!(find_char("abc", 'a'), Some(0));
    assert_eq!(find_char("abc", 'c'), Some(2));
    assert_eq!(find_char("abcabc", 'b'), Some(1));
    assert_eq!(find_char("abc", 'd'), None);
    assert_eq!(find_char("", 'a'), None);
    // Positions count characters, not bytes.
    assert_eq!(find_char("é€:x", ':'), Some(2));
}

#[test]
fn names_are_split_and_joined() {
    assert_eq!(split_name("é€:x𝄞"), ("é€", "x𝄞"));
    assert_eq!(split_name("::"), ("", ":"));
    assert_eq!(join_name("p", "n"), "p:n");
    assert_eq!(join_name("", "n"), ":n");
    assert_eq!(join_name("é", ""), "é:");
}

#[test]
fn prefixes_are_stripped() {
    assert_eq!(strip_prefix("xmlns:p", "xmlns:"), Some("p"));
    assert_eq!(strip_prefix("xmlns:", "xmlns:"), Some(""));
    assert_eq!(strip_prefix("xmlns", "xmlns:"), None);
    assert_eq!(strip_prefix("xmlnsp", "xmlns:"), None);
    assert_eq!(strip_prefix("Xmlns:p", "xmlns:"), None);
    assert_eq!(strip_prefix("", "xmlns:"), None);
    assert_eq!(strip_prefix("anything", ""), Some("anything"));
    assert_eq!(strip_prefix("é€x", "é€"), Some("x"));
}

#[test]
fn decoder_switches_when_encodings_differ() {
    let utf8 = read_label(b"utf-8").unwrap();
    let le = read_label(b"utf-16le").unwrap();
    let be = read_label(b"utf-16be").unwrap();
    let gbk = read_label(b"gbk").unwrap();
    assert!(!must_switch(None, None));
    assert!(!must_switch(Some(&le), Some(&le)));
    assert!(!must_switch(Some(&gbk), Some(&gbk)));
    assert!(must_switch(Some(&gbk), None));
    assert!(must_switch(None, Some(&gbk)));
    assert!(must_switch(Some(&gbk), Some(&le)));
    assert!(must_switch(Some(&utf8), None));
    // The one pair that differs and counts as the same.
    assert!(!must_switch(Some(&le), Some(&be)));
    assert!(must_switch(Some(&be), Some(&le)));
}

#[test]
fn signatures_name_the_first_decoder() {
    assert!(initial_charset(Signature::PlainText).is_none());
    assert!(initial_charset(Signature::Utf8Mark).is_none());
    assert_eq!(initial_charset(Signature::Utf16BeMark).unwrap().name(), "UTF-16BE");
    assert_eq!(initial_charset(Signature::Utf16BeText).unwrap().name(), "UTF-16BE");
    assert_eq!(initial_charset(Signature::Utf16LeMark).unwrap().name(), "UTF-16LE");
    assert_eq!(initial_charset(Signature::Utf16LeText).unwrap().name(), "UTF-16LE");
}

#[test]
fn name_map_keeps_order_and_keys_apart() {
    let mut map = NameMap::new();
    assert!(map.is_empty());
    assert_eq!(map.len(), 0);
    assert_eq!(map.get("a"), None);
    assert_eq!(map.remove("a"), None);
    assert_eq!(map.insert("b".to_string(), "1".to_string()), None);
    assert_eq!(map.insert("a".to_string(), "2".to_string()), None);
    assert_eq!(map.insert("c".to_string(), "3".to_string()), None);
    assert_eq!(map.insert("a".to_string(), "4".to_string()), Some("2".to_string()));
    assert_eq!(map.len(), 3);
    assert_eq!(
        (0..3).map(|i| (map.key_at(i), map.value_at(i))).collect::<Vec<_>>(),
        vec![("b", "1"), ("a", "4"), ("c", "3")]
    );
    assert_eq!(map.position("c"), Some(2));
    assert_eq!(map.position("d"), None);
    assert_eq!(map.remove("b"), Some("1".to_string()));
    assert_eq!(map.get("a"), Some("4"));
    assert_eq!(map.position("a"), Some(0));
    assert!(map.contains_key("c"));
    assert!(!map.contains_key("b"));
    assert!(!map.contains_key(""));
    assert_eq!(map.insert(String::new(), "e".to_string()), None);
    assert_eq!(map.get(""), Some("e"));
}
