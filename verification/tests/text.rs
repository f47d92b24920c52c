use cln_tracker::ordered::TextMap;
use cln_tracker::text::{
    comes_before, contains, decimal, ends_with, parse_number, split, starts_with,
};

#[test]
fn numbers_are_written_and_read() {
    assert_eq!(decimal(0), "0");
    assert_eq!(decimal(10), "10");
    assert_eq!(decimal(u64::MAX), "18446744073709551615");
    assert_eq!(parse_number("18446744073709551615", u64::MAX), Some(u64::MAX));
    assert_eq!(parse_number("18446744073709551616", u64::MAX), None);
    assert_eq!(parse_number("+7", 9), Some(7));
    assert_eq!(parse_number("007", 9), Some(7));
    assert_eq!(parse_number("10", 9), None);
    assert_eq!(parse_number("", 9), None);
    assert_eq!(parse_number("+", 9), None);
    assert_eq!(parse_number("-1", 9), None);
    assert_eq!(parse_number("1 ", 9), None);
}

#[test]
fn texts_are_searched() {
    assert!(starts_with("plugin/tracker", "plugin"));
    assert!(!starts_with("plug", "plugin"));
    assert!(ends_with("5msat", "msat"));
    assert!(!ends_with("sat", "msat"));
    assert!(contains("a bwatch match", "bwatch"));
    assert!(contains("a", ""));
    assert!(!contains("bwatc", "bwatch"));
    assert_eq!(split("a//b", '/'), vec!["a", "", "b"]);
    assert_eq!(split("", '/'), vec![""]);
}

#[test]
fn texts_are_ordered_as_strings_are() {
    for (a, b) in [("a", "b"), ("a", "aa"), ("", "a"), ("Z", "a"), ("a/", "aa"), ("é", "ü")] {
        assert_eq!(comes_before(a, b), a < b);
        assert_eq!(comes_before(b, a), b < a);
        assert!(!comes_before(a, a));
    }
}

#[test]
fn maps_stand_in_the_order_of_their_keys() {
    let mut map: TextMap<String> = TextMap::new();
    assert!(map.is_empty());
    for key in ["b", "c", "a", "b"] {
        map.insert(key.to_owned(), format!("{}{}", key, map.len()));
    }
    assert_eq!(map.len(), 3);
    let keys: Vec<&String> = (0..map.len()).map(|i| map.at(i).0).collect();
    assert_eq!(keys, vec!["a", "b", "c"]);
    assert_eq!(map.get("b"), Some(&"b3".to_owned()));
    assert!(map.contains("c"));
    assert_eq!(map.remove("c"), Some("c1".to_owned()));
    assert_eq!(map.remove("c"), None);
    assert_eq!(map.clone(), map);
}
