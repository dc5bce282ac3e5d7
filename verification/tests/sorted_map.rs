//! Maps kept in key order.

use okibi::sorted_map::{text_less, TextMap};

#[test]
fn keys_come_back_in_order_whatever_order_they_went_in() {
    let mut map = TextMap::new();
    for (k, v) in [("c", 3), ("a", 1), ("b", 2), ("ab", 4)] {
        map.insert(k.to_string(), v);
    }
    let keys: Vec<&str> = (0..map.len()).map(|i| map.key_at(i).as_str()).collect();
    assert_eq!(keys, ["a", "ab", "b", "c"]);
    let values: Vec<i32> = (0..map.len()).map(|i| *map.value_at(i)).collect();
    assert_eq!(values, [1, 4, 2, 3]);
}

#[test]
fn a_second_insert_replaces_the_first() {
    let mut map = TextMap::new();
    map.insert("k".to_string(), 1);
    map.insert("k".to_string(), 2);
    assert_eq!(map.len(), 1);
    assert_eq!(map.get(&"k".to_string()), Some(&2));
    assert_eq!(map.get(&"other".to_string()), None);
}

#[test]
fn text_sorts_as_str_does() {
    assert!(text_less("a", "b"));
    assert!(text_less("a", "ab"));
    assert!(!text_less("ab", "a"));
    assert!(!text_less("same", "same"));
    assert!(text_less("", "a"));
    assert!(text_less("Z", "a"));
    assert!(text_less("é", "ê"));
}
