use nh_validation::sorting::sort_order;
use nh_validation::text::{contains_text, split_text};
use nh_validation::text_map::TextMap;

fn strings(items: &[&str]) -> Vec<String> {
    items.iter().map(|s| s.to_string()).collect()
}

#[test]
fn contains_text_looks_through_the_list() {
    let list = strings(&["x", "y"]);
    assert!(contains_text(&list, "y"));
    assert!(!contains_text(&list, "Y"));
    assert!(!contains_text(&Vec::new(), "y"));
    assert!(!contains_text(&list, "xy"));
    assert!(!contains_text(&list, ""));
}

#[test]
fn split_text_gives_one_part_more_than_separators() {
    assert_eq!(split_text("/Props/details/*/path", '/'), vec!["", "Props", "details", "*", "path"]);
    assert_eq!(split_text("", '/'), vec![""]);
    assert_eq!(split_text("abc", '/'), vec!["abc"]);
    assert_eq!(split_text("a/", '/'), vec!["a", ""]);
    assert_eq!(split_text("//", '/'), vec!["", "", ""]);
    assert_eq!(split_text("\u{e9}/\u{1f600}x", '/'), vec!["\u{e9}", "\u{1f600}x"]);
}

#[test]
fn sort_order_is_stable() {
    let keys = strings(&["b", "a", "c", "b", "a", "a"]);
    assert_eq!(sort_order(&keys), vec![1, 4, 5, 0, 3, 2]);
    assert_eq!(sort_order(&Vec::new()), Vec::<usize>::new());
    assert_eq!(sort_order(&strings(&["x"])), vec![0]);
    assert_eq!(sort_order(&strings(&["c", "b", "a"])), vec![2, 1, 0]);
}

#[test]
fn sort_order_goes_by_code_point() {
    // a proper prefix first, capitals before small letters, then by code point
    let keys = strings(&["abc", "ab", "a", "", "Z", "\u{e9}", "z", "\u{10000}", "\u{ffff}"]);
    assert_eq!(sort_order(&keys), vec![3, 4, 2, 1, 0, 6, 5, 8, 7]);
}

#[test]
fn text_map_keeps_first_place_and_last_value() {
    let mut map: TextMap<u32> = TextMap::new();
    assert_eq!(map.len(), 0);
    map.insert("a".to_string(), 1);
    map.insert("b".to_string(), 2);
    map.insert("a".to_string(), 3);
    assert_eq!(map.len(), 2);
    assert_eq!(map.keys, vec!["a", "b"]);
    assert_eq!(map.values, vec![3, 2]);
    assert_eq!(map.get("a"), Some(&3));
    assert_eq!(map.get("c"), None);
    assert_eq!(map.position("b"), Some(1));
    assert_eq!(map.position("c"), None);
}
