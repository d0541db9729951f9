use apollo_federation::collections::NameMap;
use apollo_federation::collections::NameSet;
use apollo_federation::text::decimal_string;
use apollo_federation::text::str_lt;

#[test]
fn names_keep_their_order_and_are_there_once() {
    let mut names = NameSet::new();
    assert!(names.is_empty());
    assert!(names.insert("b".to_owned()));
    assert!(names.insert("a".to_owned()));
    assert!(!names.insert("b".to_owned()));
    assert_eq!(names.len(), 2);
    assert_eq!(names.at(0), "b");
    assert_eq!(names.at(1), "a");
    assert!(names.contains("a") && !names.contains("c"));
    let copy = names.clone();
    names.insert("c".to_owned());
    assert_eq!(copy.len(), 2);
}

#[test]
fn a_value_replaces_the_one_of_its_name() {
    let mut map: NameMap<u32> = NameMap::new();
    map.insert("x".to_owned(), 1);
    map.insert("y".to_owned(), 2);
    map.insert("x".to_owned(), 3);
    map.insert_if_absent("y".to_owned(), 4);
    map.insert_if_absent("z".to_owned(), 5);
    *map.get_or_insert("w".to_owned(), 6) += 1;
    if let Some(value) = map.get_mut("z") {
        *value += 10;
    }
    let found: Vec<(String, u32)> = (0..map.len())
        .map(|i| (map.key_at(i).clone(), *map.value_at(i)))
        .collect();
    assert_eq!(
        found,
        vec![
            ("x".to_owned(), 3),
            ("y".to_owned(), 2),
            ("z".to_owned(), 15),
            ("w".to_owned(), 7),
        ]
    );
    assert_eq!(map.get("y"), Some(&2));
    assert_eq!(map.get("q"), None);
    assert!(map.contains_key("w") && !map.contains_key("q"));
}

#[test]
fn texts_are_ordered_and_numbers_written() {
    assert!(str_lt("a", "b") && str_lt("a", "ab") && !str_lt("b", "a") && !str_lt("a", "a"));
    assert_eq!(decimal_string(0), "0");
    assert_eq!(decimal_string(1049), "1049");
}
