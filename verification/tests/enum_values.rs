use apollo_federation::merge::enum_value::EnumValue;

fn value(raw: &str) -> String {
    match EnumValue::new(raw) {
        Ok(value) => value.as_str().to_owned(),
        Err(error) => panic!("{error}"),
    }
}

#[test]
fn basic() {
    assert_eq!(value("subgraph"), "SUBGRAPH");
}

#[test]
fn with_underscores() {
    assert_eq!(value("a_subgraph"), "A_SUBGRAPH");
}

#[test]
fn with_hyphens() {
    assert_eq!(value("a-subgraph"), "A_SUBGRAPH");
}

#[test]
fn special_symbols() {
    assert_eq!(value("a$ubgraph"), "A_UBGRAPH");
}

#[test]
fn digit_first_char() {
    assert_eq!(value("1subgraph"), "_1SUBGRAPH");
}

#[test]
fn digit_last_char() {
    assert_eq!(value("subgraph_1"), "SUBGRAPH_1");
}

#[test]
fn a_name_without_letters_is_refused_or_padded() {
    assert!(EnumValue::new("").is_err());
    assert_eq!(value("7"), "_7");
    assert_eq!(value("my graph"), "MY_GRAPH");
}

#[test]
fn any_numeric_character_at_the_start_gets_an_underscore() {
    assert_eq!(value("\u{b2}a"), "__A");
    assert_eq!(value("\u{e9}a"), "_A");
}
