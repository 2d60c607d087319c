use riichi_tools::riichi::riichi_error::RiichiError;
use riichi_tools::riichi::table::Table;
use serde_json::Value;

#[test]
fn set_my_hand() {
    let mut params = serde_json::Map::new();
    params.insert(String::from("my_hand"), Value::String(String::from("123m123p12345s22z")));
    params.insert(String::from("my_riichi"), Value::Bool(true));
    let table = Table::from_map(&params).unwrap();
    assert_eq!(table.my_hand().to_string(), "123m123p12345s22z");
    assert!(table.my_riichi());
}

#[test]
fn table_without_fields() {
    let table = Table::from_map(&serde_json::Map::new()).unwrap();
    assert_eq!(table.my_hand().get_tiles().len(), 0);
    assert!(!table.my_riichi());
}

#[test]
fn table_passes_over_fields_of_another_type() {
    let mut params = serde_json::Map::new();
    params.insert(String::from("my_hand"), Value::Bool(true));
    params.insert(String::from("my_riichi"), Value::String(String::from("123m123p12345s22z")));
    params.insert(String::from("other"), Value::String(String::from("0m")));
    let table = Table::from_map(&params).unwrap();
    assert_eq!(table.my_hand().get_tiles().len(), 0);
    assert!(!table.my_riichi());
}

#[test]
fn table_hands_on_the_error_of_the_hand() {
    let mut params = serde_json::Map::new();
    params.insert(String::from("my_hand"), Value::String(String::from("123m")));
    assert_eq!(Table::from_map(&params).err(), Some(RiichiError::InvalidHand));
    params.insert(String::from("my_hand"), Value::String(String::from("123q")));
    assert_eq!(Table::from_map(&params).err(), Some(RiichiError::UnknownSuit));
    params.insert(String::from("my_riichi"), Value::Bool(false));
    params.insert(String::from("my_hand"), Value::String(String::from("22z12345s123p123m")));
    let table = Table::from_map(&params).unwrap();
    assert_eq!(table.my_hand().to_string(), "123m123p12345s22z");
    assert!(!table.my_riichi());
}

#[test]
fn table_from_fields() {
    let table = Table::from_fields(Some("237m13478s45699p"), Some(true)).unwrap();
    assert_eq!(table.my_hand().to_string(), "237m45699p13478s");
    assert!(table.my_hand().is_closed());
    assert!(table.my_riichi());
    let table = Table::from_fields(None, None).unwrap();
    assert_eq!(table.my_hand().to_string(), "x");
    assert!(!table.my_riichi());
    assert_eq!(Table::from_fields(Some("9z"), None).err(), Some(RiichiError::RankOutOfRange));
    assert_eq!(Table::from_fields(Some(""), Some(true)).err(), Some(RiichiError::InvalidHand));
}
