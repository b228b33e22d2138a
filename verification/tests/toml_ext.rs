use mdbook_verified::toml_ext::TomlValue;

fn table(entries: Vec<(&str, TomlValue<bool>)>) -> TomlValue<bool> {
    TomlValue::Table(entries.into_iter().map(|(k, v)| (k.to_string(), v)).collect())
}

#[test]
fn read_simple_table() {
    // [table]
    let value = table(vec![("table", table(vec![]))]);

    let got = value.read("table").unwrap();

    assert!(got.is_table());
}

#[test]
fn read_nested_item() {
    // [table]
    // nested=true
    let value = table(vec![("table", table(vec![("nested", TomlValue::Leaf(true))]))]);

    let got = value.read("table.nested").unwrap();

    assert_eq!(got, &TomlValue::Leaf(true));
}

#[test]
fn insert_item_at_top_level() {
    let mut value: TomlValue<bool> = TomlValue::Table(Vec::new());
    let item = TomlValue::Leaf(true);

    value.insert("first", TomlValue::Leaf(true));

    assert_eq!(value.get("first").unwrap(), &item);
}

#[test]
fn insert_nested_item() {
    let mut value: TomlValue<bool> = TomlValue::Table(Vec::new());
    let item = TomlValue::Leaf(true);

    value.insert("first.second", TomlValue::Leaf(true));

    let inserted = value.read("first.second").unwrap();
    assert_eq!(inserted, &item);
}

#[test]
fn delete_a_top_level_item() {
    // top = true
    let mut value = table(vec![("top", TomlValue::Leaf(true))]);

    let got = value.delete("top").unwrap();

    assert_eq!(got, TomlValue::Leaf(true));
}

#[test]
fn delete_a_nested_item() {
    // [table]
    //  nested = true
    let mut value = table(vec![("table", table(vec![("nested", TomlValue::Leaf(true))]))]);

    let got = value.delete("table.nested").unwrap();

    assert_eq!(got, TomlValue::Leaf(true));
}

#[test]
fn read_after_delete_gives_nothing() {
    let mut value = table(vec![("table", table(vec![("nested", TomlValue::Leaf(true)), ("other", TomlValue::Leaf(false))]))]);

    value.delete("table.nested");

    assert!(value.read("table.nested").is_none());
    assert_eq!(value.read("table.other"), Some(&TomlValue::Leaf(false)));
}

#[test]
fn delete_of_a_missing_key_changes_nothing() {
    let mut value = table(vec![("table", table(vec![("nested", TomlValue::Leaf(true))]))]);

    assert!(value.delete("table.missing").is_none());
    assert!(value.delete("nowhere.nested").is_none());
    assert!(value.delete("table.nested.deeper").is_none());
    assert_eq!(value, table(vec![("table", table(vec![("nested", TomlValue::Leaf(true))]))]));
}

#[test]
fn insert_through_a_leaf_makes_a_table() {
    let mut value = table(vec![("first", TomlValue::Leaf(false))]);

    value.insert("first.second", TomlValue::Leaf(true));

    assert!(value.read("first").unwrap().is_table());
    assert_eq!(value.read("first.second"), Some(&TomlValue::Leaf(true)));
}

#[test]
fn insert_into_a_leaf_makes_it_a_table() {
    let mut value = TomlValue::Leaf(false);

    value.insert("key", TomlValue::Leaf(true));

    assert_eq!(value, table(vec![("key", TomlValue::Leaf(true))]));
}

#[test]
fn insert_replaces_an_earlier_value() {
    let mut value = table(vec![("a", TomlValue::Leaf(false)), ("b", TomlValue::Leaf(false))]);

    value.insert("a", TomlValue::Leaf(true));

    assert_eq!(value.get("a"), Some(&TomlValue::Leaf(true)));
    assert_eq!(value.get("b"), Some(&TomlValue::Leaf(false)));
}

#[test]
fn reading_through_a_leaf_gives_nothing() {
    let value = table(vec![("a", TomlValue::Leaf(true))]);

    assert!(value.read("a.b").is_none());
    assert!(value.get("a.b").is_none());
    assert!(TomlValue::Leaf(true).read("a").is_none());
}

#[test]
fn the_last_entry_of_a_key_counts() {
    let mut value = table(vec![("a", TomlValue::Leaf(false)), ("a", TomlValue::Leaf(true))]);

    assert_eq!(value.read("a"), Some(&TomlValue::Leaf(true)));
    assert_eq!(value.delete("a"), Some(TomlValue::Leaf(true)));
    assert!(value.read("a").is_none());
}
