use mdbook_verified::config::env_overrides;
use mdbook_verified::json::JsonValue;

fn vars(v: &[(&str, &str)]) -> Vec<(String, String)> {
    v.iter().map(|(k, v)| (k.to_string(), v.to_string())).collect()
}

fn s(t: &str) -> JsonValue {
    JsonValue::Str(t.to_string())
}

#[test]
fn values_are_read_as_json() {
    let got = env_overrides(vars(&[
        ("MDBOOK_OUTPUT__A", "null"),
        ("MDBOOK_OUTPUT__B", "true"),
        ("MDBOOK_OUTPUT__C", "12"),
        ("MDBOOK_OUTPUT__D", "\"a\""),
        ("MDBOOK_OUTPUT__E", "[1, \"x\"]"),
        ("MDBOOK_OUTPUT__F", "{\"b\": 1, \"a\": 2}"),
        ("MDBOOK_OUTPUT__G", ""),
    ]));
    let values: Vec<JsonValue> = got.into_iter().map(|(_, v)| v).collect();
    assert_eq!(
        values,
        vec![
            JsonValue::Null,
            JsonValue::Bool(true),
            JsonValue::Number("12".to_string()),
            s("a"),
            JsonValue::Array(vec![JsonValue::Number("1".to_string()), s("x")]),
            JsonValue::Object(vec![
                ("a".to_string(), JsonValue::Number("2".to_string())),
                ("b".to_string(), JsonValue::Number("1".to_string())),
            ]),
            s(""),
        ]
    );
}

#[test]
fn env_overrides_read_mdbook_variables() {
    let got = env_overrides(vars(&[
        ("FOO", "1"),
        ("MDBOOK_LOG", "debug"),
        ("MDBOOK_BOOK__TITLE", "\"My title\""),
        ("MDBOOK_OUTPUT__HTML__SITE_URL", "not json"),
        ("MDBOOK_BUILD__EXTRA", "3"),
    ]));
    assert_eq!(
        got,
        vec![
            ("book.title".to_string(), s("My title")),
            ("output.html.site-url".to_string(), s("not json")),
            ("build.extra".to_string(), JsonValue::Number("3".to_string())),
        ]
    );
}

#[test]
fn an_object_for_the_book_table_sets_each_entry_and_later_variables_still_count() {
    let got = env_overrides(vars(&[
        ("MDBOOK_BOOK", "{\"title\": \"My Awesome Book\", \"authors\": [\"Michael-F-Bryan\"]}"),
        ("MDBOOK_OUTPUT__HTML__CNAME", "example.com"),
        ("MDBOOK_BOOK__DESCRIPTION", "\"later\""),
    ]));
    assert_eq!(
        got,
        vec![
            ("book.authors".to_string(), JsonValue::Array(vec![s("Michael-F-Bryan")])),
            ("book.title".to_string(), s("My Awesome Book")),
            ("output.html.cname".to_string(), s("example.com")),
            ("book.description".to_string(), s("later")),
        ]
    );
}

#[test]
fn an_object_for_another_table_is_set_whole() {
    let got = env_overrides(vars(&[("MDBOOK_OUTPUT", "{\"a\": true}"), ("MDBOOK_RUST__EDITION", "\"2021\"")]));
    assert_eq!(
        got,
        vec![
            ("output".to_string(), JsonValue::Object(vec![("a".to_string(), JsonValue::Bool(true))])),
            ("rust.edition".to_string(), s("2021")),
        ]
    );
}
