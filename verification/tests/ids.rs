use mdbook_verified::ids::{id_from_content, unique_id};

#[test]
fn it_generates_unique_ids() {
    let mut id_counter = Default::default();

    assert_eq!(unique_id("", &mut id_counter), "");
    assert_eq!(unique_id("Über", &mut id_counter), "Über");
    assert_eq!(unique_id("Über", &mut id_counter), "Über-1");
    assert_eq!(unique_id("Über", &mut id_counter), "Über-2");
}

#[test]
fn it_normalizes_ids() {
    assert_eq!(
        id_from_content("`--passes`: add more rustdoc passes"),
        "--passes-add-more-rustdoc-passes"
    );
    assert_eq!(
        id_from_content("Method-call 🐙 expressions \u{1f47c}"),
        "method-call--expressions-"
    );
    assert_eq!(id_from_content("_-_12345"), "_-_12345");
    assert_eq!(id_from_content("12345"), "12345");
    assert_eq!(id_from_content("中文"), "中文");
    assert_eq!(id_from_content("にほんご"), "にほんご");
    assert_eq!(id_from_content("한국어"), "한국어");
    assert_eq!(id_from_content(""), "");
    assert_eq!(id_from_content("中文標題 CJK title"), "中文標題-cjk-title");
    assert_eq!(id_from_content("Über"), "über");
}

#[test]
fn unique_ids_skip_taken_suffixes() {
    let mut used = vec![String::from("a"), String::from("a-1")];
    assert_eq!(unique_id("a", &mut used), "a-2");
    assert_eq!(used.len(), 3);
    assert_eq!(unique_id("a-1", &mut used), "a-1-1");
    assert_eq!(unique_id("b", &mut used), "b");
    assert_eq!(used, vec!["a", "a-1", "a-2", "a-1-1", "b"]);
}

#[test]
fn ids_trim_and_map_whitespace() {
    assert_eq!(id_from_content("  Hello\tWorld  "), "hello-world");
    assert_eq!(id_from_content("a.b!c"), "abc");
}
