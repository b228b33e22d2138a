use std::collections::HashMap;

use mdbook_verified::book::{Book, BookItem, Chapter};
use mdbook_verified::config::SearchChapterSettings;
use mdbook_verified::search::{
    get_chapter_settings, sort_search_config, tokenize, validate_chapter_config,
    MAX_WORD_LENGTH_TO_INDEX,
};

fn settings(entries: &[(&str, Option<bool>)]) -> HashMap<String, SearchChapterSettings> {
    entries
        .iter()
        .map(|(k, enable)| (k.to_string(), SearchChapterSettings { enable: *enable }))
        .collect()
}

#[test]
fn chapter_settings_priority() {
    let chapter = settings(&[
        ("cli/watch.md", Some(true)),
        ("cli", Some(false)),
        ("cli/inner/foo.md", Some(false)),
        ("cli/inner", Some(true)),
        ("foo", None),
    ]);
    let chapter_configs = sort_search_config(&chapter);
    for (path, enable) in [
        ("foo.md", None),
        ("cli/watch.md", Some(true)),
        ("cli/index.md", Some(false)),
        ("cli/inner/index.md", Some(true)),
        ("cli/inner/foo.md", Some(false)),
    ] {
        assert_eq!(
            get_chapter_settings(&chapter_configs, path),
            SearchChapterSettings { enable }
        );
    }
}

#[test]
fn search_config_is_sorted_by_components() {
    let chapter = settings(&[("a/b", None), ("a.b", None), ("a", None), ("/x", None)]);
    let keys: Vec<String> = sort_search_config(&chapter)
        .into_iter()
        .map(|(k, _)| k)
        .collect();
    assert_eq!(keys, vec!["/x", "a", "a/b", "a.b"]);
}

#[test]
fn chapter_config_must_match_a_chapter() {
    let ch = Chapter::new("Intro", String::new(), "cli/intro.md", Vec::new());
    let book = Book::new_with_items(vec![BookItem::Chapter(ch)]);
    let ok = sort_search_config(&settings(&[("cli", Some(true))]));
    assert_eq!(validate_chapter_config(&ok, &book), Ok(()));
    let bad = sort_search_config(&settings(&[("cli", Some(true)), ("other", None)]));
    assert_eq!(
        validate_chapter_config(&bad, &book),
        Err("other".to_string())
    );
    let draft = Book::new_with_items(vec![BookItem::Chapter(Chapter::new_draft(
        "Draft",
        Vec::new(),
    ))]);
    assert_eq!(
        validate_chapter_config(&ok, &draft),
        Err("cli".to_string())
    );
}

#[test]
fn test_tokenize_basic() {
    assert_eq!(tokenize("hello world"), vec!["hello", "world"]);
}

#[test]
fn test_tokenize_with_hyphens() {
    assert_eq!(
        tokenize("hello-world test-case"),
        vec!["hello", "world", "test", "case"]
    );
}

#[test]
fn test_tokenize_mixed_whitespace() {
    assert_eq!(
        tokenize("hello\tworld\ntest\r\ncase"),
        vec!["hello", "world", "test", "case"]
    );
}

#[test]
fn test_tokenize_empty_string() {
    assert_eq!(tokenize(""), Vec::<String>::new());
}

#[test]
fn test_tokenize_only_whitespace() {
    assert_eq!(tokenize("   \t\n  "), Vec::<String>::new());
}

#[test]
fn test_tokenize_case_normalization() {
    assert_eq!(tokenize("Hello WORLD Test"), vec!["hello", "world", "test"]);
}

#[test]
fn test_tokenize_trim_whitespace() {
    assert_eq!(tokenize("  hello   world  "), vec!["hello", "world"]);
}

#[test]
fn test_tokenize_long_words_filtered() {
    let long_word = "a".repeat(MAX_WORD_LENGTH_TO_INDEX + 1);
    let short_word = "a".repeat(MAX_WORD_LENGTH_TO_INDEX);
    let input = format!("{} hello {}", long_word, short_word);
    assert_eq!(tokenize(&input), vec!["hello", &short_word]);
}

#[test]
fn test_tokenize_max_length_word() {
    let max_word = "a".repeat(MAX_WORD_LENGTH_TO_INDEX);
    assert_eq!(tokenize(&max_word), vec![max_word]);
}

#[test]
fn test_tokenize_special_characters() {
    assert_eq!(
        tokenize("hello,world.test!case?"),
        vec!["hello,world.test!case?"]
    );
}

#[test]
fn test_tokenize_unicode() {
    assert_eq!(
        tokenize("café naïve résumé"),
        vec!["café", "naïve", "résumé"]
    );
}

#[test]
fn test_tokenize_unicode_rtl_hebre() {
    assert_eq!(tokenize("שלום עולם"), vec!["שלום", "עולם"]);
}

#[test]
fn test_tokenize_numbers() {
    assert_eq!(
        tokenize("test123 456-789 hello"),
        vec!["test123", "456", "789", "hello"]
    );
}

#[test]
fn long_words_count_bytes_not_characters() {
    let word = "é".repeat(41);
    assert_eq!(tokenize(&word), Vec::<String>::new());
    let word = "é".repeat(40);
    assert_eq!(tokenize(&word), vec![word.clone()]);
}
