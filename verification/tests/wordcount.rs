use mdbook_verified::book::{Book, BookItem, Chapter};
use mdbook_verified::markdown::{parser_extensions, MarkdownOptions};
use mdbook_verified::wordcount::{backtrace_message, count_words, word_counts, WordcountConfig};

fn book() -> Book {
    let a = Chapter::new("A", "one two  three\n".to_string(), "a.md", Vec::new());
    let b = Chapter::new("B", "  four\tfive ".to_string(), "b.md", Vec::new());
    let c = Chapter::new("C", "".to_string(), "c.md", Vec::new());
    Book::new_with_items(vec![
        BookItem::Chapter(a),
        BookItem::Separator,
        BookItem::Chapter(b),
        BookItem::Chapter(c),
    ])
}

#[test]
fn words_are_runs_without_whitespace() {
    assert_eq!(count_words(""), 0);
    assert_eq!(count_words("   "), 0);
    assert_eq!(count_words("one"), 1);
    assert_eq!(count_words(" one  two\nthree\t"), 3);
}

#[test]
fn chapters_are_counted_unless_ignored() {
    let cfg = WordcountConfig {
        ignores: vec!["B".to_string()],
        deny_odds: false,
    };
    let (counts, stopped) = word_counts(&book(), &cfg);
    assert!(!stopped);
    assert_eq!(counts, vec![("A".to_string(), 3), ("C".to_string(), 0)]);
}

#[test]
fn odd_counts_stop_the_count_when_refused() {
    let cfg = WordcountConfig {
        ignores: Vec::new(),
        deny_odds: true,
    };
    let (counts, stopped) = word_counts(&book(), &cfg);
    assert!(stopped);
    assert_eq!(counts, vec![("A".to_string(), 3)]);
    let (counts, stopped) = word_counts(&book(), &WordcountConfig::default());
    assert!(!stopped);
    assert_eq!(counts.len(), 3);
}

#[test]
fn backtraces_list_the_causes() {
    assert_eq!(backtrace_message(&Vec::new()), "");
    assert_eq!(backtrace_message(&vec!["top".to_string()]), "top");
    assert_eq!(
        backtrace_message(&vec!["top".to_string(), "mid".to_string(), "root".to_string()]),
        "top\n\tCaused by: mid\n\tCaused by: root"
    );
}

#[test]
fn smart_punctuation_is_optional() {
    let on = parser_extensions(&MarkdownOptions::default());
    assert!(on.smart_punctuation && on.tables && on.footnotes);
    let off = parser_extensions(&MarkdownOptions {
        smart_punctuation: false,
    });
    assert!(!off.smart_punctuation && off.strikethrough && off.tasklists && off.heading_attributes);
}
