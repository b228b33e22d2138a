use mdbook_verified::markdown::{parser_extensions, MarkdownOptions};
use mdbook_verified::md_parse::{chapter_events, parse_markdown};
use mdbook_verified::search_docs::chapter_text_search_docs;
use mdbook_verified::tree_builder::{LinkKind, MdEvent, MdTag, MdTagEnd};

fn text(t: &str) -> MdEvent {
    MdEvent::Text(t.to_string())
}

#[test]
fn parse_markdown_gives_a_link_in_a_paragraph() {
    let ext = parser_extensions(&MarkdownOptions { smart_punctuation: true });
    let events = parse_markdown("[example](example.md)", &ext);
    assert_eq!(
        events,
        vec![
            MdEvent::Start(MdTag::Paragraph),
            MdEvent::Start(MdTag::Link {
                kind: LinkKind::Inline,
                dest_url: "example.md".to_string(),
                title: String::new(),
                id: String::new(),
            }),
            text("example"),
            MdEvent::End(MdTagEnd::Link),
            MdEvent::End(MdTagEnd::Paragraph),
        ]
    );
}

fn joined_text(events: &[MdEvent]) -> String {
    events
        .iter()
        .map(|e| match e {
            MdEvent::Text(t) => t.clone(),
            _ => String::new(),
        })
        .collect()
}

#[test]
fn parse_markdown_follows_smart_punctuation() {
    let on = parse_markdown("'a'", &parser_extensions(&MarkdownOptions { smart_punctuation: true }));
    assert_eq!(on.first(), Some(&MdEvent::Start(MdTag::Paragraph)));
    assert_eq!(joined_text(&on), "\u{2018}a\u{2019}");
    let off = parse_markdown("'a'", &parser_extensions(&MarkdownOptions { smart_punctuation: false }));
    assert_eq!(off.last(), Some(&MdEvent::End(MdTagEnd::Paragraph)));
    assert_eq!(joined_text(&off), "'a'");
}

#[test]
fn parse_markdown_reads_headings_and_tables() {
    let ext = parser_extensions(&MarkdownOptions { smart_punctuation: false });
    let events = parse_markdown("# Title\n", &ext);
    assert_eq!(events.len(), 3);
    assert!(matches!(&events[0], MdEvent::Start(MdTag::Heading { level: 1, id: None, .. })));
    assert_eq!(events[1], text("Title"));
    assert_eq!(events[2], MdEvent::End(MdTagEnd::Heading(1)));
    let table = parse_markdown("|a|\n|-|\n|b|\n", &ext);
    assert!(matches!(&table[0], MdEvent::Start(MdTag::Table(_))));
}

#[test]
fn chapter_events_give_a_plain_quote() {
    let events = chapter_events("> [!NOTE]\n> hi\n", &MarkdownOptions { smart_punctuation: true });
    assert_eq!(events.first(), Some(&MdEvent::Start(MdTag::BlockQuote(None))));
    assert_eq!(events.last(), Some(&MdEvent::End(MdTagEnd::BlockQuote(None))));
}

#[test]
fn chapter_text_search_docs_splits_at_headings() {
    let docs = chapter_text_search_docs("# First\n\nsome text\n", "intro.html", 3, vec!["Intro".to_string()]).unwrap();
    assert_eq!(docs.len(), 1);
    assert_eq!(docs[0].url, "intro.html#first");
    assert_eq!(docs[0].title, "First");
    assert_eq!(docs[0].body, "some text");
    assert_eq!(docs[0].breadcrumbs, "Intro \u{bb} First");
}
