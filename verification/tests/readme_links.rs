use mdbook_verified::book::{Book, BookItem, Chapter};
use mdbook_verified::renderers::IndexPreprocessor;
use mdbook_verified::links::{fix_readme_links, relink_readme};
use mdbook_verified::markdown::MarkdownOptions;
use mdbook_verified::tree_builder::{LinkKind, MdEvent, MdTag};

fn default_options() -> MarkdownOptions {
    MarkdownOptions { smart_punctuation: true }
}

#[test]
fn index_internal_readme_links_are_converted_to_index() {
    let opts = default_options();

    let md = "[inline](path/to/README.md)";
    assert_eq!(fix_readme_links(md, &opts).unwrap(), "[inline](path/to/index.md)");

    let md = "[reference][link]\n\n[link]: path/to/README.md";
    assert_eq!(fix_readme_links(md, &opts).unwrap(), "[reference][link]\n\n[link]: path/to/index.md");

    let md = "[collapsed][]\n\n[collapsed]: path/to/README.md";
    assert_eq!(fix_readme_links(md, &opts).unwrap(), "[collapsed][]\n\n[collapsed]: path/to/index.md");

    let md = "[shortcut]\n\n[shortcut]: path/to/README.md";
    assert_eq!(fix_readme_links(md, &opts).unwrap(), "[shortcut]\n\n[shortcut]: path/to/index.md");
}

#[test]
fn other_links_are_not_converted_to_index() {
    let opts = default_options();

    let md = "[inline](https://example.com)";
    assert_eq!(fix_readme_links(md, &opts).unwrap(), md);

    let md = "[inline]()";
    assert_eq!(fix_readme_links(md, &opts).unwrap(), md);

    let md = "[reference][link]\n\n[link]: https://example.com";
    assert_eq!(fix_readme_links(md, &opts).unwrap(), md);

    let md = "[reference][unknown]";
    assert_eq!(fix_readme_links(md, &opts).unwrap(), "\\[reference\\]\\[unknown\\]");

    let md = "[collapsed][]\n\n[collapsed]: https://example.com";
    assert_eq!(fix_readme_links(md, &opts).unwrap(), md);

    let md = "[collapsed][]";
    assert_eq!(fix_readme_links(md, &opts).unwrap(), "\\[collapsed\\]\\[\\]");

    let md = "[shortcut]\n\n[shortcut]: https://example.com";
    assert_eq!(fix_readme_links(md, &opts).unwrap(), md);

    let md = "[shortcut]";
    assert_eq!(fix_readme_links(md, &opts).unwrap(), "\\[shortcut\\]");

    let md = "<https://example.com>";
    assert_eq!(fix_readme_links(md, &opts).unwrap(), md);

    let md = "<user@example.com>";
    assert_eq!(fix_readme_links(md, &opts).unwrap(), md);
}

fn link(kind: LinkKind, dest: &str) -> MdEvent {
    MdEvent::Start(MdTag::Link { kind, dest_url: dest.to_string(), title: String::new(), id: String::new() })
}

#[test]
fn relink_readme_rewrites_only_relinkable_links() {
    let events = vec![
        link(LinkKind::Inline, "a/README.md"),
        link(LinkKind::Autolink, "a/README.md"),
        link(LinkKind::Shortcut, "https://example.com/README.md"),
        MdEvent::Text("README.md".to_string()),
    ];
    assert_eq!(
        relink_readme(events),
        vec![
            link(LinkKind::Inline, "a/index.md"),
            link(LinkKind::Autolink, "a/README.md"),
            link(LinkKind::Shortcut, "https://example.com/README.md"),
            MdEvent::Text("README.md".to_string()),
        ]
    );
}

#[test]
fn the_index_preprocessor_renames_readme_chapters_and_their_links() {
    let mut sub = Chapter::new("Sub", "[up](../README.md)".to_string(), "a/b.md", vec![]);
    sub.sub_items = vec![];
    let mut top = Chapter::new("Top", "[next](a/README.md)".to_string(), "README.md", vec![]);
    top.sub_items = vec![BookItem::Chapter(sub)];
    let mut book = Book::new_with_items(vec![BookItem::Chapter(top), BookItem::Separator]);
    IndexPreprocessor::new().rename_readme_paths(&mut book, &default_options());
    match &book.sections[0] {
        BookItem::Chapter(ch) => {
            assert_eq!(ch.path.as_deref(), Some("index.md"));
            assert_eq!(ch.content, "[next](a/index.md)");
            match &ch.sub_items[0] {
                BookItem::Chapter(s) => {
                    assert_eq!(s.path.as_deref(), Some("a/b.md"));
                    assert_eq!(s.content, "[up](../index.md)");
                }
                other => panic!("unexpected {other:?}"),
            }
        }
        other => panic!("unexpected {other:?}"),
    }
    assert!(matches!(book.sections[1], BookItem::Separator));
}
