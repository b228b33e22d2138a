use mdbook_verified::chapter_html::CodeBlockOptions;
use mdbook_verified::html_serialize::{serialize, HtmlNode};
use mdbook_verified::tree_builder::{
    finish_chapter, merge_alert_blockquotes, ColumnAlignment, HtmlToken, LinkKind, MdEvent, MdTag, MdTagEnd,
    MetadataKind, QuoteKind,
    TreeBuilder,
};

fn text(t: &str) -> MdEvent {
    MdEvent::Text(t.to_string())
}

fn run(events: Vec<MdEvent>) -> TreeBuilder {
    let mut b = TreeBuilder::new();
    for e in events {
        assert!(b.accepts(&e), "event not accepted: {e:?}");
        assert_eq!(b.event(e), None);
    }
    b
}

fn html_of(tree: &HtmlNode) -> String {
    let mut out = String::new();
    serialize(tree, &mut out);
    out
}

fn finished(events: Vec<MdEvent>) -> String {
    let b = run(events);
    assert!(b.can_finish());
    html_of(&b.finish())
}

fn no_code_options() -> CodeBlockOptions {
    CodeBlockOptions { runnable: false, editable: false, edition: None, hidelines: Vec::new() }
}

#[test]
fn markdown_links_become_html_links() {
    let out = finished(vec![
        MdEvent::Start(MdTag::Paragraph),
        MdEvent::Start(MdTag::Link { kind: LinkKind::Inline, dest_url: "example.md#anchor".into(), title: String::new(), id: String::new() }),
        text("example"),
        MdEvent::End(MdTagEnd::Link),
        MdEvent::Start(MdTag::Link { kind: LinkKind::Inline, dest_url: "https://www.rust-lang.org/".into(), title: "T".into(), id: String::new() }),
        text("rust"),
        MdEvent::End(MdTagEnd::Link),
        MdEvent::End(MdTagEnd::Paragraph),
    ]);
    assert_eq!(
        out,
        "<p><a href=\"example.html#anchor\">example</a><a href=\"https://www.rust-lang.org/\" title=\"T\">rust</a></p>\n"
    );
}

#[test]
fn email_links_get_mailto() {
    let out = finished(vec![
        MdEvent::Start(MdTag::Paragraph),
        MdEvent::Start(MdTag::Link { kind: LinkKind::Email, dest_url: "a@b.c".into(), title: String::new(), id: String::new() }),
        text("a@b.c"),
        MdEvent::End(MdTagEnd::Link),
        MdEvent::End(MdTagEnd::Paragraph),
    ]);
    assert_eq!(out, "<p><a href=\"mailto:a@b.c\">a@b.c</a></p>\n");
}

#[test]
fn text_events_merge_into_one_node() {
    let b = run(vec![MdEvent::Start(MdTag::Paragraph), text("a"), text("b"), MdEvent::SoftBreak, text("c")]);
    let b = {
        let mut b = b;
        b.event(MdEvent::End(MdTagEnd::Paragraph));
        b
    };
    let tree = b.finish();
    assert_eq!(tree.children.len(), 1);
    assert_eq!(tree.children[0].children.len(), 1);
    assert_eq!(html_of(&tree), "<p>ab\nc</p>\n");
}

#[test]
fn tables_are_wrapped() {
    let out = finished(vec![
        MdEvent::Start(MdTag::Table(vec![ColumnAlignment::Unaligned, ColumnAlignment::Right])),
        MdEvent::Start(MdTag::TableHead),
        MdEvent::Start(MdTag::TableCell),
        text("A"),
        MdEvent::End(MdTagEnd::TableCell),
        MdEvent::Start(MdTag::TableCell),
        text("B"),
        MdEvent::End(MdTagEnd::TableCell),
        MdEvent::End(MdTagEnd::TableHead),
        MdEvent::Start(MdTag::TableRow),
        MdEvent::Start(MdTag::TableCell),
        text("1"),
        MdEvent::End(MdTagEnd::TableCell),
        MdEvent::Start(MdTag::TableCell),
        text("2"),
        MdEvent::End(MdTagEnd::TableCell),
        MdEvent::End(MdTagEnd::TableRow),
        MdEvent::End(MdTagEnd::Table),
    ]);
    assert_eq!(
        out,
        "<div class=\"table-wrapper\">\n<table>\n<thead>\n<tr><th>A</th><th style=\"text-align: right\">B</th></tr>\n</thead>\n<tbody>\n<tr><td>1</td><td style=\"text-align: right\">2</td></tr>\n</tbody>\n</table>\n</div>\n"
    );
}

#[test]
fn code_block_info_becomes_classes() {
    let out = finished(vec![
        MdEvent::Start(MdTag::CodeBlock(Some("rust,  no_run\tx".into()))),
        text("fn main() {}\n"),
        MdEvent::End(MdTagEnd::CodeBlock),
        MdEvent::Start(MdTag::CodeBlock(None)),
        text("plain\n"),
        MdEvent::End(MdTagEnd::CodeBlock),
    ]);
    assert_eq!(
        out,
        "<pre><code class=\"language-rust no_run x\">fn main() {}\n</code></pre>\n<pre><code>plain\n</code></pre>\n"
    );
}

#[test]
fn headings_keep_their_attributes() {
    let out = finished(vec![
        MdEvent::Start(MdTag::Heading {
            level: 2,
            id: Some("x".into()),
            classes: vec!["a".into(), "b".into()],
            attrs: vec![("data-k".into(), Some("v".into())), ("flag".into(), None)],
        }),
        text("T"),
        MdEvent::End(MdTagEnd::Heading(2)),
    ]);
    assert_eq!(out, "<h2 data-k=\"v\" flag=\"\" id=\"x\" class=\"a b\">T</h2>\n");
}

#[test]
fn ordered_lists_start_where_told() {
    let out = finished(vec![
        MdEvent::Start(MdTag::List(Some(3))),
        MdEvent::Start(MdTag::Item),
        text("a"),
        MdEvent::End(MdTagEnd::Item),
        MdEvent::End(MdTagEnd::List(true)),
        MdEvent::Start(MdTag::List(Some(1))),
        MdEvent::Start(MdTag::Item),
        text("b"),
        MdEvent::End(MdTagEnd::Item),
        MdEvent::End(MdTagEnd::List(true)),
    ]);
    assert_eq!(out, "<ol start=\"3\">\n<li>a</li>\n</ol>\n<ol>\n<li>b</li>\n</ol>\n");
}

#[test]
fn footnotes_move_to_the_end_with_backlinks() {
    let out = finished(vec![
        MdEvent::Start(MdTag::Paragraph),
        text("a"),
        MdEvent::FootnoteReference("n".into()),
        MdEvent::FootnoteReference("n".into()),
        MdEvent::End(MdTagEnd::Paragraph),
        MdEvent::Start(MdTag::FootnoteDefinition("n".into())),
        MdEvent::Start(MdTag::Paragraph),
        text("note"),
        MdEvent::End(MdTagEnd::Paragraph),
        MdEvent::End(MdTagEnd::FootnoteDefinition),
        MdEvent::Start(MdTag::FootnoteDefinition("unused".into())),
        MdEvent::Start(MdTag::Paragraph),
        text("never"),
        MdEvent::End(MdTagEnd::Paragraph),
        MdEvent::End(MdTagEnd::FootnoteDefinition),
    ]);
    assert_eq!(
        out,
        "<p>a<sup class=\"footnote-reference\" id=\"fr-n-1\"><a href=\"#footnote-n\">1</a></sup> \
         <sup class=\"footnote-reference\" id=\"fr-n-2\"><a href=\"#footnote-n\">1</a></sup></p>\n\
         <hr>\n<ol class=\"footnote-definition\">\n<li id=\"footnote-n\">\n\
         <p>note <a href=\"#fr-n-1\">\u{21a9}</a> <a href=\"#fr-n-2\">\u{21a9}2</a></p>\n</li>\n</ol>\n"
    );
}

#[test]
fn footnotes_are_numbered_by_first_reference() {
    let out = finished(vec![
        MdEvent::Start(MdTag::Paragraph),
        MdEvent::FootnoteReference("b".into()),
        text(" "),
        MdEvent::FootnoteReference("a".into()),
        MdEvent::End(MdTagEnd::Paragraph),
        MdEvent::Start(MdTag::FootnoteDefinition("a".into())),
        text("A"),
        MdEvent::End(MdTagEnd::FootnoteDefinition),
        MdEvent::Start(MdTag::FootnoteDefinition("b".into())),
        text("B"),
        MdEvent::End(MdTagEnd::FootnoteDefinition),
    ]);
    assert_eq!(
        out,
        "<p><sup class=\"footnote-reference\" id=\"fr-b-1\"><a href=\"#footnote-b\">1</a></sup> \
         <sup class=\"footnote-reference\" id=\"fr-a-1\"><a href=\"#footnote-a\">2</a></sup></p>\n\
         <hr>\n<ol class=\"footnote-definition\">\n<li id=\"footnote-b\">B <a href=\"#fr-b-1\">\u{21a9}</a></li>\n\
         <li id=\"footnote-a\">A <a href=\"#fr-a-1\">\u{21a9}</a></li>\n</ol>\n"
    );
}

#[test]
fn a_second_definition_of_a_footnote_is_skipped() {
    let out = finished(vec![
        MdEvent::Start(MdTag::Paragraph),
        MdEvent::FootnoteReference("n".into()),
        MdEvent::End(MdTagEnd::Paragraph),
        MdEvent::Start(MdTag::FootnoteDefinition("n".into())),
        text("first"),
        MdEvent::End(MdTagEnd::FootnoteDefinition),
        MdEvent::Start(MdTag::FootnoteDefinition("n".into())),
        MdEvent::Start(MdTag::Paragraph),
        text("second"),
        MdEvent::End(MdTagEnd::Paragraph),
        MdEvent::End(MdTagEnd::FootnoteDefinition),
        MdEvent::Start(MdTag::Paragraph),
        text("after"),
        MdEvent::End(MdTagEnd::Paragraph),
    ]);
    assert!(out.contains("first"));
    assert!(!out.contains("second"));
    assert!(out.contains("<p>after</p>"));
}

#[test]
fn image_descriptions_become_alt_text() {
    let out = finished(vec![
        MdEvent::Start(MdTag::Paragraph),
        MdEvent::Start(MdTag::Image { kind: LinkKind::Inline, dest_url: "pic.md".into(), title: "t".into(), id: String::new() }),
        text("a "),
        MdEvent::Start(MdTag::Emphasis),
        text("b"),
        MdEvent::End(MdTagEnd::Emphasis),
        MdEvent::InlineMath("x".into()),
        MdEvent::End(MdTagEnd::Image),
        MdEvent::End(MdTagEnd::Paragraph),
    ]);
    assert_eq!(out, "<p><img src=\"pic.html\" title=\"t\" alt=\"a b$x$\"></p>\n");
}

#[test]
fn inline_events_make_their_elements() {
    let out = finished(vec![
        MdEvent::Start(MdTag::Item),
        MdEvent::TaskListMarker(true),
        text("done "),
        MdEvent::Code("c".into()),
        MdEvent::InlineMath("m".into()),
        MdEvent::HardBreak,
        MdEvent::DisplayMath("d".into()),
        MdEvent::End(MdTagEnd::Item),
        MdEvent::Rule,
    ]);
    assert_eq!(
        out,
        "<li><input disabled=\"\" type=\"checkbox\" checked=\"\"> done <code>c</code>\
         <span class=\"math math-inline\">m</span><br><span class=\"math math-display\">d</span></li>\n<hr>"
    );
}

#[test]
fn inline_html_is_handed_back_and_parsed() {
    let mut b = TreeBuilder::new();
    b.event(MdEvent::Start(MdTag::Paragraph));
    let h = b.event(MdEvent::InlineHtml("<a href=\"x.md#f\">".into()));
    assert_eq!(h, Some("<a href=\"x.md#f\">".to_string()));
    b.html(vec![HtmlToken::StartTag {
        name: "a".into(),
        attrs: vec![("href".into(), "x.md#f".into())],
        self_closing: false,
    }]);
    b.event(text("link"));
    b.event(MdEvent::InlineHtml("</a>".into()));
    b.html(vec![HtmlToken::EndTag("a".into())]);
    b.event(MdEvent::InlineHtml("<span>".into()));
    b.html(vec![HtmlToken::StartTag { name: "span".into(), attrs: vec![], self_closing: false }]);
    b.event(text("open"));
    assert!(b.accepts(&MdEvent::End(MdTagEnd::Paragraph)));
    b.event(MdEvent::End(MdTagEnd::Paragraph));
    assert!(b.can_finish());
    assert_eq!(html_of(&b.finish()), "<p><a href=\"x.html#f\">link</a><span>open</span></p>\n");
}

#[test]
fn script_text_stays_raw() {
    let mut b = TreeBuilder::new();
    b.html(vec![
        HtmlToken::StartTag { name: "script".into(), attrs: vec![], self_closing: false },
        HtmlToken::Characters("1 < 2".into()),
        HtmlToken::EndTag("script".into()),
        HtmlToken::Characters("a < b".into()),
        HtmlToken::Comment(" c ".into()),
        HtmlToken::StartTag { name: "br".into(), attrs: vec![], self_closing: false },
        HtmlToken::Ignored,
    ]);
    assert_eq!(html_of(&b.finish()), "<script>1 < 2</script>a &lt; b<!-- c --><br>");
}

#[test]
fn html_blocks_are_collected_and_handed_back() {
    let mut b = TreeBuilder::new();
    assert_eq!(b.event(MdEvent::Start(MdTag::HtmlBlock)), None);
    assert!(!b.accepts(&MdEvent::Start(MdTag::Paragraph)));
    assert_eq!(b.event(MdEvent::Html("<div>".into())), None);
    assert_eq!(b.event(MdEvent::Text("hi</div>\n".into())), None);
    assert_eq!(b.event(MdEvent::End(MdTagEnd::HtmlBlock)), Some("<div>hi</div>\n".to_string()));
    b.html(vec![
        HtmlToken::StartTag { name: "div".into(), attrs: vec![], self_closing: false },
        HtmlToken::Characters("hi".into()),
        HtmlToken::EndTag("div".into()),
        HtmlToken::Characters("\n".into()),
    ]);
    assert_eq!(html_of(&b.finish()), "<div>hi</div>\n\n");
}

#[test]
fn unfinished_html_block_is_handed_back_at_the_end() {
    let mut b = TreeBuilder::new();
    b.event(MdEvent::Start(MdTag::HtmlBlock));
    b.event(MdEvent::Html("<p>x".into()));
    assert_eq!(b.end_of_events(), Some("<p>x".to_string()));
    assert_eq!(b.end_of_events(), None);
}

#[test]
fn metadata_blocks_are_skipped() {
    let out = finished(vec![
        MdEvent::Start(MdTag::MetadataBlock(MetadataKind::YamlStyle)),
        text("title: x"),
        MdEvent::End(MdTagEnd::MetadataBlock(MetadataKind::YamlStyle)),
        MdEvent::Start(MdTag::Paragraph),
        text("body"),
        MdEvent::End(MdTagEnd::Paragraph),
    ]);
    assert_eq!(out, "<p>body</p>\n");
}

#[test]
fn events_the_builder_refuses() {
    let b = TreeBuilder::new();
    assert!(!b.accepts(&MdEvent::End(MdTagEnd::Paragraph)));
    assert!(!b.accepts(&MdEvent::Html("<b>".into())));
    assert!(b.accepts(&MdEvent::InlineHtml("<b>".into())));
    let mut b = TreeBuilder::new();
    b.event(MdEvent::Start(MdTag::Table(vec![])));
    b.event(MdEvent::Start(MdTag::TableHead));
    b.event(MdEvent::End(MdTagEnd::TableHead));
    assert!(b.accepts(&MdEvent::End(MdTagEnd::Table)));
    assert!(!b.can_finish());
}

#[test]
fn open_markdown_elements_stop_the_finish() {
    let mut b = TreeBuilder::new();
    b.event(MdEvent::Start(MdTag::Paragraph));
    assert!(!b.can_finish());
    let mut b = TreeBuilder::new();
    b.html(vec![HtmlToken::StartTag { name: "div".into(), attrs: vec![], self_closing: false }]);
    assert!(b.can_finish());
    assert_eq!(html_of(&b.finish()), "<div></div>\n");
}

#[test]
fn finished_chapters_get_heading_links() {
    let b = run(vec![
        MdEvent::Start(MdTag::Heading { level: 1, id: None, classes: vec![], attrs: vec![] }),
        text("Hello World"),
        MdEvent::End(MdTagEnd::Heading(1)),
    ]);
    let tree = finish_chapter(b, &no_code_options()).unwrap();
    assert_eq!(
        html_of(&tree),
        "<h1 id=\"hello-world\"><a class=\"header\" href=\"#hello-world\">Hello World</a></h1>\n"
    );
}

#[test]
fn raw_headings_get_no_links() {
    let mut b = TreeBuilder::new();
    b.html(vec![
        HtmlToken::StartTag { name: "h2".into(), attrs: vec![], self_closing: false },
        HtmlToken::Characters("Raw".into()),
        HtmlToken::EndTag("h2".into()),
    ]);
    let tree = finish_chapter(b, &no_code_options()).unwrap();
    assert_eq!(html_of(&tree), "<h2>Raw</h2>\n");
}

#[test]
fn split_alert_quotes_are_merged() {
    let events = vec![
        MdEvent::Start(MdTag::BlockQuote(Some(QuoteKind::Note))),
        MdEvent::End(MdTagEnd::BlockQuote(None)),
        MdEvent::Start(MdTag::BlockQuote(None)),
        text("x"),
        MdEvent::End(MdTagEnd::BlockQuote(None)),
        MdEvent::Start(MdTag::BlockQuote(Some(QuoteKind::Tip))),
        MdEvent::End(MdTagEnd::BlockQuote(None)),
        text("y"),
    ];
    assert_eq!(
        merge_alert_blockquotes(events),
        vec![
            MdEvent::Start(MdTag::BlockQuote(Some(QuoteKind::Note))),
            text("x"),
            MdEvent::End(MdTagEnd::BlockQuote(None)),
            MdEvent::Start(MdTag::BlockQuote(Some(QuoteKind::Tip))),
            MdEvent::End(MdTagEnd::BlockQuote(None)),
            text("y"),
        ]
    );
    let out = finished(vec![
        MdEvent::Start(MdTag::BlockQuote(None)),
        text("q"),
        MdEvent::End(MdTagEnd::BlockQuote(None)),
    ]);
    assert_eq!(out, "<blockquote>q</blockquote>\n");
}
