use mdbook_verified::search_docs::{chapter_search_docs, collapse_whitespace, SearchDoc};
use mdbook_verified::tree_builder::{MdEvent, MdTag, MdTagEnd};

fn heading(level: u8, id: Option<&str>) -> MdEvent {
    MdEvent::Start(MdTag::Heading { level, id: id.map(|s| s.to_string()), classes: vec![], attrs: vec![] })
}

fn text(t: &str) -> MdEvent {
    MdEvent::Text(t.to_string())
}

fn para(t: &str) -> Vec<MdEvent> {
    vec![MdEvent::Start(MdTag::Paragraph), text(t), MdEvent::End(MdTagEnd::Paragraph)]
}

fn doc(url: &str, title: &str, body: &str, breadcrumbs: &str) -> SearchDoc {
    SearchDoc { url: url.into(), title: title.into(), body: body.into(), breadcrumbs: breadcrumbs.into() }
}

#[test]
fn runs_of_whitespace_collapse() {
    assert_eq!(collapse_whitespace("a  b\tc\n\nd e"), "a b\tc d e");
    assert_eq!(collapse_whitespace("a\nb"), "a\nb");
    assert_eq!(collapse_whitespace("   "), " ");
    assert_eq!(collapse_whitespace(""), "");
}

#[test]
fn chapters_are_cut_at_headings() {
    let mut events = vec![heading(1, None), text("Intro"), MdEvent::End(MdTagEnd::Heading(1))];
    events.extend(para("hello"));
    events.extend(vec![heading(2, None), text("Sub"), MdEvent::End(MdTagEnd::Heading(2))]);
    events.extend(para("world"));
    let docs = chapter_search_docs(events, "ch.html", 3, vec!["Chapter".to_string()]);
    assert_eq!(
        docs,
        vec![
            doc("ch.html#intro", "Intro", "hello", "Chapter \u{bb} Intro"),
            doc("ch.html#sub", "Sub", "world", "Chapter \u{bb} Sub"),
        ]
    );
}

#[test]
fn explicit_ids_and_repeated_headings() {
    let mut events = vec![heading(1, Some("custom")), text("Same"), MdEvent::End(MdTagEnd::Heading(1))];
    events.extend(para("a"));
    events.extend(vec![heading(1, None), text("Same"), MdEvent::End(MdTagEnd::Heading(1))]);
    events.extend(para("b"));
    events.extend(vec![heading(1, None), text("Same"), MdEvent::End(MdTagEnd::Heading(1))]);
    let docs = chapter_search_docs(events, "p.html", 1, vec!["P".to_string()]);
    assert_eq!(docs.len(), 3);
    assert_eq!(docs[0].url, "p.html#custom");
    assert_eq!(docs[1].url, "p.html#same");
    assert_eq!(docs[2].url, "p.html#same-1");
    assert_eq!(docs[2].body, "");
}

#[test]
fn deep_headings_stay_in_the_section() {
    let mut events = vec![heading(1, None), text("Top"), MdEvent::End(MdTagEnd::Heading(1))];
    events.extend(vec![heading(3, None), text("Deep"), MdEvent::End(MdTagEnd::Heading(3))]);
    events.extend(para("x"));
    let docs = chapter_search_docs(events, "c.html", 2, vec!["C".to_string()]);
    assert_eq!(docs, vec![doc("c.html#top", "Top", "Deep x", "C \u{bb} Top")]);
}

#[test]
fn footnotes_are_numbered_in_the_body() {
    let events = vec![
        MdEvent::Start(MdTag::Paragraph),
        text("see"),
        MdEvent::FootnoteReference("b".into()),
        MdEvent::FootnoteReference("a".into()),
        MdEvent::FootnoteReference("b".into()),
        MdEvent::End(MdTagEnd::Paragraph),
    ];
    let docs = chapter_search_docs(events, "f.html", 3, vec!["F".to_string()]);
    assert_eq!(docs, vec![doc("f.html", "F", "see [1] [2] [1]", "F")]);
}

#[test]
fn chapters_without_headings_take_the_first_name() {
    let docs = chapter_search_docs(para("only text"), "x/y.html", 3, vec!["Part".to_string(), "Ch".to_string()]);
    assert_eq!(docs, vec![doc("x/y.html", "Part", "only text", "Part \u{bb} Ch")]);
    assert_eq!(chapter_search_docs(vec![], "e.html", 3, vec!["E".to_string()]), vec![]);
}

#[test]
fn html_is_cleaned_into_the_body() {
    let events = vec![
        MdEvent::Start(MdTag::HtmlBlock),
        MdEvent::Html("<div>Hi <b>".into()),
        MdEvent::Html("there</b></div>".into()),
        MdEvent::End(MdTagEnd::HtmlBlock),
        MdEvent::Start(MdTag::HtmlBlock),
        MdEvent::Html("<script>alert(1)</script>".into()),
        MdEvent::End(MdTagEnd::HtmlBlock),
    ];
    let docs = chapter_search_docs(events, "h.html", 3, vec!["H".to_string()]);
    assert_eq!(docs.len(), 1);
    assert_eq!(docs[0].body, "Hi there");
}
