use mdbook_verified::toc::{render_toc, TocItem, TocOptions};

fn chapter(section: &str, path: &str, name: &str) -> TocItem {
    TocItem {
        section: Some(section.to_string()),
        spacer: false,
        part: None,
        path: Some(path.to_string()),
        name: Some(name.to_string()),
        has_sub_items: None,
    }
}

fn blank() -> TocItem {
    TocItem {
        section: None,
        spacer: false,
        part: None,
        path: None,
        name: None,
        has_sub_items: None,
    }
}

#[test]
fn toc_nests_sections_and_closes_them() {
    let mut first = chapter("1.", "intro.md", "Intro");
    first.has_sub_items = Some("true".to_string());
    let mut spacer = blank();
    spacer.spacer = true;
    let mut part = blank();
    part.part = Some("Part 2".to_string());
    let items = vec![
        first,
        chapter("1.1.", "a/b.md", "A<B"),
        spacer,
        part,
        chapter("2.", "", "Draft"),
    ];
    let opts = TocOptions {
        fold_enable: true,
        fold_level: 1,
        is_toc_html: false,
        no_section_label: false,
    };
    let expected = [
        r#"<ol class="chapter">"#,
        r#"<li class="chapter-item expanded "><a href="intro.html"><strong aria-hidden="true">1.</strong> Intro</a><a class="toggle"><div>❱</div></a></li>"#,
        r#"<li><ol class="section"><li class="chapter-item "><a href="a/b.html"><strong aria-hidden="true">1.1.</strong> A&lt;B</a></li>"#,
        r#"</ol></li><li class="chapter-item expanded "><li class="spacer"></li>"#,
        r#"<li class="chapter-item expanded affix "><li class="part-title">Part 2</li>"#,
        r#"<li class="chapter-item expanded "><div><strong aria-hidden="true">2.</strong> Draft</div></li>"#,
        r#"</ol>"#,
    ]
    .concat();
    assert_eq!(render_toc(&items, &opts), expected);
}

#[test]
fn toc_closes_open_lists_at_the_end() {
    let items = vec![chapter("1.", "a.md", "A"), chapter("1.1.1.", "b.md", "B")];
    let opts = TocOptions {
        fold_enable: false,
        fold_level: 0,
        is_toc_html: true,
        no_section_label: true,
    };
    let expected = [
        r#"<ol class="chapter">"#,
        r#"<li class="chapter-item expanded "><a href="a.html" target="_parent">A</a></li>"#,
        r#"<li><ol class="section"><li><ol class="section"><li class="chapter-item expanded "><a href="b.html" target="_parent">B</a></li>"#,
        r#"</ol></li></ol></li></ol>"#,
    ]
    .concat();
    assert_eq!(render_toc(&items, &opts), expected);
}

#[test]
fn empty_toc_is_an_empty_list() {
    let opts = TocOptions {
        fold_enable: false,
        fold_level: 0,
        is_toc_html: false,
        no_section_label: false,
    };
    assert_eq!(render_toc(&Vec::new(), &opts), r#"<ol class="chapter"></ol>"#);
}
