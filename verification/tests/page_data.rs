use mdbook_verified::book::{Book, BookItem, Chapter, SectionNumber};
use mdbook_verified::config::{BookConfig, HtmlConfig, Search, TextDirection};
use mdbook_verified::page_data::make_data;
use mdbook_verified::theme::Theme;
use mdbook_verified::toc::{render_toc, TocOptions};

fn theme() -> Theme {
    Theme {
        index: Vec::new(),
        head: Vec::new(),
        redirect: Vec::new(),
        header: Vec::new(),
        chrome_css: Vec::new(),
        general_css: Vec::new(),
        print_css: Vec::new(),
        variables_css: Vec::new(),
        favicon_png: Some(Vec::new()),
        favicon_svg: None,
        js: Vec::new(),
        highlight_css: Vec::new(),
        tomorrow_night_css: Vec::new(),
        ayu_highlight_css: Vec::new(),
        highlight_js: Vec::new(),
        clipboard_js: Vec::new(),
        toc_js: Vec::new(),
        toc_html: Vec::new(),
        fonts_css: None,
        font_files: Vec::new(),
    }
}

fn book() -> Book {
    let mut inner = Chapter::new("Inner", String::new(), "intro/inner.md", Vec::new());
    inner.number = Some(SectionNumber(vec![1, 1]));
    let mut intro = Chapter::new("Intro", String::new(), "intro/README.md", Vec::new());
    intro.number = Some(SectionNumber(vec![1]));
    intro.sub_items.push(BookItem::Chapter(inner));
    Book::new_with_items(vec![
        BookItem::Chapter(intro),
        BookItem::Separator,
        BookItem::PartTitle("Reference".to_string()),
    ])
}

#[test]
fn page_data_follows_the_configuration() {
    let mut book_config = BookConfig::default();
    book_config.title = Some("A Book".to_string());
    book_config.language = Some("ar".to_string());
    let mut html = HtmlConfig::default();
    html.default_theme = Some("Ayu".to_string());
    html.additional_css = vec!["/book/theme/a.css".to_string(), "b.css".to_string()];
    html.git_repository_icon = Some("fas-code-branch".to_string());
    let data = make_data("/book", &book(), &book_config, &html, &theme());
    assert_eq!(data.language, "ar");
    assert_eq!(data.text_direction, TextDirection::RightToLeft);
    assert_eq!(data.book_title, "A Book");
    assert_eq!(data.description, "");
    assert!(data.favicon_png);
    assert!(!data.favicon_svg);
    assert_eq!(data.default_theme, "ayu");
    assert_eq!(data.preferred_dark_theme, "navy");
    assert_eq!(
        data.additional_css,
        Some(vec!["theme/a.css".to_string(), "b.css".to_string()])
    );
    assert_eq!(data.additional_js, None);
    assert!(!data.playground_js);
    assert!(data.playground_copyable);
    assert!(data.search_enabled && data.search_js);
    assert_eq!(data.git_repository_icon, "fas-code-branch");
    assert_eq!(data.git_repository_icon_class, "solid");
}

#[test]
fn repository_icon_defaults_to_github() {
    let mut html = HtmlConfig::default();
    let mut search = Search::default();
    search.copy_js = false;
    html.search = Some(search);
    let data = make_data("/book", &Book::new(), &BookConfig::default(), &html, &theme());
    assert_eq!(data.git_repository_icon, "fa-github");
    assert_eq!(data.git_repository_icon_class, "regular");
    assert_eq!(data.language, "en");
    assert!(data.search_enabled && !data.search_js);
    assert!(data.chapters.is_empty());
}

#[test]
fn chapters_feed_the_table_of_contents() {
    let data = make_data(
        "/book",
        &book(),
        &BookConfig::default(),
        &HtmlConfig::default(),
        &theme(),
    );
    assert_eq!(data.chapters.len(), 4);
    assert_eq!(data.chapters[0].section.as_deref(), Some("1."));
    assert_eq!(data.chapters[0].has_sub_items.as_deref(), Some("true"));
    assert_eq!(data.chapters[1].section.as_deref(), Some("1.1."));
    assert_eq!(data.chapters[1].has_sub_items.as_deref(), Some("false"));
    assert!(data.chapters[2].spacer);
    assert_eq!(data.chapters[3].part.as_deref(), Some("Reference"));
    let opts = TocOptions {
        fold_enable: data.fold_enable,
        fold_level: data.fold_level as u64,
        is_toc_html: false,
        no_section_label: false,
    };
    let html = render_toc(&data.chapters, &opts);
    assert!(html.contains(r#"<a href="intro/README.html"><strong aria-hidden="true">1.</strong> Intro</a>"#));
    assert!(html.contains(r#"<li class="part-title">Reference</li>"#));
}
