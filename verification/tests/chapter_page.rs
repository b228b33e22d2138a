use std::collections::HashMap;

use mdbook_verified::book::SectionNumber;
use mdbook_verified::chapter_page::{chapter_page, ChapterPageError, PageChapter};
use mdbook_verified::config::HtmlConfig;

fn chapter(name: &str, path: &str) -> PageChapter {
    PageChapter {
        name: name.to_string(),
        path: path.to_string(),
        source_path: Some(path.to_string()),
        number: None,
    }
}

fn redirects(pairs: &[(&str, &str)]) -> HashMap<String, String> {
    pairs
        .iter()
        .map(|(k, v)| (k.to_string(), v.to_string()))
        .collect()
}

#[test]
fn chapter_page_data() {
    let mut ch = chapter("Intro", "guide/intro.md");
    ch.number = Some(SectionNumber(vec![2, 1]));
    let prev = chapter("Start", "index.md");
    let mut html = HtmlConfig::default();
    html.edit_url_template = Some("https://x/edit/{path}".to_string());
    html.redirect = redirects(&[
        ("/guide/intro.html#old", "new.html#x"),
        ("/other.html", "a.html"),
        ("/guide/intro.html#abc", "b.html"),
    ]);
    let page = chapter_page(&ch, Some(&prev), None, "src", "My Book", None, &html).unwrap();
    assert_eq!(page.file, "guide/intro.html");
    assert_eq!(page.path, "guide/intro.md");
    assert_eq!(page.title, "Intro - My Book");
    assert_eq!(page.chapter_title, "Intro");
    assert_eq!(page.path_to_root, "../");
    assert_eq!(page.section.as_deref(), Some("2.1."));
    assert_eq!(
        page.edit_url.as_deref(),
        Some("https://x/edit/src/guide/intro.md")
    );
    assert_eq!(
        page.fragment_map,
        vec![
            ("#abc".to_string(), "b.html".to_string()),
            ("#old".to_string(), "new.html#x".to_string()),
        ]
    );
    let previous = page.previous.unwrap();
    assert_eq!(previous.title, "Start");
    assert_eq!(previous.link, "index.html");
    assert!(page.next.is_none());
    assert!(!page.also_index);
}

#[test]
fn first_chapter_is_also_the_index_and_titles_can_be_configured() {
    let ch = chapter("Intro", "intro.md");
    let page = chapter_page(
        &ch,
        None,
        None,
        "src",
        "",
        Some("Welcome"),
        &HtmlConfig::default(),
    )
    .unwrap();
    assert!(page.also_index);
    assert_eq!(page.title, "Welcome");
    assert!(page.edit_url.is_none());
    let page = chapter_page(&ch, None, None, "src", "", None, &HtmlConfig::default()).unwrap();
    assert_eq!(page.title, "Intro");
}

#[test]
fn print_page_path_is_reserved() {
    let ch = chapter("Print", "print.md");
    assert_eq!(
        chapter_page(&ch, None, None, "src", "", None, &HtmlConfig::default()).err(),
        Some(ChapterPageError::ReservedPath)
    );
    let ch = chapter("Print", "sub/print.md");
    assert!(chapter_page(&ch, None, None, "src", "", None, &HtmlConfig::default()).is_ok());
}

#[test]
fn redirect_from_an_existing_chapter_is_refused() {
    let ch = chapter("Intro", "guide/intro.md");
    let mut html = HtmlConfig::default();
    html.redirect = redirects(&[("/guide/intro.html", "elsewhere.html")]);
    assert_eq!(
        chapter_page(&ch, None, None, "src", "", None, &html).err(),
        Some(ChapterPageError::RedirectForExistingChapter(
            "/guide/intro.html".to_string()
        ))
    );
}
