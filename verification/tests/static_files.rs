use mdbook_verified::config::HtmlConfig;
use mdbook_verified::resource_refs::{
    replace_css_urls, replace_resource_directives, rewrite_references, ResourceHelper, WriteStep,
};
use mdbook_verified::static_files::{fingerprinted_name, StaticFile, StaticFiles};
use mdbook_verified::theme::{BundledAssets, Theme};

fn empty_theme() -> Theme {
    Theme {
        index: Vec::new(),
        head: Vec::new(),
        redirect: Vec::new(),
        header: Vec::new(),
        chrome_css: Vec::new(),
        general_css: Vec::new(),
        print_css: Vec::new(),
        variables_css: Vec::new(),
        favicon_png: Some(Vec::new()),
        favicon_svg: Some(Vec::new()),
        js: Vec::new(),
        highlight_css: Vec::new(),
        tomorrow_night_css: Vec::new(),
        ayu_highlight_css: Vec::new(),
        highlight_js: Vec::new(),
        clipboard_js: Vec::new(),
        toc_js: Vec::new(),
        toc_html: Vec::new(),
        fonts_css: None,
        font_files: Vec::new(),
    }
}

fn no_bundled_assets() -> BundledAssets {
    BundledAssets {
        fonts_css: Vec::new(),
        font_files: Vec::new(),
        editor_files: Vec::new(),
    }
}

/// A theme whose `fonts` directory holds `test-font.woff2`.
fn theme_with_font() -> Theme {
    let mut theme = empty_theme();
    theme.favicon_png = None;
    theme.favicon_svg = None;
    theme.font_files = vec!["theme/fonts/test-font.woff2".to_string()];
    theme
}

fn filename_of(f: &StaticFile) -> String {
    match f {
        StaticFile::Builtin { filename, .. } => filename.clone(),
        StaticFile::Additional { filename, .. } => filename.clone(),
    }
}

/// Builds, fingerprints and plans the output of a book with one additional
/// CSS file, then rewrites that file as the writer does.
fn written_css(css_path: &str, css: &[u8]) -> String {
    let theme = theme_with_font();
    let mut html_config = HtmlConfig::default();
    html_config.additional_css.push(css_path.to_string());
    let mut sf = StaticFiles::new(&theme, &html_config, "book", &no_bundled_assets());
    sf.hash_files(&vec![css.to_vec(), b"font-data".to_vec()]);
    let (steps, helper) = sf.write_steps();
    let mut found = Vec::new();
    for step in steps {
        if let WriteStep::RewriteCopy { input_location, filename } = step {
            assert_eq!(input_location, format!("book/{css_path}"));
            found.push(rewrite_references(&helper.hash_map, &filename, css));
        }
    }
    assert_eq!(found.len(), 1);
    String::from_utf8(found.pop().unwrap()).unwrap()
}

#[test]
fn test_write_directive() {
    let theme = empty_theme();
    let mut html_config = HtmlConfig::default();
    html_config
        .additional_js
        .push("static-files-test-case-reference.js".to_string());
    let mut static_files = StaticFiles::new(&theme, &html_config, "/tmp", &no_bundled_assets());
    let reference = br#"{{ resource "book.js" }}"#.to_vec();
    static_files.hash_files(&vec![reference.clone()]);
    let (steps, helper) = static_files.write_steps();
    let mut reference_js_content = None;
    let mut book_js_content = None;
    for step in steps {
        match step {
            WriteStep::RewriteCopy { filename, .. } => {
                assert_eq!(filename, "static-files-test-case-reference-635c9cdc.js");
                reference_js_content =
                    Some(rewrite_references(&helper.hash_map, &filename, &reference));
            }
            WriteStep::Write { filename, data } if filename == "book-e3b0c442.js" => {
                book_js_content = Some(data);
            }
            _ => {}
        }
    }
    // custom JS winds up referencing book.js
    assert_eq!(
        "book-e3b0c442.js",
        String::from_utf8(reference_js_content.unwrap()).unwrap()
    );
    // book.js winds up empty
    assert_eq!("", String::from_utf8(book_js_content.unwrap()).unwrap());
}

#[test]
fn test_css_url_double_quoted() {
    let content = written_css(
        "custom.css",
        br#"@font-face { src: url("fonts/test-font.woff2") format("woff2"); }"#,
    );
    assert!(
        content.contains("url(\"fonts/test-font-"),
        "url not rewritten: {content}"
    );
    assert!(!content.contains("url(\"fonts/test-font.woff2\")"));
}

#[test]
fn test_css_url_single_quoted() {
    let content = written_css(
        "custom.css",
        br#"@font-face { src: url('fonts/test-font.woff2') format('woff2'); }"#,
    );
    assert!(
        content.contains("url('fonts/test-font-"),
        "url not rewritten: {content}"
    );
    assert!(!content.contains("url('fonts/test-font.woff2')"));
}

#[test]
fn test_css_url_unquoted() {
    let content = written_css(
        "custom.css",
        b"@font-face { src: url(fonts/test-font.woff2); }",
    );
    assert!(
        content.contains("url(fonts/test-font-"),
        "url not rewritten: {content}"
    );
    assert!(!content.contains("url(fonts/test-font.woff2)"));
}

#[test]
fn test_css_url_subdirectory() {
    let content = written_css(
        "css/custom.css",
        br#"@font-face { src: url("../fonts/test-font.woff2") format("woff2"); }"#,
    );
    assert!(
        content.contains("url(\"../fonts/test-font-"),
        "url not rewritten: {content}"
    );
    assert!(!content.contains("url(\"../fonts/test-font.woff2\")"));
}

#[test]
fn test_css_url_absolute_unchanged() {
    let css_content = [
        r#"@import url("https://fonts.googleapis.com/css2?family=Test");"#,
        r#"div { background: url("//cdn.example.com/img.png"); }"#,
        r#"div { background: url("/absolute/path.png"); }"#,
        r#"div { background: url("data:image/png;base64,abc"); }"#,
    ]
    .join("\n");
    let content = written_css("custom.css", css_content.as_bytes());
    assert!(content.contains("url(\"https://fonts.googleapis.com/css2?family=Test\")"));
    assert!(content.contains("url(\"//cdn.example.com/img.png\")"));
    assert!(content.contains("url(\"/absolute/path.png\")"));
    assert!(content.contains("url(\"data:image/png;base64,abc\")"));
}

#[test]
fn test_css_url_unknown_path_unchanged() {
    let content = written_css("custom.css", br#"div { background: url("images/bg.png"); }"#);
    assert!(
        content.contains("url(\"images/bg.png\")"),
        "should be unchanged: {content}"
    );
}

#[test]
fn empty_contents_fingerprint() {
    assert_eq!(
        fingerprinted_name("book.js", b"", true),
        Some("book-e3b0c442.js".to_string())
    );
    assert_eq!(fingerprinted_name("LICENSE.txt", b"", true), None);
    assert_eq!(
        fingerprinted_name("LICENSE.txt", b"", false),
        Some("LICENSE-e3b0c442.txt".to_string())
    );
    assert_eq!(fingerprinted_name(".hidden", b"", true), None);
    assert_eq!(fingerprinted_name("noext", b"", true), None);
    assert_eq!(
        fingerprinted_name("fonts/a.b.woff2", b"", true),
        Some("fonts/a-e3b0c442.b.woff2".to_string())
    );
}

#[test]
fn static_files_follow_configuration_order() {
    let mut theme = empty_theme();
    theme.fonts_css = Some(Vec::new());
    let mut html_config = HtmlConfig::default();
    html_config.print.enable = false;
    html_config.additional_css.push("a.css".to_string());
    html_config.additional_js.push("b.js".to_string());
    let sf = StaticFiles::new(&theme, &html_config, "src", &no_bundled_assets());
    let names: Vec<String> = sf.static_files.iter().map(filename_of).collect();
    assert_eq!(
        names,
        vec![
            "book.js",
            "css/general.css",
            "css/chrome.css",
            "css/variables.css",
            "favicon.png",
            "favicon.svg",
            "highlight.css",
            "tomorrow-night.css",
            "ayu-highlight.css",
            "highlight.js",
            "clipboard.min.js",
            "a.css",
            "b.js",
        ]
    );
}

#[test]
fn bundled_fonts_and_editor_are_added_when_asked_for() {
    let theme = empty_theme();
    let mut html_config = HtmlConfig::default();
    html_config.playground.editable = true;
    let bundled = BundledAssets {
        fonts_css: b"fonts".to_vec(),
        font_files: vec![("fonts/OFL.txt".to_string(), b"licence".to_vec())],
        editor_files: vec![("editor.js".to_string(), b"editor".to_vec())],
    };
    let sf = StaticFiles::new(&theme, &html_config, "src", &bundled);
    let names: Vec<String> = sf.static_files.iter().map(filename_of).collect();
    assert!(names.contains(&"css/print.css".to_string()));
    assert!(names.contains(&"fonts/fonts.css".to_string()));
    assert!(names.contains(&"fonts/OFL.txt".to_string()));
    assert!(names.contains(&"editor.js".to_string()));
}

#[test]
fn hashing_records_each_renaming() {
    let mut sf = StaticFiles::new_empty();
    sf.add_builtin("book.js", b"");
    sf.add_builtin("LICENSE.txt", b"");
    sf.add_additional("src/x.css", "x.css");
    sf.hash_files(&vec![Vec::new()]);
    assert_eq!(
        sf.hash_map,
        vec![
            ("book.js".to_string(), "book-e3b0c442.js".to_string()),
            ("x.css".to_string(), "x-e3b0c442.css".to_string()),
        ]
    );
    let names: Vec<String> = sf.static_files.iter().map(filename_of).collect();
    assert_eq!(names, vec!["book-e3b0c442.js", "LICENSE.txt", "x-e3b0c442.css"]);
}

#[test]
fn resource_directives_use_the_path_to_root() {
    let hash = vec![("book.js".to_string(), "book-1.js".to_string())];
    let data = br#"a {{ resource "book.js" }} b {{ resource "other.js" }}"#;
    let out = rewrite_references(&hash, "dir/sub/page.js", data);
    assert_eq!(
        String::from_utf8(out).unwrap(),
        "a ../../book-1.js b ../../other.js"
    );
}

#[test]
fn splicing_keeps_text_between_matches() {
    let hash = vec![("f.js".to_string(), "f-1.js".to_string())];
    let data = b"xx{{ resource \"f.js\" }}yy";
    let matches = vec![(2usize, 23usize, vec![Some(data[2..23].to_vec()), Some(b"f.js".to_vec())])];
    let out = replace_resource_directives(&hash, "a.js", data, &matches);
    assert_eq!(String::from_utf8(out).unwrap(), "xxf-1.jsyy");
    let css = b"url(a.png) url('b.png')";
    let hash = vec![("b.png".to_string(), "b-1.png".to_string())];
    let matches = vec![
        (0usize, 10usize, vec![Some(css[0..10].to_vec()), None, None, Some(b"a.png".to_vec())]),
        (11usize, 23usize, vec![Some(css[11..23].to_vec()), None, Some(b"b.png".to_vec()), None]),
    ];
    let out = replace_css_urls(&hash, "x.css", css, &matches);
    assert_eq!(String::from_utf8(out).unwrap(), "url(a.png) url('b-1.png')");
}

#[test]
fn resource_helper_prefers_the_given_root() {
    let helper = ResourceHelper {
        hash_map: vec![("book.js".to_string(), "book-1.js".to_string())],
    };
    assert_eq!(
        helper.render(Some("\"../\""), Some("a/b.md"), "book.js"),
        Some("../book-1.js".to_string())
    );
    assert_eq!(
        helper.render(Some(""), Some("a/b/c.md"), "x.css"),
        Some("../../x.css".to_string())
    );
    assert_eq!(helper.render(None, None, "x.css"), None);
}
