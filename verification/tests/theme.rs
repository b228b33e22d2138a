use mdbook_verified::theme::{FontEntry, FontsDir, Theme, ThemeOverrides};

fn defaults() -> Theme {
    let d = |s: &str| s.as_bytes().to_vec();
    Theme {
        index: d("index"),
        head: d("head"),
        redirect: d("redirect"),
        header: d("header"),
        toc_js: d("toc.js"),
        toc_html: d("toc.html"),
        chrome_css: d("chrome"),
        general_css: d("general"),
        print_css: d("print"),
        variables_css: d("variables"),
        fonts_css: None,
        font_files: Vec::new(),
        favicon_png: Some(d("png")),
        favicon_svg: Some(d("svg")),
        js: d("js"),
        highlight_css: d("highlight.css"),
        tomorrow_night_css: d("tomorrow"),
        ayu_highlight_css: d("ayu"),
        highlight_js: d("highlight.js"),
        clipboard_js: d("clipboard"),
    }
}

fn nothing_read() -> ThemeOverrides {
    ThemeOverrides {
        index: None,
        head: None,
        redirect: None,
        header: None,
        toc_js: None,
        toc_html: None,
        js: None,
        chrome_css: None,
        general_css: None,
        print_css: None,
        variables_css: None,
        highlight_js: None,
        clipboard_js: None,
        highlight_css: None,
        tomorrow_night_css: None,
        ayu_highlight_css: None,
        fonts_dir: None,
        favicon_png: None,
        favicon_svg: None,
    }
}

#[test]
fn theme_uses_defaults_with_nonexistent_src_dir() {
    let should_be = defaults();
    let got = Theme::with_overrides(defaults(), None);
    assert_eq!(got, should_be);
}

#[test]
fn theme_dir_overrides_defaults() {
    let e = || Some(Vec::new());
    let overrides = ThemeOverrides {
        index: e(),
        head: e(),
        redirect: e(),
        header: e(),
        toc_js: e(),
        toc_html: e(),
        js: e(),
        chrome_css: e(),
        general_css: e(),
        print_css: e(),
        variables_css: e(),
        highlight_js: e(),
        clipboard_js: e(),
        highlight_css: e(),
        tomorrow_night_css: e(),
        ayu_highlight_css: e(),
        fonts_dir: Some(FontsDir {
            fonts_css: e(),
            entries: Some(vec![FontEntry {
                path: "theme/fonts/fonts.css".to_string(),
                file_name: "fonts.css".to_string(),
                is_dir: Some(false),
            }]),
        }),
        favicon_png: e(),
        favicon_svg: e(),
    };
    let got = Theme::with_overrides(defaults(), Some(overrides));
    let empty = Theme {
        index: Vec::new(),
        head: Vec::new(),
        redirect: Vec::new(),
        header: Vec::new(),
        toc_js: Vec::new(),
        toc_html: Vec::new(),
        chrome_css: Vec::new(),
        general_css: Vec::new(),
        print_css: Vec::new(),
        variables_css: Vec::new(),
        fonts_css: Some(Vec::new()),
        font_files: Vec::new(),
        favicon_png: Some(Vec::new()),
        favicon_svg: Some(Vec::new()),
        js: Vec::new(),
        highlight_css: Vec::new(),
        tomorrow_night_css: Vec::new(),
        ayu_highlight_css: Vec::new(),
        highlight_js: Vec::new(),
        clipboard_js: Vec::new(),
    };
    assert_eq!(got, empty);
}

#[test]
fn favicon_override() {
    let mut overrides = nothing_read();
    overrides.favicon_png = Some(b"1234".to_vec());
    let got = Theme::with_overrides(defaults(), Some(overrides));
    assert_eq!(got.favicon_png.as_ref().unwrap(), b"1234");
    assert_eq!(got.favicon_svg, None);

    let mut overrides = nothing_read();
    overrides.favicon_svg = Some(b"4567".to_vec());
    let got = Theme::with_overrides(defaults(), Some(overrides));
    assert_eq!(got.favicon_png, None);
    assert_eq!(got.favicon_svg.as_ref().unwrap(), b"4567");
}

#[test]
fn font_files_skip_directories_and_the_stylesheet() {
    let mut overrides = nothing_read();
    let entry = |name: &str, is_dir: Option<bool>| FontEntry {
        path: format!("theme/fonts/{name}"),
        file_name: name.to_string(),
        is_dir,
    };
    overrides.fonts_dir = Some(FontsDir {
        fonts_css: None,
        entries: Some(vec![
            entry("a.woff2", Some(false)),
            entry("fonts.css", Some(false)),
            entry("sub", Some(true)),
            entry("unknown", None),
            entry("b.ttf", Some(false)),
        ]),
    });
    let got = Theme::with_overrides(defaults(), Some(overrides));
    assert_eq!(
        got.font_files,
        vec!["theme/fonts/a.woff2", "theme/fonts/b.ttf"]
    );
    assert_eq!(got.fonts_css, None);
    assert_eq!(got.index, b"index");
    assert_eq!(got.favicon_png.as_deref(), Some(&b"png"[..]));
}
