use mdbook_verified::toml_ext::TomlValue;
use mdbook_verified::config::{
    config_section, Config, ConfigKeyError, ConfigSection,
    parse_env, BookConfig, BuildConfig, HtmlConfig, Search, TextDirection,
};

#[test]
fn parse_env_vars() {
    let inputs = vec![
        ("FOO", None),
        ("MDBOOK_foo", Some("foo")),
        ("MDBOOK_FOO__bar__baz", Some("foo.bar.baz")),
        ("MDBOOK_FOO_bar__baz", Some("foo-bar.baz")),
    ];

    for (src, should_be) in inputs {
        let got = parse_env(src);
        let should_be = should_be.map(ToString::to_string);

        assert_eq!(got, should_be);
    }
}

#[test]
fn test_text_direction() {
    let mut cfg = BookConfig::default();

    cfg.language = Some("ar".into());
    assert_eq!(cfg.realized_text_direction(), TextDirection::RightToLeft);

    cfg.language = Some("he".into());
    assert_eq!(cfg.realized_text_direction(), TextDirection::RightToLeft);

    cfg.language = Some("en".into());
    assert_eq!(cfg.realized_text_direction(), TextDirection::LeftToRight);

    cfg.language = Some("ja".into());
    assert_eq!(cfg.realized_text_direction(), TextDirection::LeftToRight);

    cfg.language = Some("ar".into());
    cfg.text_direction = Some(TextDirection::LeftToRight);
    assert_eq!(cfg.realized_text_direction(), TextDirection::LeftToRight);

    cfg.language = Some("ar".into());
    cfg.text_direction = Some(TextDirection::RightToLeft);
    assert_eq!(cfg.realized_text_direction(), TextDirection::RightToLeft);

    cfg.language = Some("en".into());
    cfg.text_direction = Some(TextDirection::LeftToRight);
    assert_eq!(cfg.realized_text_direction(), TextDirection::LeftToRight);

    cfg.language = Some("en".into());
    cfg.text_direction = Some(TextDirection::RightToLeft);
    assert_eq!(cfg.realized_text_direction(), TextDirection::RightToLeft);
}

#[test]
fn file_404_default() {
    let html_config = HtmlConfig::default();
    assert_eq!(html_config.input_404, None);
    assert_eq!(html_config.get_404_output_file(), "404.html");
}

#[test]
fn file_404_custom() {
    let mut html_config = HtmlConfig::default();
    html_config.input_404 = Some("missing.md".to_string());
    assert_eq!(html_config.get_404_output_file(), "missing.html");
}

#[test]
fn file_404_replaces_every_md() {
    let mut html_config = HtmlConfig::default();
    html_config.input_404 = Some("a.md/b.md".to_string());
    assert_eq!(html_config.get_404_output_file(), "a.html/b.html");
}

#[test]
fn language_without_code_is_left_to_right() {
    let mut cfg = BookConfig::default();
    cfg.language = None;
    assert_eq!(cfg.realized_text_direction(), TextDirection::LeftToRight);
    assert_eq!(TextDirection::from_lang_code("yid"), TextDirection::RightToLeft);
    assert_eq!(TextDirection::from_lang_code("AR"), TextDirection::LeftToRight);
}

#[test]
fn theme_dir_joins_root() {
    let mut cfg = HtmlConfig::default();
    assert_eq!(cfg.theme_dir("/book"), "/book/theme");
    assert_eq!(cfg.theme_dir("/book/"), "/book/theme");
    cfg.theme = Some("./themedir".to_string());
    assert_eq!(cfg.theme_dir("root"), "root/./themedir");
    cfg.theme = Some("/abs".to_string());
    assert_eq!(cfg.theme_dir("root"), "/abs");
}

#[test]
fn defaults_match_documentation() {
    let book = BookConfig::default();
    assert_eq!(book.src, "src");
    assert_eq!(book.language, Some("en".to_string()));
    let build = BuildConfig::default();
    assert_eq!(build.build_dir, "book");
    assert!(build.create_missing && build.use_default_preprocessors);
    let search = Search::default();
    assert_eq!(search.limit_results, 30);
    assert_eq!(search.heading_split_level, 3);
    let html = HtmlConfig::default();
    assert!(html.print.enable && html.playground.runnable && !html.playground.editable);
}

#[test]
fn set_invalid_keys() {
    let mut cfg: Config<String> = Config::default();
    let err = cfg
        .set("foo", TomlValue::Leaf("test".to_string()))
        .unwrap_err();
    assert!(err.message().contains("invalid key `foo`"));
}

#[test]
fn set_and_get_renderer_and_preprocessor_tables() {
    let mut cfg: Config<String> = Config::default();
    assert!(cfg.get("output.html").unwrap().is_none());

    assert_eq!(cfg.set("output.foo.value", TomlValue::Leaf("123".to_string())), Ok(None));
    assert_eq!(
        cfg.get("output.foo.value").unwrap(),
        Some(&TomlValue::Leaf("123".to_string()))
    );

    assert_eq!(
        cfg.set("preprocessor.bar.value", TomlValue::Leaf("456".to_string())),
        Ok(None)
    );
    assert_eq!(
        cfg.get("preprocessor.bar.value").unwrap(),
        Some(&TomlValue::Leaf("456".to_string()))
    );
    assert!(cfg.get("output.bar.value").unwrap().is_none());
}

#[test]
fn set_hands_typed_tables_back() {
    let mut cfg: Config<String> = Config::default();
    let got = cfg.set("book.title", TomlValue::Leaf("my title".to_string()));
    assert_eq!(got, Ok(Some((ConfigSection::Book, "title".to_string()))));
    assert_eq!(cfg.book.title, None);
    let got = cfg.set("build.build-dir", TomlValue::Leaf("x".to_string()));
    assert_eq!(got, Ok(Some((ConfigSection::Build, "build-dir".to_string()))));
    let got = cfg.set("rust.edition", TomlValue::Leaf("2024".to_string()));
    assert_eq!(got, Ok(Some((ConfigSection::Rust, "edition".to_string()))));
    assert_eq!(cfg, Config::default());
}

#[test]
fn get_refuses_other_tables() {
    let cfg: Config<String> = Config::default();
    let err = cfg.get("book.title").unwrap_err();
    assert_eq!(err, ConfigKeyError::NotReadable("book.title".to_string()));
    assert_eq!(
        err.message(),
        "unable to get `book.title`, only `output` and `preprocessor` table entries are allowed"
    );
}

#[test]
fn config_keys_split_at_their_table() {
    assert_eq!(
        config_section("preprocessor.links.renderers"),
        Some((ConfigSection::Preprocessor, "links.renderers".to_string()))
    );
    assert_eq!(config_section("output."), Some((ConfigSection::Output, "".to_string())));
    assert_eq!(config_section("books.title"), None);
    assert_eq!(config_section("output"), None);
}
