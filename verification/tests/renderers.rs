use mdbook_verified::preprocessors::{
    determine_preprocessors, PreprocessorChoice, PreprocessorConfig, PreprocessorOrderError,
};
use mdbook_verified::renderers::{
    determine_renderers, preprocessor_should_run, resolve_run, RendererChoice, RunDecision,
};

fn table(command: Option<&str>, before: &[&str], after: &[&str]) -> PreprocessorConfig {
    PreprocessorConfig {
        command: command.map(|c| c.to_string()),
        before: before.iter().map(|s| s.to_string()).collect(),
        after: after.iter().map(|s| s.to_string()).collect(),
        optional: false,
    }
}

fn names(got: &[PreprocessorChoice]) -> Vec<String> {
    got.iter().map(|p| p.name()).collect()
}

fn position(names: &[String], name: &str) -> usize {
    names.iter().position(|n| n == name).unwrap()
}

#[test]
fn config_defaults_to_html_renderer_if_empty() {
    let got = determine_renderers(&Vec::new());
    assert_eq!(got.len(), 1);
    assert_eq!(got[0].name(), "html");
}

#[test]
fn add_a_random_renderer_to_the_config() {
    let got = determine_renderers(&vec![("random".to_string(), None)]);
    assert_eq!(got.len(), 1);
    assert_eq!(got[0].name(), "random");
}

#[test]
fn add_a_random_renderer_with_custom_command_to_the_config() {
    let got = determine_renderers(&vec![("random".to_string(), Some("false".to_string()))]);
    assert_eq!(got.len(), 1);
    assert_eq!(got[0].name(), "random");
    match &got[0] {
        RendererChoice::Command(c) => assert_eq!(c.cmd(), "false"),
        _ => panic!("expected a command renderer"),
    }
}

#[test]
fn renderers_sorted_by_name() {
    let got = determine_renderers(&vec![
        ("xyz".to_string(), None),
        ("abc".to_string(), None),
    ]);
    let names: Vec<_> = got.iter().map(|p| p.name()).collect();
    assert_eq!(names, ["abc", "xyz"]);
    match &got[0] {
        RendererChoice::Command(c) => assert_eq!(c.cmd(), "mdbook-abc"),
        _ => panic!("expected a command renderer"),
    }
}

#[test]
fn builtin_renderers_are_recognised() {
    let got = determine_renderers(&vec![
        ("markdown".to_string(), None),
        ("html".to_string(), Some("ignored".to_string())),
    ]);
    assert_eq!(got, vec![RendererChoice::Html, RendererChoice::Markdown]);
}

#[test]
fn config_defaults_to_link_and_index_preprocessor_if_not_set() {
    let got = determine_preprocessors(true, &Vec::new(), "").unwrap();
    assert_eq!(names(&got), ["index", "links"]);
}

#[test]
fn use_default_preprocessors_works() {
    let got = determine_preprocessors(false, &Vec::new(), "").unwrap();
    assert_eq!(got.len(), 0);
}

#[test]
fn can_determine_third_party_preprocessors() {
    let got = determine_preprocessors(
        true,
        &vec![("random".to_string(), table(None, &[], &[]))],
        "",
    )
    .unwrap();
    assert!(names(&got).contains(&"random".to_string()));
    let random = got.iter().find_map(|p| match p {
        PreprocessorChoice::Command(c) => Some(c),
        _ => None,
    });
    assert_eq!(random.unwrap().cmd(), "mdbook-random");
}

#[test]
fn preprocessors_can_provide_their_own_commands() {
    let got = determine_preprocessors(
        false,
        &vec![("random".to_string(), table(Some("python random.py"), &[], &[]))],
        "/book",
    )
    .unwrap();
    match &got[0] {
        PreprocessorChoice::Command(c) => {
            assert_eq!(c.cmd(), "python random.py");
            assert_eq!(c.root(), "/book");
        }
        _ => panic!("expected a command preprocessor"),
    }
}

#[test]
fn preprocessor_order_is_honored() {
    let got = determine_preprocessors(
        true,
        &vec![
            ("random".to_string(), table(None, &["last"], &["index"])),
            ("last".to_string(), table(None, &[], &["links", "index"])),
        ],
        "",
    )
    .unwrap();
    let names = names(&got);
    let assert_before = |before: &str, after: &str| {
        if position(&names, before) >= position(&names, after) {
            panic!("{before} should come before {after}");
        }
    };
    assert_before("index", "random");
    assert_before("index", "last");
    assert_before("random", "last");
    assert_before("links", "last");
}

#[test]
fn cyclic_dependencies_are_detected() {
    let got = determine_preprocessors(
        true,
        &vec![
            ("links".to_string(), table(None, &["index"], &[])),
            ("index".to_string(), table(None, &["links"], &[])),
        ],
        "",
    );
    assert_eq!(
        got.err(),
        Some(PreprocessorOrderError::CyclicDependency)
    );
}

#[test]
fn dependencies_dont_register_undefined_preprocessors() {
    let got = determine_preprocessors(
        true,
        &vec![("links".to_string(), table(None, &["random"], &[]))],
        "",
    )
    .unwrap();
    assert_eq!(names(&got), ["index", "links"]);
}

#[test]
fn dependencies_dont_register_builtin_preprocessors_if_disabled() {
    let got = determine_preprocessors(
        false,
        &vec![("random".to_string(), table(None, &["links"], &[]))],
        "",
    )
    .unwrap();
    assert_eq!(names(&got), ["random"]);
}

#[test]
fn preprocessor_sorted_by_name() {
    let got = determine_preprocessors(
        true,
        &vec![
            ("xyz".to_string(), table(None, &[], &[])),
            ("abc".to_string(), table(None, &[], &[])),
        ],
        "",
    )
    .unwrap();
    assert_eq!(names(&got), ["abc", "index", "links", "xyz"]);
}

#[test]
fn later_rounds_follow_earlier_ones() {
    let got = determine_preprocessors(
        false,
        &vec![
            ("a".to_string(), table(None, &[], &["z"])),
            ("z".to_string(), table(None, &[], &[])),
            ("m".to_string(), table(None, &[], &[])),
        ],
        "",
    )
    .unwrap();
    assert_eq!(names(&got), ["m", "z", "a"]);
}

#[test]
fn config_respects_preprocessor_selection() {
    let renderers = vec!["html".to_string()];
    // `links` is a default preprocessor: it is asked, and it supports every renderer.
    let decision = preprocessor_should_run(true, "links", Some(&renderers), "html");
    assert!(resolve_run(decision, true));
    let decision = preprocessor_should_run(false, "links", Some(&renderers), "html");
    assert_eq!(decision, RunDecision::Run);
    let decision = preprocessor_should_run(false, "links", Some(&renderers), "markdown");
    assert_eq!(decision, RunDecision::Skip);
}

#[test]
fn preprocessor_should_run_falls_back_to_supports_renderer_method() {
    let decision = preprocessor_should_run(true, "bool-preprocessor", None, "html");
    assert_eq!(decision, RunDecision::AskPreprocessor);
    let should_be = true;
    assert_eq!(resolve_run(decision, should_be), should_be);
    let should_be = false;
    assert_eq!(resolve_run(decision, should_be), should_be);
}
