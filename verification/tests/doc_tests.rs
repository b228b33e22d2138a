use mdbook_verified::config::RustEdition;
use mdbook_verified::doc_tests::{is_chapter_tested, library_args, rustdoc_args, test_outcome, TestError};

#[test]
fn library_paths_are_made_absolute() {
    let args = library_args(
        &vec!["target/debug/deps".to_string(), "/abs/lib".to_string()],
        "/work",
    );
    assert_eq!(args, vec!["-L", "/work/target/debug/deps", "-L", "/abs/lib"]);
}

#[test]
fn chapters_are_selected_by_name_or_path() {
    assert!(is_chapter_tested("Intro", Some("intro.md"), None));
    assert!(!is_chapter_tested("Intro", Some(""), None));
    assert!(!is_chapter_tested("Draft", None, None));
    assert!(is_chapter_tested("Intro", Some("intro.md"), Some("Intro")));
    assert!(is_chapter_tested("Intro", Some("intro.md"), Some("intro.md")));
    assert!(!is_chapter_tested("Intro", Some("intro.md"), Some("?")));
}

#[test]
fn rustdoc_gets_edition_and_color() {
    let lib = vec!["-L".to_string(), "/l".to_string()];
    assert_eq!(
        rustdoc_args("a.md", &lib, Some(RustEdition::E2021), true),
        vec!["a.md", "--test", "-L", "/l", "--edition", "2021", "--color", "always"]
    );
    assert_eq!(
        rustdoc_args("a.md", &Vec::new(), None, false),
        vec!["a.md", "--test"]
    );
    assert_eq!(
        rustdoc_args("a.md", &Vec::new(), Some(RustEdition::E2015), false),
        vec!["a.md", "--test", "--edition", "2015"]
    );
}

#[test]
fn test_outcomes() {
    assert_eq!(test_outcome(true, false, Some("x")), Err(TestError::Failed));
    assert_eq!(test_outcome(false, false, Some("Intro")), Err(TestError::ChapterNotFound("Intro".to_string())));
    assert_eq!(test_outcome(false, true, Some("Intro")), Ok(()));
    assert_eq!(test_outcome(false, false, None), Ok(()));
    assert_eq!(TestError::Failed.message(), "One or more tests failed");
    assert_eq!(TestError::ChapterNotFound("Intro".to_string()).message(), "Chapter not found: Intro");
}
