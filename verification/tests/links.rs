use mdbook_verified::command::{compose_command, handle_command_error, CommandFailure, ComposeError};
use mdbook_verified::links::{fix_link, fix_readme_link, is_readme_file, readme_to_index};

#[test]
fn file_stem_exactly_matches_readme_case_insensitively() {
    let path = "path/to/Readme.md";
    assert!(is_readme_file(path));

    let path = "path/to/README.md";
    assert!(is_readme_file(path));

    let path = "path/to/rEaDmE.md";
    assert!(is_readme_file(path));

    let path = "path/to/README.markdown";
    assert!(is_readme_file(path));

    let path = "path/to/README";
    assert!(is_readme_file(path));

    let path = "path/to/README-README.md";
    assert!(!is_readme_file(path));
}

#[test]
fn readme_paths_become_index_paths() {
    assert_eq!(readme_to_index("path/to/README.md"), "path/to/index.md");
    assert_eq!(readme_to_index("README.md"), "index.md");
    assert_eq!(readme_to_index("path/to/other.md"), "path/to/other.md");
}

#[test]
fn readme_links_are_fixed_only_when_relative() {
    assert_eq!(fix_readme_link("path/to/README.md"), "path/to/index.md");
    assert_eq!(
        fix_readme_link("https://example.com/README.md"),
        "https://example.com/README.md"
    );
    assert_eq!(fix_readme_link(""), "");
}

#[test]
fn markdown_links_point_at_html_pages() {
    assert_eq!(fix_link("example.md"), "example.html");
    assert_eq!(fix_link("example.md#anchor"), "example.html#anchor");
    assert_eq!(fix_link("foo.html#phantomdata"), "foo.html#phantomdata");
    assert_eq!(fix_link("https://www.rust-lang.org/"), "https://www.rust-lang.org/");
    assert_eq!(fix_link("#section"), "#section");
    assert_eq!(fix_link("dir/page.md"), "dir/page.html");
}

#[test]
fn commands_are_split_into_program_and_arguments() {
    let parts = compose_command("python random.py --flag", "/book").unwrap();
    assert_eq!(parts.program, "python");
    assert_eq!(parts.args, vec!["random.py", "--flag"]);
    let parts = compose_command("./bin/tool 'a b'", "/book").unwrap();
    assert_eq!(parts.program, "/book/./bin/tool");
    assert_eq!(parts.args, vec!["a b"]);
    assert_eq!(compose_command("   ", "/book"), Err(ComposeError::EmptyCommand));
}

#[test]
fn only_missing_optional_commands_are_ignored() {
    assert_eq!(
        handle_command_error(true, true, "output", "backend", "pdf", "mdbook-pdf"),
        CommandFailure::Ignored(
            "The command `mdbook-pdf` for backend `pdf` was not found, but is marked as optional.".to_string()
        )
    );
    assert_eq!(
        handle_command_error(true, false, "preprocessor", "preprocessor", "toc", "mdbook-toc"),
        CommandFailure::Reported {
            note: Some(
                "The command `mdbook-toc` wasn't found, is the `toc` preprocessor installed? \
                 If you want to ignore this error when the `toc` preprocessor is not installed, \
                 set `optional = true` in the `[preprocessor.toc]` section of the book.toml configuration file."
                    .to_string()
            ),
            context: "Unable to run the preprocessor `toc`".to_string(),
        }
    );
    assert_eq!(
        handle_command_error(false, true, "output", "backend", "pdf", "mdbook-pdf"),
        CommandFailure::Reported { note: None, context: "Unable to run the backend `pdf`".to_string() }
    );
}
