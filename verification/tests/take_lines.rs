use mdbook_verified::take_lines::{
    take_anchored_lines, take_lines, take_rustdoc_anchored_lines, take_rustdoc_lines, LineBound,
};
use LineBound::{Excluded, Included, Unbounded};

fn show(v: Vec<(String, bool)>) -> String {
    v.into_iter()
        .map(|(line, show)| format!("{}{line}", show.then_some("").unwrap_or("# ")))
        .collect::<Vec<_>>()
        .join("\n")
}

#[test]
fn take_lines_test() {
    let s = "Lorem\nipsum\ndolor\nsit\namet";
    assert_eq!(take_lines(s, Included(1), Excluded(3)).join("\n"), "ipsum\ndolor");
    assert_eq!(take_lines(s, Included(3), Unbounded).join("\n"), "sit\namet");
    assert_eq!(
        take_lines(s, Unbounded, Excluded(3)).join("\n"),
        "Lorem\nipsum\ndolor"
    );
    assert_eq!(take_lines(s, Unbounded, Unbounded).join("\n"), s);
    // corner cases
    assert_eq!(take_lines(s, Included(4), Excluded(3)).join("\n"), "");
    assert_eq!(take_lines(s, Unbounded, Excluded(100)).join("\n"), s);
}

#[test]
fn take_anchored_lines_test() {
    let s = "Lorem\nipsum\ndolor\nsit\namet";
    assert_eq!(take_anchored_lines(s, "test").join("\n"), "");

    let s = "Lorem\nipsum\ndolor\nANCHOR_END: test\nsit\namet";
    assert_eq!(take_anchored_lines(s, "test").join("\n"), "");

    let s = "Lorem\nipsum\nANCHOR: test\ndolor\nsit\namet";
    assert_eq!(take_anchored_lines(s, "test").join("\n"), "dolor\nsit\namet");
    assert_eq!(take_anchored_lines(s, "something").join("\n"), "");

    let s = "Lorem\nipsum\nANCHOR: test\ndolor\nsit\namet\nANCHOR_END: test\nlorem\nipsum";
    assert_eq!(take_anchored_lines(s, "test").join("\n"), "dolor\nsit\namet");
    assert_eq!(take_anchored_lines(s, "something").join("\n"), "");

    let s = "Lorem\nANCHOR: test\nipsum\nANCHOR: test\ndolor\nsit\namet\nANCHOR_END: test\nlorem\nipsum";
    assert_eq!(
        take_anchored_lines(s, "test").join("\n"),
        "ipsum\ndolor\nsit\namet"
    );
    assert_eq!(take_anchored_lines(s, "something").join("\n"), "");

    let s = "Lorem\nANCHOR:    test2\nipsum\nANCHOR: test\ndolor\nsit\namet\nANCHOR_END: test\nlorem\nANCHOR_END:test2\nipsum";
    assert_eq!(
        take_anchored_lines(s, "test2").join("\n"),
        "ipsum\ndolor\nsit\namet\nlorem"
    );
    assert_eq!(take_anchored_lines(s, "test").join("\n"), "dolor\nsit\namet");
    assert_eq!(take_anchored_lines(s, "something").join("\n"), "");

    let s = "Lorem\nANCHOR: test\nipsum\nANCHOR_END: test\ndolor\nANCHOR: test\nsit\nANCHOR_END: test\namet";
    assert_eq!(take_anchored_lines(s, "test").join("\n"), "ipsum\nsit");
}

#[test]
fn take_rustdoc_lines_test() {
    let s = "Lorem\nipsum\ndolor\nsit\namet";
    assert_eq!(
        show(take_rustdoc_lines(s, Included(1), Excluded(3))),
        "# Lorem\nipsum\ndolor\n# sit\n# amet"
    );
    assert_eq!(
        show(take_rustdoc_lines(s, Included(3), Unbounded)),
        "# Lorem\n# ipsum\n# dolor\nsit\namet"
    );
    assert_eq!(
        show(take_rustdoc_lines(s, Unbounded, Excluded(3))),
        "Lorem\nipsum\ndolor\n# sit\n# amet"
    );
    assert_eq!(show(take_rustdoc_lines(s, Unbounded, Unbounded)), s);
    // corner cases
    assert_eq!(
        show(take_rustdoc_lines(s, Included(4), Excluded(3))),
        "# Lorem\n# ipsum\n# dolor\n# sit\n# amet"
    );
    assert_eq!(show(take_rustdoc_lines(s, Unbounded, Excluded(100))), s);
}

#[test]
fn take_rustdoc_anchored_lines_test() {
    let s = "Lorem\nipsum\ndolor\nsit\namet";
    assert_eq!(
        show(take_rustdoc_anchored_lines(s, "test")),
        "# Lorem\n# ipsum\n# dolor\n# sit\n# amet"
    );

    let s = "Lorem\nipsum\ndolor\nANCHOR_END: test\nsit\namet";
    assert_eq!(
        show(take_rustdoc_anchored_lines(s, "test")),
        "# Lorem\n# ipsum\n# dolor\n# sit\n# amet"
    );

    let s = "Lorem\nipsum\nANCHOR: test\ndolor\nsit\namet";
    assert_eq!(
        show(take_rustdoc_anchored_lines(s, "test")),
        "# Lorem\n# ipsum\ndolor\nsit\namet"
    );
    assert_eq!(
        show(take_rustdoc_anchored_lines(s, "something")),
        "# Lorem\n# ipsum\n# dolor\n# sit\n# amet"
    );

    let s = "Lorem\nipsum\nANCHOR: test\ndolor\nsit\namet\nANCHOR_END: test\nlorem\nipsum";
    assert_eq!(
        show(take_rustdoc_anchored_lines(s, "test")),
        "# Lorem\n# ipsum\ndolor\nsit\namet\n# lorem\n# ipsum"
    );
    assert_eq!(
        show(take_rustdoc_anchored_lines(s, "something")),
        "# Lorem\n# ipsum\n# dolor\n# sit\n# amet\n# lorem\n# ipsum"
    );

    let s = "Lorem\nANCHOR: test\nipsum\nANCHOR: test\ndolor\nsit\namet\nANCHOR_END: test\nlorem\nipsum";
    assert_eq!(
        show(take_rustdoc_anchored_lines(s, "test")),
        "# Lorem\nipsum\ndolor\nsit\namet\n# lorem\n# ipsum"
    );
    assert_eq!(
        show(take_rustdoc_anchored_lines(s, "something")),
        "# Lorem\n# ipsum\n# dolor\n# sit\n# amet\n# lorem\n# ipsum"
    );

    let s = "Lorem\nANCHOR:    test2\nipsum\nANCHOR: test\ndolor\nsit\namet\nANCHOR_END: test\nlorem\nANCHOR_END:test2\nipsum";
    assert_eq!(
        show(take_rustdoc_anchored_lines(s, "test2")),
        "# Lorem\nipsum\ndolor\nsit\namet\nlorem\n# ipsum"
    );
    assert_eq!(
        show(take_rustdoc_anchored_lines(s, "test")),
        "# Lorem\n# ipsum\ndolor\nsit\namet\n# lorem\n# ipsum"
    );
    assert_eq!(
        show(take_rustdoc_anchored_lines(s, "something")),
        "# Lorem\n# ipsum\n# dolor\n# sit\n# amet\n# lorem\n# ipsum"
    );

    let s = "Lorem\nANCHOR: test\nipsum\nANCHOR_END: test\ndolor\nANCHOR: test\nsit\nANCHOR_END: test\namet";
    assert_eq!(
        show(take_rustdoc_anchored_lines(s, "test")),
        "# Lorem\nipsum\n# dolor\nsit\n# amet"
    );
}

#[test]
fn lines_strip_carriage_returns() {
    let s = "a\r\nb\r\n\nc\r";
    assert_eq!(take_lines(s, Unbounded, Unbounded), vec!["a", "b", "", "c\r"]);
    assert_eq!(take_lines("", Unbounded, Unbounded), Vec::<String>::new());
    assert_eq!(take_lines("x\n", Unbounded, Unbounded), vec!["x"]);
    assert_eq!(take_lines(s, Excluded(0), Included(1)), vec!["b"]);
}
