use mdbook_verified::path_order::normalize_path;
use mdbook_verified::static_urls::{make_url_relative, normalize_url_path};
use mdbook_verified::take_lines::{
    take_anchored_lines, take_lines, take_rustdoc_anchored_lines, take_rustdoc_lines, LineBound,
};

fn marked(v: Vec<(String, bool)>) -> Vec<String> {
    v.into_iter().filter(|(_, f)| *f).map(|(l, _)| l).collect()
}

#[test]
fn anchored_lines_are_the_marked_rustdoc_lines() {
    let s = "a\n// ANCHOR: x\nb\n// ANCHOR: y\nc\n// ANCHOR_END: y\nd\n// ANCHOR_END: x\ne\n// ANCHOR: x\nf\n";
    for anchor in ["x", "y", "z"] {
        assert_eq!(take_anchored_lines(s, anchor), marked(take_rustdoc_anchored_lines(s, anchor)));
    }
    assert_eq!(take_anchored_lines(s, "x"), vec!["b", "c", "d", "f"]);
}

#[test]
fn range_lines_are_the_marked_rustdoc_lines() {
    let s = "0\n1\n2\n3\n4\n5";
    let ranges = [
        (LineBound::Included(1), LineBound::Excluded(4)),
        (LineBound::Included(4), LineBound::Excluded(3)),
        (LineBound::Unbounded, LineBound::Excluded(100)),
        (LineBound::Excluded(2), LineBound::Included(3)),
        (LineBound::Included(7), LineBound::Unbounded),
        (LineBound::Unbounded, LineBound::Unbounded),
    ];
    for (start, end) in ranges {
        assert_eq!(take_lines(s, start, end), marked(take_rustdoc_lines(s, start, end)));
    }
    assert!(take_lines(s, LineBound::Included(4), LineBound::Excluded(3)).is_empty());
    assert_eq!(take_lines(s, LineBound::Unbounded, LineBound::Excluded(100)).len(), 6);
}

#[test]
fn normalizing_a_path_twice_changes_nothing() {
    for p in ["a/b/../c", "../../a", "/../a", "a/..", "./a/./b/", "a/../../b/c", "/", "", "..", "a//b"] {
        let once = normalize_path(p);
        assert_eq!(normalize_path(&once), once, "{p}");
    }
    assert_eq!(normalize_path("/../a"), "/a");
    assert_eq!(normalize_path("a/.."), "");
}

#[test]
fn following_a_relative_url_leads_to_the_target() {
    let cases = [
        ("a/b", "a/c/d.css"),
        ("", "x.js"),
        ("a/b/c", "a/b/c"),
        ("a", "b/c"),
        ("x/y", "x"),
    ];
    for (from, target) in cases {
        let rel = make_url_relative(from, target);
        assert_eq!(normalize_url_path(&format!("{from}/{rel}")), normalize_url_path(target), "{from} {target}");
    }
}
