use mdbook_verified::redirects::{
    combine_fragment_redirects, redirect_action, redirect_file, CombinedRedirect, RedirectError,
};
use std::collections::HashMap;

fn map(entries: &[(&str, &str)]) -> HashMap<String, String> {
    entries.iter().map(|(k, v)| (k.to_string(), v.to_string())).collect()
}

fn frags(c: &CombinedRedirect) -> Vec<(&str, &str)> {
    c.fragments.iter().map(|(f, d)| (f.as_str(), d.as_str())).collect()
}

#[test]
fn redirects_are_grouped_by_page_in_order() {
    let redirects = map(&[
        ("/z.html#f", "q.html"),
        ("/a.html", "b.html"),
        ("/a.html#x", "c.html#y"),
        ("/a.html#w", "https://example.com/"),
        ("/p#q#r", "t"),
    ]);
    let got = combine_fragment_redirects(&redirects);
    let pages: Vec<&str> = got.iter().map(|c| c.source.as_str()).collect();
    assert_eq!(pages, vec!["/a.html", "/p#q", "/z.html"]);

    assert_eq!(got[0].dest, "b.html");
    assert_eq!(frags(&got[0]), vec![("#w", "https://example.com/"), ("#x", "c.html#y")]);
    assert_eq!(got[1].dest, "");
    assert_eq!(frags(&got[1]), vec![("#r", "t")]);
    assert_eq!(got[2].dest, "");
    assert_eq!(frags(&got[2]), vec![("#f", "q.html")]);
}

#[test]
fn no_redirects_give_no_pages() {
    assert!(combine_fragment_redirects(&HashMap::new()).is_empty());
}

#[test]
fn a_fragment_may_be_empty() {
    let got = combine_fragment_redirects(&map(&[("/a.html#", "b.html")]));
    assert_eq!(got.len(), 1);
    assert_eq!(got[0].source, "/a.html");
    assert_eq!(frags(&got[0]), vec![("#", "b.html")]);
}

#[test]
fn redirect_files_drop_leading_slashes() {
    assert_eq!(redirect_file("/a/b.html"), "a/b.html");
    assert_eq!(redirect_file("//a.html"), "a.html");
    assert_eq!(redirect_file("a.html"), "a.html");
}

#[test]
fn existing_pages_are_left_to_their_fragment_maps() {
    let c = CombinedRedirect {
        source: "/a.html".to_string(),
        dest: String::new(),
        fragments: vec![("#x".to_string(), "b.html".to_string())],
    };
    assert_eq!(redirect_action(&c, true), Ok(false));
    let err = redirect_action(&c, false).unwrap_err();
    assert_eq!(err, RedirectError::OnlyFragments("a.html".to_string()));
    assert_eq!(
        err.message(),
        "redirect entry for `a.html` only has source paths with `#` fragments\n\
         There must be an entry without the `#` fragment to determine the default destination."
    );
    let c = CombinedRedirect { dest: "b.html".to_string(), ..c };
    assert_eq!(redirect_action(&c, false), Ok(true));
}
