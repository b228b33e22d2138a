use mdbook_verified::html_serialize::{AttrNamespace, HtmlElement, HtmlNode, NodeValue};
use mdbook_verified::print_page::{print_link_exec, render_print_page, PrintChapter};

fn el(name: &str, attrs: Vec<(&str, &str)>, children: Vec<HtmlNode>) -> HtmlNode {
    HtmlNode {
        value: NodeValue::Element(HtmlElement {
            name: name.to_string(),
            attrs: attrs
                .into_iter()
                .map(|(k, v)| (AttrNamespace::Plain, k.to_string(), v.to_string()))
                .collect(),
            self_closing: false,
            was_raw: false,
        }),
        children,
    }
}

fn text(t: &str) -> HtmlNode {
    HtmlNode { value: NodeValue::Text(t.to_string()), children: Vec::new() }
}

fn fragment(children: Vec<HtmlNode>) -> HtmlNode {
    HtmlNode { value: NodeValue::Fragment, children }
}

fn chapter(name: &str, html_path: &str, tree: HtmlNode) -> PrintChapter {
    PrintChapter { name: name.to_string(), html_path: html_path.to_string(), tree }
}

#[test]
fn chapters_are_joined_with_ids_and_links_fixed() {
    let first = chapter(
        "First",
        "first.html",
        fragment(vec![
            el("h1", vec![("id", "top")], vec![text("Top")]),
            el(
                "p",
                vec![],
                vec![
                    el("a", vec![("href", "second.html#details")], vec![text("more")]),
                    el("a", vec![("href", "second.html#top")], vec![text("t")]),
                ],
            ),
        ]),
    );
    let second = chapter(
        "Second",
        "second.html",
        fragment(vec![
            el("h2", vec![("id", "details")], vec![text("Details")]),
            el("span", vec![("id", "top")], vec![]),
            el("p", vec![], vec![el("a", vec![("href", "first.html")], vec![text("back")])]),
            el("a", vec![("href", "https://example.com")], vec![text("x")]),
        ]),
    );
    let out = render_print_page(vec![first, second]);
    assert_eq!(
        out,
        "<h1 id=\"top\">Top</h1>\n\
         <p><a href=\"#details\">more</a><a href=\"#top-1\">t</a></p>\n\
         <div style=\"break-before: page; page-break-before: always;\"></div>\n\
         <h1 id=\"second\"><a href=\"#second\" class=\"header\">Second</a></h1>\n\
         <h2 id=\"details\">Details</h2>\n\
         <span id=\"top-1\"></span>\n\
         <p><a href=\"#top\">back</a></p>\n\
         <a href=\"https://example.com\">x</a>"
    );
}

#[test]
fn links_out_of_the_book_are_made_relative_to_the_page() {
    let remap = vec![];
    let tops = vec![("intro.html".to_string(), "intro".to_string())];
    assert_eq!(print_link_exec("sub/page.html", "../img/a.png", &remap, &tops), Some("img/a.png".to_string()));
    assert_eq!(print_link_exec("page.html", "../x.html#y", &remap, &tops), Some("../x.html#y".to_string()));
    assert_eq!(print_link_exec("sub/page.html", "../intro.html", &remap, &tops), Some("#intro".to_string()));
    assert_eq!(print_link_exec("page.html", "#here", &remap, &tops), Some("#here".to_string()));
    assert_eq!(print_link_exec("page.html", "mailto:a@b.c", &remap, &tops), None);
    assert_eq!(print_link_exec("page.html", "other.html", &remap, &tops), None);
}

#[test]
fn an_empty_book_has_an_empty_print_page() {
    assert_eq!(render_print_page(Vec::new()), "");
}
