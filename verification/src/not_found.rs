//! The page that stands in for a missing one: whether the HTML renderer
//! makes it, its title, the base URL its links start from, the Markdown it
//! shows when the book brings none, and the `CNAME` file's text.

use vstd::prelude::*;

verus! {

/// The view of an optional string.
pub open spec fn opt_text(o: Option<String>) -> Option<Seq<char>> {
    match o {
        Some(s) => Some(s@),
        None => None,
    }
}

/// Whether the page is made: unless `input-404` is set to the empty string.
pub fn makes_not_found_page(input_404: &Option<String>) -> (r: bool)
    ensures
        r == !(opt_text(*input_404) == Some(Seq::<char>::empty())),
{
    match input_404 {
        Some(s) => {
            let n = s.as_str().unicode_len();
            proof {
                if n == 0 {
                    assert(s@ =~= Seq::<char>::empty());
                }
            }
            n != 0
        },
        None => true,
    }
}

/// The title of the page: `Page not found`, then ` - ` and the book's
/// title when it has one.
pub open spec fn not_found_title(book_title: Option<Seq<char>>) -> Seq<char> {
    match book_title {
        Some(t) => "Page not found"@ + " - "@ + t,
        None => "Page not found"@,
    }
}

/// The title of the page; see [`not_found_title`].
pub fn not_found_page_title(book_title: &Option<String>) -> (r: String)
    ensures
        r@ == not_found_title(opt_text(*book_title)),
{
    let title = String::from_str("Page not found");
    match book_title {
        Some(t) => title.concat(" - ").concat(t.as_str()),
        None => title,
    }
}

/// The base URL of the page's links: the site URL, `/` when none is set.
pub fn not_found_base_url(site_url: &Option<String>) -> (r: String)
    ensures
        r@ == match opt_text(*site_url) {
            Some(u) => u,
            None => "/"@,
        },
{
    match site_url {
        Some(u) => String::from_str(u.as_str()),
        None => String::from_str("/"),
    }
}

/// The Markdown of the page when the book has no `404.md` and names no
/// other file.
pub fn default_not_found_markdown() -> (r: String)
    ensures
        r@ == "# Document not found (404)\n\nThis URL is invalid, sorry. Please use the navigation bar or search to continue."@,
{
    String::from_str(
        "# Document not found (404)\n\nThis URL is invalid, sorry. Please use the navigation bar or search to continue.",
    )
}

/// The text of the `CNAME` file: the domain and a line break.
pub fn cname_text(cname: &str) -> (r: String)
    ensures
        r@ == cname@ + "\n"@,
{
    String::from_str(cname).concat("\n")
}

} // verus!
