//! YAML front matter at the top of a chapter.

use vstd::prelude::*;
use crate::text::{
    chars_of, find_first, first_occurrence, skip_char_from, skip_ws_from, slice_chars,
    starts_with, starts_with_exec, string_from_chars, trim_leading, trim_start,
};

verus! {

/// The content without its front matter: when the content, after leading
/// whitespace, starts with `---` and a later line starts with `---`,
/// everything up to and including that closing `---` is dropped, together
/// with the line feeds after it; otherwise the content is unchanged.
pub open spec fn without_frontmatter(content: Seq<char>) -> Seq<char> {
    let t = trim_start(content);
    if !starts_with(t, seq!['-', '-', '-']) {
        content
    } else {
        let a = t.skip(3);
        match first_occurrence(a, seq!['\n', '-', '-', '-'], 0) {
            Some(end) => trim_leading(a.skip(end + 4), '\n'),
            None => content,
        }
    }
}

/// Strips YAML front matter (between `---` markers) from content,
/// returning the content without the front matter block.
pub fn strip_frontmatter(content: &str) -> (r: String)
    ensures
        r@ == without_frontmatter(content@),
{
    let v = chars_of(content);
    let lo = skip_ws_from(&v, 0);
    assert(v@.skip(0) == v@);
    let t = slice_chars(&v, lo, v.len());
    assert(t@ == v@.skip(lo as int));
    let dashes: [char; 3] = ['-', '-', '-'];
    assert(dashes@ == seq!['-', '-', '-']);
    if !starts_with_exec(&t, &dashes) {
        return string_from_chars(&v);
    }
    let a = slice_chars(&t, 3, t.len());
    assert(a@ == t@.skip(3));
    let close: [char; 4] = ['\n', '-', '-', '-'];
    assert(close@ == seq!['\n', '-', '-', '-']);
    match find_first(&a, &close, 0) {
        Some(end) => {
            proof {
                let e = end as int;
                let j = choose|j: int| crate::text::is_first_occurrence_from(a@, close@, 0, j);
                assert(e == j);
                assert(crate::text::occurs_at(a@, close@, e));
            }
            let start = skip_char_from(&a, '\n', end + 4);
            let rest = slice_chars(&a, start, a.len());
            assert(rest@ == a@.skip(start as int));
            string_from_chars(&rest)
        },
        None => string_from_chars(&v),
    }
}

} // verus!
