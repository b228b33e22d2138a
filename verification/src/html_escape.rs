//! Escaping of text for HTML output.

use vstd::prelude::*;
use crate::text::{chars_of, string_from_chars};

verus! {

/// What a character becomes inside an HTML attribute value.
pub open spec fn attr_entity(c: char) -> Seq<char> {
    if c == '<' {
        seq!['&', 'l', 't', ';']
    } else if c == '>' {
        seq!['&', 'g', 't', ';']
    } else if c == '\'' {
        seq!['&', '#', '3', '9', ';']
    } else if c == '"' {
        seq!['&', 'q', 'u', 'o', 't', ';']
    } else if c == '\\' {
        seq!['&', '#', '9', '2', ';']
    } else if c == '&' {
        seq!['&', 'a', 'm', 'p', ';']
    } else {
        seq![c]
    }
}

/// What a character becomes inside HTML text.
pub open spec fn text_entity(c: char) -> Seq<char> {
    if c == '<' {
        seq!['&', 'l', 't', ';']
    } else if c == '>' {
        seq!['&', 'g', 't', ';']
    } else if c == '&' {
        seq!['&', 'a', 'm', 'p', ';']
    } else {
        seq![c]
    }
}

/// `s` with every character replaced by its attribute entity.
pub open spec fn escape_attr_seq(s: Seq<char>) -> Seq<char>
    decreases s.len(),
{
    if s.len() == 0 {
        seq![]
    } else {
        escape_attr_seq(s.drop_last()) + attr_entity(s.last())
    }
}

/// `s` with every character replaced by its text entity.
pub open spec fn escape_text_seq(s: Seq<char>) -> Seq<char>
    decreases s.len(),
{
    if s.len() == 0 {
        seq![]
    } else {
        escape_text_seq(s.drop_last()) + text_entity(s.last())
    }
}

/// Whether `c` needs escaping in an attribute value.
pub open spec fn is_attr_special(c: char) -> bool {
    c == '<' || c == '>' || c == '\'' || c == '"' || c == '\\' || c == '&'
}

/// Whether `c` needs escaping in text.
pub open spec fn is_text_special(c: char) -> bool {
    c == '<' || c == '>' || c == '&'
}

proof fn lemma_escape_attr_props(s: Seq<char>)
    ensures
        forall|j: int| 0 <= j < escape_attr_seq(s).len() ==> {
            let c = #[trigger] escape_attr_seq(s)[j];
            c != '<' && c != '>' && c != '\'' && c != '"' && c != '\\'
        },
        (forall|j: int| 0 <= j < s.len() ==> !is_attr_special(#[trigger] s[j])) ==> escape_attr_seq(s)
            == s,
    decreases s.len(),
{
    if s.len() > 0 {
        let p = s.drop_last();
        lemma_escape_attr_props(p);
        let e = escape_attr_seq(s);
        assert(e == escape_attr_seq(p) + attr_entity(s.last()));
        assert forall|j: int| 0 <= j < e.len() implies {
            let c = #[trigger] e[j];
            c != '<' && c != '>' && c != '\'' && c != '"' && c != '\\'
        } by {
            if j >= escape_attr_seq(p).len() {
                assert(e[j] == attr_entity(s.last())[j - escape_attr_seq(p).len()]);
            } else {
                assert(e[j] == escape_attr_seq(p)[j]);
            }
        }
        if forall|j: int| 0 <= j < s.len() ==> !is_attr_special(#[trigger] s[j]) {
            assert forall|j: int| 0 <= j < p.len() implies !is_attr_special(#[trigger] p[j]) by {
                assert(p[j] == s[j]);
            }
            assert(!is_attr_special(s[s.len() - 1]));
            assert(s == p.push(s.last()));
            assert(p + seq![s.last()] == p.push(s.last()));
        }
    }
}

proof fn lemma_escape_text_props(s: Seq<char>)
    ensures
        forall|j: int| 0 <= j < escape_text_seq(s).len() ==> {
            let c = #[trigger] escape_text_seq(s)[j];
            c != '<' && c != '>'
        },
        (forall|j: int| 0 <= j < s.len() ==> !is_text_special(#[trigger] s[j])) ==> escape_text_seq(s)
            == s,
    decreases s.len(),
{
    if s.len() > 0 {
        let p = s.drop_last();
        lemma_escape_text_props(p);
        let e = escape_text_seq(s);
        assert(e == escape_text_seq(p) + text_entity(s.last()));
        assert forall|j: int| 0 <= j < e.len() implies {
            let c = #[trigger] e[j];
            c != '<' && c != '>'
        } by {
            if j >= escape_text_seq(p).len() {
                assert(e[j] == text_entity(s.last())[j - escape_text_seq(p).len()]);
            } else {
                assert(e[j] == escape_text_seq(p)[j]);
            }
        }
        if forall|j: int| 0 <= j < s.len() ==> !is_text_special(#[trigger] s[j]) {
            assert forall|j: int| 0 <= j < p.len() implies !is_text_special(#[trigger] p[j]) by {
                assert(p[j] == s[j]);
            }
            assert(!is_text_special(s[s.len() - 1]));
            assert(s == p.push(s.last()));
            assert(p + seq![s.last()] == p.push(s.last()));
        }
    }
}

fn push_all(out: &mut Vec<char>, e: &[char])
    ensures
        final(out)@ == old(out)@ + e@,
{
    let mut k: usize = 0;
    while k < e.len()
        invariant
            k <= e@.len(),
            out@ == old(out)@ + e@.take(k as int),
        decreases e@.len() - k,
    {
        out.push(e[k]);
        k = k + 1;
        assert(e@.take(k as int) == e@.take(k - 1).push(e@[k - 1]));
    }
    assert(e@.take(e@.len() as int) == e@);
}

/// Escapes `<`, `>`, `'`, `"`, `\` and `&` so that `text` can stand in an
/// HTML attribute value.
pub fn escape_html_attribute(text: &str) -> (r: String)
    ensures
        r@ == escape_attr_seq(text@),
        forall|j: int| 0 <= j < r@.len() ==> {
            let c = #[trigger] r@[j];
            c != '<' && c != '>' && c != '\'' && c != '"' && c != '\\'
        },
        (forall|j: int| 0 <= j < text@.len() ==> !is_attr_special(#[trigger] text@[j])) ==> r@
            == text@,
{
    let v = chars_of(text);
    let mut out: Vec<char> = Vec::new();
    let mut i: usize = 0;
    while i < v.len()
        invariant
            i <= v@.len(),
            out@ == escape_attr_seq(v@.take(i as int)),
        decreases v@.len() - i,
    {
        let c = v[i];
        if c == '<' {
            push_all(&mut out, &['&', 'l', 't', ';']);
        } else if c == '>' {
            push_all(&mut out, &['&', 'g', 't', ';']);
        } else if c == '\'' {
            push_all(&mut out, &['&', '#', '3', '9', ';']);
        } else if c == '"' {
            push_all(&mut out, &['&', 'q', 'u', 'o', 't', ';']);
        } else if c == '\\' {
            push_all(&mut out, &['&', '#', '9', '2', ';']);
        } else if c == '&' {
            push_all(&mut out, &['&', 'a', 'm', 'p', ';']);
        } else {
            out.push(c);
        }
        assert(v@.take(i + 1).drop_last() == v@.take(i as int));
        i = i + 1;
    }
    assert(v@.take(v@.len() as int) == v@);
    proof {
        lemma_escape_attr_props(text@);
    }
    string_from_chars(&out)
}

/// Escapes `<`, `>` and `&` for HTML text.
pub fn escape_html(text: &str) -> (r: String)
    ensures
        r@ == escape_text_seq(text@),
        forall|j: int| 0 <= j < r@.len() ==> {
            let c = #[trigger] r@[j];
            c != '<' && c != '>'
        },
        (forall|j: int| 0 <= j < text@.len() ==> !is_text_special(#[trigger] text@[j])) ==> r@
            == text@,
{
    let v = chars_of(text);
    let mut out: Vec<char> = Vec::new();
    let mut i: usize = 0;
    while i < v.len()
        invariant
            i <= v@.len(),
            out@ == escape_text_seq(v@.take(i as int)),
        decreases v@.len() - i,
    {
        let c = v[i];
        if c == '<' {
            push_all(&mut out, &['&', 'l', 't', ';']);
        } else if c == '>' {
            push_all(&mut out, &['&', 'g', 't', ';']);
        } else if c == '&' {
            push_all(&mut out, &['&', 'a', 'm', 'p', ';']);
        } else {
            out.push(c);
        }
        assert(v@.take(i + 1).drop_last() == v@.take(i as int));
        i = i + 1;
    }
    assert(v@.take(v@.len() as int) == v@);
    proof {
        lemma_escape_text_props(text@);
    }
    string_from_chars(&out)
}

} // verus!
