//! The documents of the search index made from a chapter: the chapter's
//! Markdown events are flattened to text and cut into one document per
//! section, at the headings up to the configured level. Each document has
//! the URL of its section, a title, a body and the trail of headings above
//! it.

use vstd::prelude::*;
use crate::ids::{id_for, id_from_content, string_views, unique_id};
use crate::print_page::{lemma_unique_choice, unique_choice};
use crate::text::{
    append_chars, chars_of, decimal, is_whitespace, is_ws, join_chars, join_with, push_decimal_u64, string_from_chars,
    trim, trim_chars, views,
};
use crate::md_parse::{events_view, markdown_events, parse_markdown};
use crate::tree_builder::{footnote_index, opt_str, MdEvent, MdTag, MdTagEnd};

verus! {

/// What the HTML sanitizer leaves of a piece of HTML when it allows no
/// tags, no attributes and no classes, and drops the content of `script`
/// and `style` elements: the text, with the markup taken out.
pub uninterp spec fn cleaned_html(html: Seq<char>) -> Seq<char>;

/// Cleans HTML with `ammonia::Builder::clean`, set to allow no tags, no
/// attributes, no link relations and no classes, and to drop the content
/// of `script` and `style` elements. The contract names the result; what
/// the sanitizer leaves is not written out here.
#[verifier::external_body]
fn clean_html(html: &str) -> (r: String)
    ensures
        r@ == cleaned_html(html@),
{
    let mut builder = ammonia::Builder::new();
    builder.tags(std::collections::HashSet::new()).tag_attributes(std::collections::HashMap::new());
    builder.generic_attributes(std::collections::HashSet::new()).link_rel(None);
    builder.allowed_classes(std::collections::HashMap::new());
    builder.clean_content_tags(std::collections::HashSet::from(["script", "style"]));
    builder.clean(html).to_string()
}

/// A run of whitespace as it is written out: a single space when it has
/// two characters or more, as it is otherwise.
pub open spec fn flush_run(run: Seq<char>) -> Seq<char> {
    if run.len() >= 2 {
        seq![' ']
    } else {
        run
    }
}

/// The text written so far and the run of whitespace at its end.
pub open spec fn ws_fold(s: Seq<char>) -> (Seq<char>, Seq<char>)
    decreases s.len(),
{
    if s.len() == 0 {
        (seq![], seq![])
    } else {
        let (out, run) = ws_fold(s.drop_last());
        let c = s.last();
        if is_ws(c) {
            (out, run.push(c))
        } else {
            (out + flush_run(run) + seq![c], seq![])
        }
    }
}

/// The text with every run of two or more whitespace characters replaced
/// by a single space, as replacing the pattern `\s\s+` with a space does.
pub open spec fn collapse_ws(s: Seq<char>) -> Seq<char> {
    let (out, run) = ws_fold(s);
    out + flush_run(run)
}

/// Collapses runs of whitespace; see [`collapse_ws`].
pub fn collapse_whitespace(s: &str) -> (r: String)
    ensures
        r@ == collapse_ws(s@),
{
    let v = chars_of(s);
    let mut out: Vec<char> = Vec::new();
    let mut run: Vec<char> = Vec::new();
    let mut i: usize = 0;
    assert(v@.take(0) =~= Seq::<char>::empty());
    while i < v.len()
        invariant
            i <= v@.len(),
            v@ == s@,
            (out@, run@) == ws_fold(v@.take(i as int)),
        decreases v@.len() - i,
    {
        let c = v[i];
        proof {
            assert(v@.take(i + 1).drop_last() =~= v@.take(i as int));
            assert(v@.take(i + 1).last() == c);
        }
        if is_whitespace(c) {
            run.push(c);
        } else {
            let ghost o = out@;
            let ghost r0 = run@;
            if run.len() >= 2 {
                out.push(' ');
            } else {
                append_chars(&mut out, &run);
            }
            out.push(c);
            assert(out@ =~= o + flush_run(r0) + seq![c]);
            run = Vec::new();
        }
        i = i + 1;
    }
    assert(v@.take(i as int) =~= v@);
    let ghost o = out@;
    if run.len() >= 2 {
        out.push(' ');
    } else {
        append_chars(&mut out, &run);
    }
    assert(out@ =~= o + flush_run(run@));
    string_from_chars(&out)
}

/// A document of the search index as values.
pub struct DocView {
    /// The URL of the section.
    pub url: Seq<char>,
    /// The title.
    pub title: Seq<char>,
    /// The text of the section.
    pub body: Seq<char>,
    /// The headings above the section, joined by ` » `.
    pub breadcrumbs: Seq<char>,
}

/// A document of the search index.
#[derive(Debug, Clone, PartialEq)]
pub struct SearchDoc {
    /// The URL of the section.
    pub url: String,
    /// The title.
    pub title: String,
    /// The text of the section.
    pub body: String,
    /// The headings above the section, joined by ` » `.
    pub breadcrumbs: String,
}

/// The views of documents.
pub open spec fn docs_view(v: Seq<SearchDoc>) -> Seq<DocView> {
    v.map_values(|d: SearchDoc| DocView { url: d.url@, title: d.title@, body: d.body@, breadcrumbs: d.breadcrumbs@ })
}

/// A field of a document: trimmed, with its runs of whitespace collapsed.
pub open spec fn field(s: Seq<char>) -> Seq<char> {
    collapse_ws(trim(s))
}

/// The document of a section and the generated ids in use after it. The
/// section's id is the one written after its heading, or one made from
/// the heading's text, unique among the generated ones; a section without
/// a heading has none, and its URL is that of the chapter.
pub open spec fn new_doc(
    anchor: Seq<char>,
    heading: Seq<char>,
    section_id: Option<Seq<char>>,
    used: Seq<Seq<char>>,
    title: Seq<char>,
    body: Seq<char>,
    crumbs: Seq<Seq<char>>,
) -> (DocView, Seq<Seq<char>>) {
    let (id, used2) = match section_id {
        Some(i) => (Some(i), used),
        None => if heading.len() == 0 {
            (None::<Seq<char>>, used)
        } else {
            let u = unique_choice(id_for(heading), used);
            (Some(u), used.push(u))
        },
    };
    let url = match id {
        Some(i) => anchor + "#"@ + i,
        None => anchor,
    };
    (
        DocView {
            url: field(url),
            title: field(title),
            body: field(body),
            breadcrumbs: field(join_with(crumbs, " \u{bb} "@)),
        },
        used2,
    )
}

/// The state of cutting a chapter into documents.
pub struct IndexState {
    /// Whether the text goes to the heading.
    pub in_heading: bool,
    /// The id written after the current section's heading.
    pub section_id: Option<Seq<char>>,
    /// The text of the current section's heading.
    pub heading: Seq<char>,
    /// The text of the current section.
    pub body: Seq<char>,
    /// The trail of headings.
    pub crumbs: Seq<Seq<char>>,
    /// The footnotes in order of their numbers.
    pub footnotes: Seq<Seq<char>>,
    /// The generated ids in use.
    pub used: Seq<Seq<char>>,
    /// The HTML of consecutive HTML events not cleaned yet.
    pub pending: Option<Seq<char>>,
    /// The documents made so far.
    pub docs: Seq<DocView>,
}

/// The state at the start of a chapter with the given trail of names.
pub open spec fn initial_state(crumbs: Seq<Seq<char>>) -> IndexState {
    IndexState {
        in_heading: false,
        section_id: None,
        heading: seq![],
        body: seq![],
        crumbs,
        footnotes: seq![],
        used: seq![],
        pending: None,
        docs: seq![],
    }
}

/// The state with the pending HTML cleaned into the body.
pub open spec fn flushed(st: IndexState) -> IndexState {
    match st.pending {
        Some(h) => IndexState { body: st.body + cleaned_html(h), pending: None, ..st },
        None => st,
    }
}

/// The state with text added to the heading or to the body.
pub open spec fn with_text(st: IndexState, t: Seq<char>) -> IndexState {
    if st.in_heading {
        IndexState { heading: st.heading + t, ..st }
    } else {
        IndexState { body: st.body + t, ..st }
    }
}

/// The footnotes with `name` numbered, if it was not.
pub open spec fn numbered(names: Seq<Seq<char>>, name: Seq<char>) -> Seq<Seq<char>> {
    if names.contains(name) {
        names
    } else {
        names.push(name)
    }
}

/// The position of a name in a list, or the list's length.
pub open spec fn name_index(names: Seq<Seq<char>>, name: Seq<char>) -> int
    decreases names.len(),
{
    if names.len() == 0 {
        0
    } else if names[0] == name {
        0
    } else {
        1 + name_index(names.drop_first(), name)
    }
}

/// The trail without its last heading, if it has one.
pub open spec fn popped(crumbs: Seq<Seq<char>>) -> Seq<Seq<char>> {
    if crumbs.len() > 0 {
        crumbs.drop_last()
    } else {
        crumbs
    }
}

/// The state after an event other than HTML: a heading up to the maximum
/// level closes the section before it, when that has a heading, and
/// starts a new one; other starts and ends, rules and breaks add a space;
/// text, code and math add their text; inline HTML adds its cleaned text
/// to the body; a footnote reference adds its number to the body.
pub open spec fn index_event(st: IndexState, e: MdEvent, anchor: Seq<char>, max_level: u32) -> IndexState {
    match e {
        MdEvent::Start(MdTag::Heading { level, id, .. }) => if level <= max_level {
            let st1 = if st.heading.len() > 0 {
                let (d, u) = new_doc(anchor, st.heading, st.section_id, st.used, st.heading, st.body, st.crumbs);
                IndexState {
                    docs: st.docs.push(d),
                    used: u,
                    heading: seq![],
                    body: seq![],
                    crumbs: popped(st.crumbs),
                    ..st
                }
            } else {
                st
            };
            IndexState { section_id: opt_str(id), in_heading: true, ..st1 }
        } else {
            with_text(st, " "@)
        },
        MdEvent::End(MdTagEnd::Heading(level)) => if level <= max_level {
            IndexState { in_heading: false, crumbs: st.crumbs.push(st.heading), ..st }
        } else {
            with_text(st, " "@)
        },
        MdEvent::Start(MdTag::FootnoteDefinition(name)) => IndexState { footnotes: numbered(st.footnotes, name@), ..st },
        MdEvent::InlineHtml(h) => IndexState { body: st.body + cleaned_html(h@), ..st },
        MdEvent::Text(t) => with_text(st, t@),
        MdEvent::Code(t) => with_text(st, t@),
        MdEvent::InlineMath(t) => with_text(st, t@),
        MdEvent::DisplayMath(t) => with_text(st, t@),
        MdEvent::FootnoteReference(name) => {
            let fs = numbered(st.footnotes, name@);
            IndexState {
                footnotes: fs,
                body: st.body + " ["@ + decimal((name_index(fs, name@) + 1) as nat) + "] "@,
                ..st
            }
        },
        MdEvent::TaskListMarker(_) => st,
        MdEvent::Html(_) => st,
        _ => with_text(st, " "@),
    }
}

/// The state after an event: consecutive HTML events are gathered and
/// cleaned together before the next other event.
pub open spec fn index_step(st: IndexState, e: MdEvent, anchor: Seq<char>, max_level: u32) -> IndexState {
    match e {
        MdEvent::Html(h) => IndexState {
            pending: Some(
                match st.pending {
                    Some(p) => p + h@,
                    None => h@,
                },
            ),
            ..st
        },
        _ => index_event(flushed(st), e, anchor, max_level),
    }
}

/// The state after a list of events.
pub open spec fn index_steps(st: IndexState, es: Seq<MdEvent>, anchor: Seq<char>, max_level: u32) -> IndexState
    decreases es.len(),
{
    if es.len() == 0 {
        st
    } else {
        index_step(index_steps(st, es.drop_last(), anchor, max_level), es.last(), anchor, max_level)
    }
}

/// The documents when the events run out: the last section is added when
/// it has a heading or text; without a heading its title is the first name
/// of the trail.
pub open spec fn final_docs(st0: IndexState, anchor: Seq<char>) -> Seq<DocView> {
    let st = flushed(st0);
    if st.body.len() > 0 || st.heading.len() > 0 {
        let title = if st.heading.len() > 0 {
            st.heading
        } else if st.crumbs.len() > 0 {
            st.crumbs[0]
        } else {
            seq![]
        };
        st.docs.push(new_doc(anchor, st.heading, st.section_id, st.used, title, st.body, st.crumbs).0)
    } else {
        st.docs
    }
}

/// The documents of a chapter, given its events, the URL of its page, the
/// deepest heading level that starts a section, and the names of the
/// chapter and its parents, outermost first.
pub open spec fn chapter_docs(es: Seq<MdEvent>, anchor: Seq<char>, max_level: u32, crumbs: Seq<Seq<char>>) -> Seq<DocView> {
    final_docs(index_steps(initial_state(crumbs), es, anchor, max_level), anchor)
}

/// Where a name stands in a list.
pub proof fn lemma_name_index(names: Seq<Seq<char>>, name: Seq<char>, k: int)
    requires
        0 <= k <= names.len(),
        forall|j: int| 0 <= j < k ==> #[trigger] names[j] != name,
        k == names.len() || names[k] == name,
    ensures
        name_index(names, name) == k,
    decreases names.len(),
{
    if names.len() > 0 && k > 0 {
        let rest = names.drop_first();
        assert forall|j: int| 0 <= j < k - 1 implies #[trigger] rest[j] != name by {
            assert(rest[j] == names[j + 1]);
        }
        lemma_name_index(rest, name, k - 1);
    }
}

/// The position of a name in a list, or the list's length.
fn name_position(names: &Vec<String>, name: &str) -> (r: usize)
    ensures
        r == name_index(string_views(names@), name@),
        r <= names@.len(),
        r < names@.len() <==> string_views(names@).contains(name@),
        r < names@.len() ==> string_views(names@)[r as int] == name@,
        forall|j: int| 0 <= j < r ==> #[trigger] string_views(names@)[j] != name@,
{
    let ghost nv = string_views(names@);
    let mut i: usize = 0;
    while i < names.len()
        invariant
            i <= names@.len(),
            nv == string_views(names@),
            forall|j: int| 0 <= j < i ==> #[trigger] nv[j] != name@,
        decreases names@.len() - i,
    {
        if crate::text::chars_eq(&chars_of(names[i].as_str()), &chars_of(name)) {
            proof {
                lemma_name_index(nv, name@, i as int);
            }
            return i;
        }
        i = i + 1;
    }
    proof {
        lemma_name_index(nv, name@, i as int);
        if nv.contains(name@) {
            let j = choose|j: int| 0 <= j < nv.len() && nv[j] == name@;
            assert(nv[j] != name@);
        }
    }
    i
}

/// The concatenation of two strings.
fn joined(a: &str, b: &str) -> (r: String)
    ensures
        r@ == a@ + b@,
{
    let mut s = a.to_owned();
    s.append(b);
    s
}

/// A field of a document; see [`field`].
fn field_exec(s: &str) -> (r: String)
    ensures
        r@ == field(s@),
{
    let t = trim_chars(&chars_of(s));
    collapse_whitespace(string_from_chars(&t).as_str())
}

/// The document of a section; see [`new_doc`].
fn make_doc(
    anchor: &str,
    heading: &str,
    section_id: &Option<String>,
    used: &mut Vec<String>,
    title: &str,
    body: &str,
    crumbs: &Vec<String>,
) -> (r: SearchDoc)
    requires
        old(used)@.len() < u32::MAX,
    ensures
        (
            DocView { url: r.url@, title: r.title@, body: r.body@, breadcrumbs: r.breadcrumbs@ },
            string_views(final(used)@),
        ) == new_doc(anchor@, heading@, opt_str(*section_id), string_views(old(used)@), title@, body@, string_views(crumbs@)),
        final(used)@.len() <= old(used)@.len() + 1,
{
    let ghost u0 = string_views(used@);
    let id: Option<String> = match section_id {
        Some(i) => Some(i.clone()),
        None => {
            if heading.is_empty() {
                None
            } else {
                let base = id_from_content(heading);
                let u = unique_id(base.as_str(), used);
                proof {
                    lemma_unique_choice(id_for(heading@), u0, u@);
                    assert(string_views(used@) =~= u0.push(u@));
                }
                Some(u)
            }
        },
    };
    let url = match &id {
        Some(i) => {
            let a = joined(anchor, "#");
            joined(a.as_str(), i.as_str())
        },
        None => anchor.to_owned(),
    };
    let mut parts: Vec<Vec<char>> = Vec::new();
    let mut k: usize = 0;
    while k < crumbs.len()
        invariant
            k <= crumbs@.len(),
            views(parts@) =~= string_views(crumbs@.take(k as int)),
        decreases crumbs@.len() - k,
    {
        let ghost before = views(parts@);
        parts.push(chars_of(crumbs[k].as_str()));
        proof {
            assert(views(parts@) =~= before.push(crumbs@[k as int]@));
            assert(crumbs@.take(k + 1) =~= crumbs@.take(k as int).push(crumbs@[k as int]));
        }
        k = k + 1;
    }
    assert(crumbs@.take(crumbs@.len() as int) =~= crumbs@);
    let trail = string_from_chars(&join_chars(&parts, &chars_of(" \u{bb} ")));
    SearchDoc {
        url: field_exec(url.as_str()),
        title: field_exec(title),
        body: field_exec(body),
        breadcrumbs: field_exec(trail.as_str()),
    }
}

/// The state of cutting a chapter into documents.
struct Indexer {
    in_heading: bool,
    section_id: Option<String>,
    heading: String,
    body: String,
    crumbs: Vec<String>,
    footnotes: Vec<String>,
    used: Vec<String>,
    pending: Option<String>,
    docs: Vec<SearchDoc>,
}

impl Indexer {
    spec fn view(&self) -> IndexState {
        IndexState {
            in_heading: self.in_heading,
            section_id: opt_str(self.section_id),
            heading: self.heading@,
            body: self.body@,
            crumbs: string_views(self.crumbs@),
            footnotes: string_views(self.footnotes@),
            used: string_views(self.used@),
            pending: opt_str(self.pending),
            docs: docs_view(self.docs@),
        }
    }

    /// Cleans the pending HTML into the body; see [`flushed`].
    fn flush(&mut self)
        ensures
            final(self).view() == flushed(old(self).view()),
            final(self).used@.len() == old(self).used@.len(),
            final(self).footnotes@.len() == old(self).footnotes@.len(),
    {
        let mut p: Option<String> = None;
        std::mem::swap(&mut p, &mut self.pending);
        if let Some(h) = p {
            let c = clean_html(h.as_str());
            self.body.append(c.as_str());
        }
    }

    /// Adds text to the heading or to the body; see [`with_text`].
    fn add_text(&mut self, t: &str)
        ensures
            final(self).view() == with_text(old(self).view(), t@),
            final(self).used@.len() == old(self).used@.len(),
            final(self).footnotes@.len() == old(self).footnotes@.len(),
    {
        if self.in_heading {
            self.heading.append(t);
        } else {
            self.body.append(t);
        }
    }

    /// Takes an event other than HTML; see [`index_event`].
    fn event(&mut self, e: MdEvent, anchor: &str, max_level: u32)
        requires
            old(self).used@.len() < u32::MAX,
            old(self).footnotes@.len() < u32::MAX,
        ensures
            final(self).view() == index_event(old(self).view(), e, anchor@, max_level),
            final(self).used@.len() <= old(self).used@.len() + 1,
            final(self).footnotes@.len() <= old(self).footnotes@.len() + 1,
    {
        let ghost s0 = self.view();
        match e {
            MdEvent::Start(MdTag::Heading { level, id, classes: _, attrs: _ }) => {
                if (level as u32) <= max_level {
                    if !self.heading.as_str().is_empty() {
                        let d = make_doc(
                            anchor,
                            self.heading.as_str(),
                            &self.section_id,
                            &mut self.used,
                            self.heading.as_str(),
                            self.body.as_str(),
                            &self.crumbs,
                        );
                        let ghost dv = docs_view(self.docs@);
                        self.docs.push(d);
                        assert(docs_view(self.docs@) =~= dv.push(DocView { url: d.url@, title: d.title@, body: d.body@, breadcrumbs: d.breadcrumbs@ }));
                        self.heading = String::new();
                        self.body = String::new();
                        let ghost cv = string_views(self.crumbs@);
                        if self.crumbs.len() > 0 {
                            self.crumbs.pop();
                            assert(string_views(self.crumbs@) =~= cv.drop_last());
                        }
                    }
                    self.section_id = id;
                    self.in_heading = true;
                } else {
                    self.add_text(" ");
                }
            },
            MdEvent::End(MdTagEnd::Heading(level)) => {
                if (level as u32) <= max_level {
                    self.in_heading = false;
                    let ghost cv = string_views(self.crumbs@);
                    self.crumbs.push(self.heading.clone());
                    assert(string_views(self.crumbs@) =~= cv.push(self.heading@));
                } else {
                    self.add_text(" ");
                }
            },
            MdEvent::Start(MdTag::FootnoteDefinition(name)) => {
                let i = name_position(&self.footnotes, name.as_str());
                if i == self.footnotes.len() {
                    let ghost fv = string_views(self.footnotes@);
                    self.footnotes.push(name);
                    assert(string_views(self.footnotes@) =~= fv.push(name@));
                }
            },
            MdEvent::InlineHtml(h) => {
                let c = clean_html(h.as_str());
                self.body.append(c.as_str());
            },
            MdEvent::Text(t) => self.add_text(t.as_str()),
            MdEvent::Code(t) => self.add_text(t.as_str()),
            MdEvent::InlineMath(t) => self.add_text(t.as_str()),
            MdEvent::DisplayMath(t) => self.add_text(t.as_str()),
            MdEvent::FootnoteReference(name) => {
                let i = name_position(&self.footnotes, name.as_str());
                if i == self.footnotes.len() {
                    let ghost fv = string_views(self.footnotes@);
                    self.footnotes.push(name.clone());
                    assert(string_views(self.footnotes@) =~= fv.push(name@));
                }
                proof {
                    let fs = string_views(self.footnotes@);
                    if i < s0.footnotes.len() {
                        assert(s0.footnotes.contains(name@));
                        assert(fs == s0.footnotes);
                    } else {
                        assert(!s0.footnotes.contains(name@));
                        assert(fs == s0.footnotes.push(name@));
                    }
                    assert(fs == numbered(s0.footnotes, name@));
                    assert(fs[i as int] == name@);
                    assert forall|j: int| 0 <= j < i implies #[trigger] fs[j] != name@ by {
                        assert(fs[j] == s0.footnotes[j]);
                    }
                    lemma_name_index(fs, name@, i as int);
                }
                self.body.append(" [");
                let mut digits: Vec<char> = Vec::new();
                push_decimal_u64(&mut digits, (i as u64) + 1);
                self.body.append(string_from_chars(&digits).as_str());
                self.body.append("] ");
            },
            MdEvent::TaskListMarker(_) => {},
            MdEvent::Html(_) => {},
            _ => self.add_text(" "),
        }
    }
}

/// The documents of a chapter's search index; see [`chapter_docs`].
pub fn chapter_search_docs(events: Vec<MdEvent>, anchor: &str, max_level: u32, crumbs: Vec<String>) -> (r: Vec<SearchDoc>)
    requires
        events@.len() < u32::MAX,
    ensures
        docs_view(r@) == chapter_docs(events@, anchor@, max_level, string_views(crumbs@)),
{
    let ghost crumbs0 = string_views(crumbs@);
    let mut ix = Indexer {
        in_heading: false,
        section_id: None,
        heading: String::new(),
        body: String::new(),
        crumbs,
        footnotes: Vec::new(),
        used: Vec::new(),
        pending: None,
        docs: Vec::new(),
    };
    proof {
        assert(string_views(ix.footnotes@) =~= seq![]);
        assert(string_views(ix.used@) =~= seq![]);
        assert(docs_view(ix.docs@) =~= seq![]);
    }
    let mut es = events;
    let ghost all = es@;
    let total = es.len();
    let mut i: usize = 0;
    while es.len() > 0
        invariant
            all.len() == total,
            total < u32::MAX,
            i + es@.len() == all.len(),
            es@ == all.skip(i as int),
            ix.view() == index_steps(initial_state(crumbs0), all.take(i as int), anchor@, max_level),
            ix.used@.len() <= i,
            ix.footnotes@.len() <= i,
        decreases es@.len(),
    {
        let e = es.remove(0);
        proof {
            assert(e == all[i as int]);
            assert(es@ =~= all.skip(i + 1));
            assert(all.take(i + 1).drop_last() =~= all.take(i as int));
            assert(all.take(i + 1).last() == e);
        }
        match e {
            MdEvent::Html(h) => {
                let mut p: Option<String> = None;
                std::mem::swap(&mut p, &mut ix.pending);
                let next = match p {
                    Some(mut q) => {
                        q.append(h.as_str());
                        q
                    },
                    None => h,
                };
                ix.pending = Some(next);
            },
            other => {
                ix.flush();
                ix.event(other, anchor, max_level);
            },
        }
        i = i + 1;
    }
    proof {
        assert(all.take(i as int) =~= all);
    }
    ix.flush();
    if !ix.body.as_str().is_empty() || !ix.heading.as_str().is_empty() {
        let title = if !ix.heading.as_str().is_empty() {
            ix.heading.clone()
        } else if ix.crumbs.len() > 0 {
            ix.crumbs[0].clone()
        } else {
            String::new()
        };
        let d = make_doc(anchor, ix.heading.as_str(), &ix.section_id, &mut ix.used, title.as_str(), ix.body.as_str(), &ix.crumbs);
        let ghost dv = docs_view(ix.docs@);
        ix.docs.push(d);
        assert(docs_view(ix.docs@) =~= dv.push(DocView { url: d.url@, title: d.title@, body: d.body@, breadcrumbs: d.breadcrumbs@ }));
    }
    ix.docs
}

/// The documents of a chapter's search index from its Markdown, parsed
/// without smart punctuation; see [`chapter_docs`]. Nothing comes back for
/// a text of `u32::MAX` events or more.
pub fn chapter_text_search_docs(text: &str, anchor: &str, max_level: u32, crumbs: Vec<String>) -> (r: Option<Vec<SearchDoc>>)
    ensures
        match r {
            Some(d) => exists|es: Seq<MdEvent>|
                events_view(es) == markdown_events(text@, (true, true, true, true, true, false))
                && docs_view(d@) == chapter_docs(es, anchor@, max_level, string_views(crumbs@)),
            None => markdown_events(text@, (true, true, true, true, true, false)).len() >= u32::MAX,
        },
{
    let ext = crate::markdown::parser_extensions(&crate::markdown::MarkdownOptions { smart_punctuation: false });
    let events = parse_markdown(text, &ext);
    if events.len() >= 0xffff_ffff {
        return None;
    }
    Some(chapter_search_docs(events, anchor, max_level, crumbs))
}


/// Inline code is indexed as text: an inline code event changes the
/// state exactly as a text event with the same text does, and adds that
/// text to the heading being read or else to the section's body, after
/// any HTML gathered before it.
pub proof fn law_inline_code_is_indexed_as_text(st: IndexState, t: String, anchor: Seq<char>, max_level: u32)
    ensures
        index_step(st, MdEvent::Code(t), anchor, max_level) == index_step(st, MdEvent::Text(t), anchor, max_level),
        ({
            let after = index_step(st, MdEvent::Code(t), anchor, max_level);
            let before = flushed(st);
            &&& before.in_heading ==> after.heading == before.heading + t@ && after.body == before.body
            &&& !before.in_heading ==> after.body == before.body + t@ && after.heading == before.heading
            &&& after.docs == before.docs
        }),
{
}

} // verus!
