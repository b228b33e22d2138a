//! The built-in renderers and preprocessors, and the choice of which ones
//! run for a book.

use vstd::prelude::*;
use crate::book::{Book, BookItem};
use crate::ids::string_views;
use crate::links::{fix_readme_links, index_path, readme_to_index, relinked};
use crate::markdown::MarkdownOptions;
use crate::md_parse::{cmark_text, markdown_events, options_ext};
use crate::preprocessors::{lemma_sorted_unique, name_seq, sort_by_name, sorted_names};
use crate::text::{append_chars, chars_eq, chars_of, string_from_chars};

verus! {

/// A custom preprocessor which shells out to a 3rd-party program.
#[derive(Debug, Clone, PartialEq)]
pub struct CmdPreprocessor {
    name: String,
    cmd: String,
    root: String,
    optional: bool,
}

impl CmdPreprocessor {
    /// Create a new `CmdPreprocessor`.
    pub fn new(name: String, cmd: String, root: String, optional: bool) -> (r: CmdPreprocessor)
        ensures
            r.name_spec() == name@,
            r.cmd_spec() == cmd@,
            r.root_spec() == root@,
            r.is_optional() == optional,
    {
        CmdPreprocessor { name, cmd, root, optional }
    }

    /// The preprocessor's name.
    pub closed spec fn name_spec(&self) -> Seq<char> {
        self.name@
    }

    /// The preprocessor's command.
    pub closed spec fn cmd_spec(&self) -> Seq<char> {
        self.cmd@
    }

    /// The directory the command runs in.
    pub closed spec fn root_spec(&self) -> Seq<char> {
        self.root@
    }

    /// Whether a missing command is ignored.
    pub closed spec fn is_optional(&self) -> bool {
        self.optional
    }

    /// The command this preprocessor will invoke.
    pub fn cmd(&self) -> (r: &str)
        ensures
            r@ == self.cmd_spec(),
    {
        self.cmd.as_str()
    }

    /// The preprocessor's name.
    pub fn name(&self) -> (r: &str)
        ensures
            r@ == self.name_spec(),
    {
        self.name.as_str()
    }

    /// The directory the command runs in.
    pub fn root(&self) -> (r: &str)
        ensures
            r@ == self.root_spec(),
    {
        self.root.as_str()
    }

    /// Whether a missing command is ignored.
    pub fn optional(&self) -> (r: bool)
        ensures
            r == self.is_optional(),
    {
        self.optional
    }
}

/// `index`
pub open spec fn index_name() -> Seq<char> {
    seq!['i', 'n', 'd', 'e', 'x']
}

/// `links`
pub open spec fn links_name() -> Seq<char> {
    seq!['l', 'i', 'n', 'k', 's']
}

/// A preprocessor for converting file name `README.md` to `index.md` since
/// `README.md` is the de facto index file in markdown-based documentation.
#[derive(Debug, Default)]
pub struct IndexPreprocessor;

impl IndexPreprocessor {
    /// Create a new `IndexPreprocessor`.
    pub fn new() -> (r: IndexPreprocessor) {
        IndexPreprocessor
    }

    /// Name of this preprocessor.
    pub fn name(&self) -> (r: String)
        ensures
            r@ == index_name(),
    {
        string_from_chars(&['i', 'n', 'd', 'e', 'x'])
    }

    /// Renames the path of every chapter whose file is a README file to
    /// `index.md` in the same directory, and points the links to README
    /// files in every chapter's text at index files.
    pub fn rename_readme_paths(&self, book: &mut Book, options: &MarkdownOptions)
        ensures
            items_renamed(old(book).sections@, final(book).sections@, *options),
    {
        rename_items(&mut book.sections, options);
    }
}

/// A chapter's text after the index preprocessor: its links rewritten
/// (see [`fix_readme_links`]), or empty where the Markdown writer refuses
/// the events.
pub open spec fn relinked_content(content: Seq<char>, o: MarkdownOptions) -> Seq<char> {
    match cmark_text(relinked(markdown_events(content, options_ext(o))), options_ext(o)) {
        Some(t) => t,
        None => seq![],
    }
}

/// Whether `new` is `old` with every chapter path, at every depth, renamed
/// as the index preprocessor renames it, every chapter's text relinked, and
/// nothing else changed.
pub open spec fn items_renamed(before: Seq<BookItem>, after: Seq<BookItem>, o: MarkdownOptions) -> bool
    decreases before,
{
    &&& before.len() == after.len()
    &&& before.len() > 0 ==> {
        &&& item_renamed(before[0], after[0], o)
        &&& items_renamed(
            before.subrange(1, before.len() as int),
            after.subrange(1, after.len() as int),
            o,
        )
    }
}

/// One item of [`items_renamed`].
pub open spec fn item_renamed(before: BookItem, after: BookItem, o: MarkdownOptions) -> bool
    decreases before,
{
    match (before, after) {
        (BookItem::Chapter(a), BookItem::Chapter(b)) => {
            &&& a.name == b.name
            &&& b.content@ == relinked_content(a.content@, o)
            &&& a.number == b.number
            &&& a.source_path == b.source_path
            &&& a.parent_names == b.parent_names
            &&& match (a.path, b.path) {
                (Some(p), Some(q)) => q@ == index_path(p@),
                (None, None) => true,
                _ => false,
            }
            &&& items_renamed(a.sub_items@, b.sub_items@, o)
        },
        (BookItem::Separator, BookItem::Separator) => true,
        (BookItem::PartTitle(a), BookItem::PartTitle(b)) => a == b,
        _ => false,
    }
}

proof fn lemma_items_renamed_intro(a: Seq<BookItem>, b: Seq<BookItem>, o: MarkdownOptions)
    requires
        a.len() == b.len(),
        forall|i: int| 0 <= i < a.len() ==> #[trigger] item_renamed(a[i], b[i], o),
    ensures
        items_renamed(a, b, o),
    decreases a.len(),
{
    if a.len() > 0 {
        let a1 = a.subrange(1, a.len() as int);
        let b1 = b.subrange(1, b.len() as int);
        assert forall|i: int| 0 <= i < a1.len() implies #[trigger] item_renamed(a1[i], b1[i], o) by {
            assert(a1[i] == a[i + 1] && b1[i] == b[i + 1]);
        }
        lemma_items_renamed_intro(a1, b1, o);
        assert(item_renamed(a[0], b[0], o));
        assert(items_renamed(a1, b1, o));
    }
}

fn rename_items(items: &mut Vec<BookItem>, options: &MarkdownOptions)
    ensures
        items_renamed(old(items)@, final(items)@, *options),
    decreases *old(items),
{
    let n = items.len();
    let mut i: usize = 0;
    while i < n
        invariant
            i <= n,
            items@.len() == n,
            n == old(items)@.len(),
            forall|j: int| i <= j < n ==> items@[j] == old(items)@[j],
            forall|j: int| 0 <= j < i ==> #[trigger] item_renamed(old(items)@[j], items@[j], *options),
        decreases n - i,
    {
        let ghost before = items@;
        let item = &mut items[i];
        if let BookItem::Chapter(ch) = item {
            assert(decreases_to!(*old(items) => old(items)@));
            assert(decreases_to!(old(items)@ => old(items)@[i as int]));
            rename_items(&mut ch.sub_items, options);
            if let Some(path) = &ch.path {
                let renamed = readme_to_index(path.as_str());
                ch.path = Some(renamed);
            }
            ch.content = match fix_readme_links(ch.content.as_str(), options) {
                Some(t) => t,
                None => String::new(),
            };
        }
        proof {
            assert forall|j: int| 0 <= j < i + 1 implies #[trigger] item_renamed(
                old(items)@[j],
                items@[j],
                *options,
            ) by {
                if j < i {
                    assert(items@[j] == before[j]);
                }
            }
        }
        i = i + 1;
    }
    proof {
        lemma_items_renamed_intro(old(items)@, items@, *options);
    }
}

/// A renderer to output the Markdown after the preprocessors have run.
#[derive(Debug, Default)]
pub struct MarkdownRenderer;

impl MarkdownRenderer {
    /// Create a new `MarkdownRenderer` instance.
    pub fn new() -> (r: MarkdownRenderer) {
        MarkdownRenderer
    }

    /// The renderer's name, `markdown`.
    pub fn name(&self) -> (r: String)
        ensures
            r@ == seq!['m', 'a', 'r', 'k', 'd', 'o', 'w', 'n'],
    {
        string_from_chars(&['m', 'a', 'r', 'k', 'd', 'o', 'w', 'n'])
    }
}

/// The HTML renderer.
#[derive(Debug, Default)]
pub struct HtmlHandlebars;

impl HtmlHandlebars {
    /// Create a new HTML renderer.
    pub fn new() -> (r: HtmlHandlebars) {
        HtmlHandlebars
    }

    /// The renderer's name, `html`.
    pub fn name(&self) -> (r: String)
        ensures
            r@ == seq!['h', 't', 'm', 'l'],
    {
        string_from_chars(&['h', 't', 'm', 'l'])
    }
}

/// A generic renderer which shells out to an arbitrary executable.
#[derive(Debug, Clone, PartialEq)]
pub struct CmdRenderer {
    name: String,
    cmd: String,
}

impl CmdRenderer {
    /// Create a new `CmdRenderer` which will invoke the provided `cmd` string.
    pub fn new(name: String, cmd: String) -> (r: CmdRenderer)
        ensures
            r.name_spec() == name@,
            r.cmd_spec() == cmd@,
    {
        CmdRenderer { name, cmd }
    }

    /// The renderer's name.
    pub closed spec fn name_spec(&self) -> Seq<char> {
        self.name@
    }

    /// The renderer's command.
    pub closed spec fn cmd_spec(&self) -> Seq<char> {
        self.cmd@
    }

    /// The renderer's name.
    pub fn name(&self) -> (r: &str)
        ensures
            r@ == self.name_spec(),
    {
        self.name.as_str()
    }

    /// The command this renderer invokes.
    pub fn cmd(&self) -> (r: &str)
        ensures
            r@ == self.cmd_spec(),
    {
        self.cmd.as_str()
    }
}

/// Which renderer an `output` table of the configuration stands for.
#[derive(Debug, Clone, PartialEq)]
pub enum RendererChoice {
    /// The HTML renderer.
    Html,
    /// The Markdown renderer.
    Markdown,
    /// A command renderer with its name and command.
    Command(CmdRenderer),
}

impl RendererChoice {
    /// The name of the chosen renderer.
    pub fn name(&self) -> (r: String)
        ensures
            r@ == match self {
                RendererChoice::Html => seq!['h', 't', 'm', 'l'],
                RendererChoice::Markdown => seq!['m', 'a', 'r', 'k', 'd', 'o', 'w', 'n'],
                RendererChoice::Command(c) => c.name_spec(),
            },
    {
        match self {
            RendererChoice::Html => HtmlHandlebars::new().name(),
            RendererChoice::Markdown => MarkdownRenderer::new().name(),
            RendererChoice::Command(c) => c.name().to_owned(),
        }
    }
}

/// The renderer for an `output.<key>` table with an optional `command`:
/// `html` and `markdown` are built in; any other key runs its command, by
/// default `mdbook-<key>`.
pub open spec fn renderer_for(key: Seq<char>, command: Option<Seq<char>>) -> (Seq<char>, Seq<char>) {
    (
        key,
        match command {
            Some(c) => c,
            None => seq!['m', 'd', 'b', 'o', 'o', 'k', '-'] + key,
        },
    )
}

/// What the choice for an output table is.
pub open spec fn choice_matches(c: RendererChoice, key: Seq<char>, command: Option<Seq<char>>) -> bool {
    if key == seq!['h', 't', 'm', 'l'] {
        c == RendererChoice::Html
    } else if key == seq!['m', 'a', 'r', 'k', 'd', 'o', 'w', 'n'] {
        c == RendererChoice::Markdown
    } else {
        c matches RendererChoice::Command(r) && (r.name_spec(), r.cmd_spec()) == renderer_for(
            key,
            command,
        )
    }
}

/// The view of an optional string.
pub open spec fn opt_view(o: Option<String>) -> Option<Seq<char>> {
    match o {
        Some(s) => Some(s@),
        None => None,
    }
}

/// The keys of the `output` tables.
pub open spec fn output_keys(outputs: Seq<(String, Option<String>)>) -> Seq<Seq<char>> {
    outputs.map_values(|o: (String, Option<String>)| o.0@)
}

/// Whether `c` is the renderer for the `output` table with key `key`.
pub open spec fn renders_output(
    c: RendererChoice,
    outputs: Seq<(String, Option<String>)>,
    key: Seq<char>,
) -> bool {
    exists|j: int|
        0 <= j < outputs.len() && outputs[j].0@ == key && #[trigger] choice_matches(
            c,
            outputs[j].0@,
            opt_view(outputs[j].1),
        )
}

/// The renderer for one `output` table.
fn choice_of(key: &String, command: &Option<String>) -> (c: RendererChoice)
    ensures
        choice_matches(c, key@, opt_view(*command)),
{
    let k = chars_of(key.as_str());
    let html: [char; 4] = ['h', 't', 'm', 'l'];
    let md: [char; 8] = ['m', 'a', 'r', 'k', 'd', 'o', 'w', 'n'];
    let prefix: [char; 7] = ['m', 'd', 'b', 'o', 'o', 'k', '-'];
    assert(html@ == seq!['h', 't', 'm', 'l']);
    assert(md@ == seq!['m', 'a', 'r', 'k', 'd', 'o', 'w', 'n']);
    assert(prefix@ == seq!['m', 'd', 'b', 'o', 'o', 'k', '-']);
    if chars_eq(&k, &html) {
        RendererChoice::Html
    } else if chars_eq(&k, &md) {
        RendererChoice::Markdown
    } else {
        let cmd = match command {
            Some(c) => c.clone(),
            None => {
                let mut v: Vec<char> = Vec::new();
                append_chars(&mut v, &prefix);
                append_chars(&mut v, &k);
                string_from_chars(&v)
            },
        };
        RendererChoice::Command(CmdRenderer::new(key.clone(), cmd))
    }
}

/// Picks the renderers for the `output` tables of the configuration, given
/// as pairs of key and optional command, ordered by key; with no tables,
/// the HTML renderer.
pub fn determine_renderers(outputs: &Vec<(String, Option<String>)>) -> (r: Vec<RendererChoice>)
    requires
        output_keys(outputs@).no_duplicates(),
    ensures
        outputs@.len() == 0 ==> r@ == seq![RendererChoice::Html],
        outputs@.len() > 0 ==> r@.len() == outputs@.len() && forall|i: int|
            0 <= i < r@.len() ==> renders_output(
                #[trigger] r@[i],
                outputs@,
                sorted_names(output_keys(outputs@).to_set())[i],
            ),
{
    let mut out: Vec<RendererChoice> = Vec::new();
    if outputs.len() == 0 {
        out.push(RendererChoice::Html);
        assert(out@ =~= seq![RendererChoice::Html]);
        return out;
    }
    let mut keys: Vec<String> = Vec::new();
    let mut ids: Vec<u64> = Vec::new();
    let mut i: usize = 0;
    while i < outputs.len()
        invariant
            i <= outputs@.len(),
            keys@.len() == i,
            ids@.len() == i,
            string_views(keys@) == output_keys(outputs@).take(i as int),
            forall|k: int| 0 <= k < i ==> #[trigger] ids@[k] == k,
        decreases outputs@.len() - i,
    {
        keys.push(outputs[i].0.clone());
        ids.push(i as u64);
        assert(string_views(keys@) =~= output_keys(outputs@).take(i + 1));
        i = i + 1;
    }
    let ghost nv = string_views(keys@);
    assert(nv =~= output_keys(outputs@));
    assert forall|a: int, b: int| 0 <= a < b < ids@.len() implies ids@[a] != ids@[b] by {}
    let sorted = sort_by_name(&ids, &keys);
    let ghost q = name_seq(nv, sorted@);
    proof {
        assert forall|x: Seq<char>| q.to_set().contains(x) <==> nv.to_set().contains(x) by {
            if q.to_set().contains(x) {
                let k = choose|k: int| 0 <= k < q.len() && q[k] == x;
                assert(nv[sorted@[k] as int] == x);
            }
            if nv.to_set().contains(x) {
                let k = choose|k: int| 0 <= k < nv.len() && nv[k] == x;
                assert(ids@[k] == k);
                assert(ids@.to_set().contains(ids@[k]));
                let m = choose|m: int| 0 <= m < sorted@.len() && sorted@[m] == ids@[k];
                assert(q[m] == x);
            }
        }
        assert(q.to_set() =~= nv.to_set());
        let c = sorted_names(nv.to_set());
        lemma_sorted_unique(c, q);
    }
    let mut k: usize = 0;
    while k < sorted.len()
        invariant
            k <= sorted@.len(),
            sorted@.len() == outputs@.len(),
            out@.len() == k,
            nv == output_keys(outputs@),
            q == name_seq(nv, sorted@),
            q == sorted_names(output_keys(outputs@).to_set()),
            forall|m: int| 0 <= m < sorted@.len() ==> #[trigger] sorted@[m] < keys@.len(),
            keys@.len() == outputs@.len(),
            forall|m: int| 0 <= m < k ==> renders_output(#[trigger] out@[m], outputs@, q[m]),
        decreases sorted@.len() - k,
    {
        let id = sorted[k];
        assert(id < outputs.len());
        let j = id as usize;
        assert(j as int == id as int);
        let c = choice_of(&outputs[j].0, &outputs[j].1);
        let ghost before = out@;
        out.push(c);
        proof {
            assert(q[k as int] == nv[j as int]);
            assert(choice_matches(c, outputs@[j as int].0@, opt_view(outputs@[j as int].1)));
            assert(renders_output(c, outputs@, q[k as int]));
            assert forall|m: int| 0 <= m < k + 1 implies renders_output(#[trigger] out@[m], outputs@, q[m]) by {
                if m < k {
                    assert(out@[m] == before[m]);
                }
            }
        }
        k = k + 1;
    }
    out
}

/// What decides whether a preprocessor runs for a renderer.
#[derive(Debug, Clone, Copy, PartialEq, Eq, Structural)]
pub enum RunDecision {
    /// It runs.
    Run,
    /// It does not run.
    Skip,
    /// The preprocessor itself is asked whether it supports the renderer.
    AskPreprocessor,
}

/// Whether a preprocessor runs with a renderer: a default preprocessor,
/// when default preprocessors are in use, is asked; otherwise the
/// `renderers` list of its table decides when there is one, and the
/// preprocessor is asked when there is none.
pub open spec fn run_decision(
    use_default_preprocessors: bool,
    is_default: bool,
    renderers: Option<Seq<Seq<char>>>,
    renderer: Seq<char>,
) -> RunDecision {
    if use_default_preprocessors && is_default {
        RunDecision::AskPreprocessor
    } else {
        match renderers {
            Some(list) => if list.contains(renderer) {
                RunDecision::Run
            } else {
                RunDecision::Skip
            },
            None => RunDecision::AskPreprocessor,
        }
    }
}

/// Whether a preprocessor runs, once the decision is known and, where it
/// is asked, the preprocessor's own answer.
pub open spec fn runs(decision: RunDecision, supports_renderer: bool) -> bool {
    match decision {
        RunDecision::Run => true,
        RunDecision::Skip => false,
        RunDecision::AskPreprocessor => supports_renderer,
    }
}

/// Completes a decision with the preprocessor's answer to whether it
/// supports the renderer; see [`runs`].
pub fn resolve_run(decision: RunDecision, supports_renderer: bool) -> (r: bool)
    ensures
        r == runs(decision, supports_renderer),
{
    match decision {
        RunDecision::Run => true,
        RunDecision::Skip => false,
        RunDecision::AskPreprocessor => supports_renderer,
    }
}

/// Whether a preprocessor name is one of the default ones, `links` and
/// `index`.
pub open spec fn is_default_name(name: Seq<char>) -> bool {
    name == links_name() || name == index_name()
}

/// Whether a preprocessor is one of the defaults.
pub fn is_default_preprocessor(name: &str) -> (r: bool)
    ensures
        r == is_default_name(name@),
{
    let n = chars_of(name);
    let links: [char; 5] = ['l', 'i', 'n', 'k', 's'];
    let index: [char; 5] = ['i', 'n', 'd', 'e', 'x'];
    assert(links@ == links_name() && index@ == index_name());
    chars_eq(&n, &links) || chars_eq(&n, &index)
}

/// Decides whether a preprocessor runs with a renderer; see [`run_decision`].
pub fn preprocessor_should_run(
    use_default_preprocessors: bool,
    preprocessor: &str,
    renderers: Option<&Vec<String>>,
    renderer: &str,
) -> (r: RunDecision)
    ensures
        r == run_decision(
            use_default_preprocessors,
            is_default_name(preprocessor@),
            match renderers {
                Some(l) => Some(string_views(l@)),
                None => None,
            },
            renderer@,
        ),
{
    if use_default_preprocessors && is_default_preprocessor(preprocessor) {
        return RunDecision::AskPreprocessor;
    }
    match renderers {
        Some(list) => {
            let want = chars_of(renderer);
            let mut i: usize = 0;
            while i < list.len()
                invariant
                    i <= list@.len(),
                    want@ == renderer@,
                    renderers == Some(list),
                    !(use_default_preprocessors && is_default_name(preprocessor@)),
                    forall|j: int| 0 <= j < i ==> list@[j]@ != renderer@,
                decreases list@.len() - i,
            {
                let name = chars_of(list[i].as_str());
                if chars_eq(&name, &want) {
                    assert(string_views(list@)[i as int] == renderer@);
                    assert(string_views(list@).contains(renderer@));
                    return RunDecision::Run;
                }
                i = i + 1;
            }
            proof {
                if string_views(list@).contains(renderer@) {
                    let j = choose|j: int|
                        0 <= j < string_views(list@).len() && string_views(list@)[j] == renderer@;
                    assert(list@[j]@ == renderer@);
                }
            }
            RunDecision::Skip
        },
        None => RunDecision::AskPreprocessor,
    }
}

} // verus!
