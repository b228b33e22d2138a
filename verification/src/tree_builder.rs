//! Builds the HTML tree of a chapter from the events of its Markdown.
//!
//! The builder takes the parser's events one at a time. It keeps a stack of
//! the elements that are open; an event opens an element, closes the
//! innermost one, or adds text or a finished node to it. HTML written in the
//! Markdown is handed back to the caller, who splits it into tokens and
//! feeds them in; the builder turns them into elements marked as raw. At the
//! end, footnote definitions are moved to a list at the bottom, each with
//! links back to its references.

use vstd::prelude::*;
use crate::html_serialize::{
    attrs_view, children_view, lemma_children_view, node_view, value_view, void_names, is_void_element,
    AttrNamespace, AttrView, HtmlElement, HtmlNode, NodeValue, NodeView, ValueView,
};
use crate::chapter_html::{add_header_links, code_tree, link_headers, node_total, update_code_blocks, CodeBlockOptions};
use crate::fontawesome::{convert_fontawesome, icon_tree};
use crate::links::{fix_link, fixed_link};
use crate::print_page::node_count;
use crate::print_page::{attr_of, get_attr, set_attr, with_attr};
use crate::text::{
    append_chars, chars_eq, chars_of, decimal, join_chars, join_with, push_decimal, push_decimal_u64, string_from_chars,
    views,
};

verus! {

/// How a table column is aligned.
#[derive(Debug, Clone, Copy, PartialEq, Eq, Structural)]
pub enum ColumnAlignment {
    /// No alignment given.
    Unaligned,
    /// Left.
    Left,
    /// Centered.
    Center,
    /// Right.
    Right,
}

/// The kinds of alert that a block quote can be marked as.
#[derive(Debug, Clone, Copy, PartialEq, Eq, Structural)]
pub enum QuoteKind {
    /// A note.
    Note,
    /// A tip.
    Tip,
    /// Something important.
    Important,
    /// A warning.
    Warning,
    /// A caution.
    Caution,
}

/// How a link was written.
#[derive(Debug, Clone, Copy, PartialEq, Eq, Structural)]
pub enum LinkKind {
    /// `[text](url)`.
    Inline,
    /// `[text][label]`.
    Reference,
    /// `[text][label]` with a label that has no definition.
    ReferenceUnknown,
    /// `[text][]`.
    Collapsed,
    /// `[text][]` with no definition.
    CollapsedUnknown,
    /// `[text]`.
    Shortcut,
    /// `[text]` with no definition.
    ShortcutUnknown,
    /// `<url>`.
    Autolink,
    /// `<address>` of an e-mail.
    Email,
    /// `[[page]]`, with or without a pipe.
    WikiLink(bool),
}

/// How a metadata block is fenced.
#[derive(Debug, Clone, Copy, PartialEq, Eq, Structural)]
pub enum MetadataKind {
    /// `---`.
    YamlStyle,
    /// `+++`.
    PlusesStyle,
}

/// The tag of an event that opens a Markdown element.
#[derive(Debug, Clone, PartialEq)]
pub enum MdTag {
    /// A paragraph.
    Paragraph,
    /// A heading of the given level (1 to 6), with the id, classes and
    /// other attributes written after it.
    Heading { level: u8, id: Option<String>, classes: Vec<String>, attrs: Vec<(String, Option<String>)> },
    /// A block quote, with the kind of alert it is marked as, if any. The
    /// tree gets a plain block quote either way.
    BlockQuote(Option<QuoteKind>),
    /// A code block; fenced ones carry their info string.
    CodeBlock(Option<String>),
    /// A block of HTML.
    HtmlBlock,
    /// A list, numbered from the given start when it is ordered.
    List(Option<u64>),
    /// A list item.
    Item,
    /// The definition of the named footnote.
    FootnoteDefinition(String),
    /// A definition list.
    DefinitionList,
    /// A term of a definition list.
    DefinitionListTitle,
    /// A definition of a definition list.
    DefinitionListDefinition,
    /// A table, with the alignment of each column.
    Table(Vec<ColumnAlignment>),
    /// The head of a table.
    TableHead,
    /// A row of a table.
    TableRow,
    /// A cell of a table.
    TableCell,
    /// Emphasis.
    Emphasis,
    /// Strong emphasis.
    Strong,
    /// Struck-through text.
    Strikethrough,
    /// Superscript.
    Superscript,
    /// Subscript.
    Subscript,
    /// A link; `email` for an autolinked e-mail address.
    Link { kind: LinkKind, dest_url: String, title: String, id: String },
    /// An image; its description follows as events.
    Image { kind: LinkKind, dest_url: String, title: String, id: String },
    /// A metadata block.
    MetadataBlock(MetadataKind),
}

/// The kind of element that an end event closes.
#[derive(Debug, Clone, Copy, PartialEq, Eq, Structural)]
pub enum MdTagEnd {
    Paragraph,
    /// The end of a heading of the given level.
    Heading(u8),
    /// The end of a block quote, with its alert kind.
    BlockQuote(Option<QuoteKind>),
    CodeBlock,
    HtmlBlock,
    /// The end of a list; `true` for an ordered one.
    List(bool),
    Item,
    FootnoteDefinition,
    DefinitionList,
    DefinitionListTitle,
    DefinitionListDefinition,
    Table,
    TableHead,
    TableRow,
    TableCell,
    Emphasis,
    Strong,
    Strikethrough,
    Superscript,
    Subscript,
    Link,
    Image,
    /// The end of a metadata block of the given kind.
    MetadataBlock(MetadataKind),
}

/// An event of the Markdown parser.
#[derive(Debug, Clone, PartialEq)]
pub enum MdEvent {
    /// An element opens.
    Start(MdTag),
    /// An element closes.
    End(MdTagEnd),
    /// Text.
    Text(String),
    /// Inline code.
    Code(String),
    /// Inline math.
    InlineMath(String),
    /// Display math.
    DisplayMath(String),
    /// HTML inside an HTML block.
    Html(String),
    /// Inline HTML.
    InlineHtml(String),
    /// A reference to the named footnote.
    FootnoteReference(String),
    /// A soft line break.
    SoftBreak,
    /// A hard line break.
    HardBreak,
    /// A horizontal rule.
    Rule,
    /// The box of a task list item, checked or not.
    TaskListMarker(bool),
}

/// A token of HTML.
#[derive(Debug, Clone, PartialEq)]
pub enum HtmlToken {
    /// A start tag, with its attributes in order.
    StartTag { name: String, attrs: Vec<(String, String)>, self_closing: bool },
    /// An end tag.
    EndTag(String),
    /// A comment.
    Comment(String),
    /// Characters.
    Characters(String),
    /// A doctype, a parse error or anything else that adds nothing.
    Ignored,
}

/// An open node as values: the node built so far, whether an end event
/// closes it, and the footnote it defines, if any.
pub struct OpenView {
    /// The node with the children added so far.
    pub node: NodeView,
    /// Whether the node is closed by an end event of its own. A node that
    /// is not is closed together with the one above it.
    pub counted: bool,
    /// The name of the footnote that the node defines.
    pub footnote: Option<Seq<char>>,
}

/// What the builder does with the events it gets, as values.
pub enum ModeView {
    /// Builds the tree.
    Normal,
    /// Collects the HTML of an HTML block.
    HtmlBlock(Seq<char>),
    /// Collects the text of an image's description: the image's attributes
    /// so far, the text, and how deep inside the description it is.
    ImageAlt { attrs: Seq<AttrView>, alt: Seq<char>, depth: nat },
    /// Skips events until the end of the element it is in, at the given
    /// depth.
    Skip(nat),
    /// Skips a metadata block.
    Metadata,
}

/// The state of the builder as values.
pub struct BuilderView {
    /// The open nodes, the root first.
    pub stack: Seq<OpenView>,
    /// What is done with the next events.
    pub mode: ModeView,
    /// Whether table cells are head cells.
    pub table_head: bool,
    /// The alignments of the columns of the current table.
    pub alignments: Seq<ColumnAlignment>,
    /// The column of the next table cell.
    pub cell_index: nat,
    /// The referenced footnotes in order of first reference, each with the
    /// number of references to it; a footnote's number is its position
    /// plus one.
    pub numbers: Seq<(Seq<char>, nat)>,
    /// The names of the footnotes whose definition has started.
    pub def_names: Seq<Seq<char>>,
    /// The finished footnote definitions, in order.
    pub defs: Seq<(Seq<char>, NodeView)>,
}

/// A node without children.
pub open spec fn leaf(v: ValueView) -> NodeView {
    NodeView { value: v, children: seq![] }
}

/// A text node.
pub open spec fn text_node(t: Seq<char>) -> NodeView {
    leaf(ValueView::Text(t))
}

/// An element made from Markdown, with the given attributes.
pub open spec fn md_element(name: Seq<char>, attrs: Seq<AttrView>) -> ValueView {
    ValueView::Element { name, attrs, self_closing: false, was_raw: false }
}

/// A plain attribute.
pub open spec fn plain(name: Seq<char>, value: Seq<char>) -> AttrView {
    (AttrNamespace::Plain, name, value)
}

/// The builder at its start: the root of a fragment, nothing else.
pub open spec fn initial_view() -> BuilderView {
    BuilderView {
        stack: seq![OpenView { node: leaf(ValueView::Fragment), counted: true, footnote: None }],
        mode: ModeView::Normal,
        table_head: true,
        alignments: seq![],
        cell_index: 0,
        numbers: seq![],
        def_names: seq![],
        defs: seq![],
    }
}

/// The states the builder keeps: the root, a fragment that nothing closes,
/// stays at the bottom, and the innermost open node is closed by an end
/// event of its own.
pub open spec fn wf(b: BuilderView) -> bool {
    &&& b.stack.len() >= 1
    &&& b.stack[0].node.value == ValueView::Fragment
    &&& b.stack[0].counted
    &&& b.stack[0].footnote is None
    &&& b.stack.last().counted
    &&& forall|i: int, j: int| 0 <= i < j < b.numbers.len() ==> (#[trigger] b.numbers[i]).0 != (#[trigger] b.numbers[j]).0
}

/// The builder with the innermost open node replaced.
pub open spec fn with_top(b: BuilderView, n: NodeView) -> BuilderView {
    let top = b.stack.last();
    BuilderView {
        stack: b.stack.update(b.stack.len() - 1, OpenView { node: n, counted: top.counted, footnote: top.footnote }),
        ..b
    }
}

/// The builder with `n` added as the last child of the innermost open node.
pub open spec fn append(b: BuilderView, n: NodeView) -> BuilderView {
    let top = b.stack.last().node;
    with_top(b, NodeView { value: top.value, children: top.children.push(n) })
}

/// The builder with text added to the innermost open node: merged into its
/// last child when that is text, a new text node otherwise.
pub open spec fn append_text(b: BuilderView, t: Seq<char>) -> BuilderView {
    let top = b.stack.last().node;
    let cs = top.children;
    if cs.len() > 0 && cs.last().value is Text {
        let last = cs.last();
        with_top(
            b,
            NodeView {
                value: top.value,
                children: cs.update(
                    cs.len() - 1,
                    NodeView { value: ValueView::Text(last.value->Text_0 + t), children: last.children },
                ),
            },
        )
    } else {
        append(b, text_node(t))
    }
}

/// The builder with a new open node holding `v`.
pub open spec fn push(b: BuilderView, v: ValueView, counted: bool, footnote: Option<Seq<char>>) -> BuilderView {
    BuilderView { stack: b.stack.push(OpenView { node: leaf(v), counted, footnote }), ..b }
}

/// The builder with the innermost open node closed: a footnote definition
/// is kept aside, any other node becomes the last child of the node below.
pub open spec fn close_top(b: BuilderView) -> BuilderView {
    let e = b.stack.last();
    let rest = BuilderView { stack: b.stack.drop_last(), ..b };
    match e.footnote {
        Some(name) => BuilderView { defs: b.defs.push((name, e.node)), ..rest },
        None => append(rest, e.node),
    }
}

/// The builder with the open nodes on top that no end event closes closed.
pub open spec fn close_uncounted(b: BuilderView) -> BuilderView
    decreases b.stack.len(),
{
    if b.stack.len() > 1 && !b.stack.last().counted {
        close_uncounted(close_top(b))
    } else {
        b
    }
}

/// The builder after an end event closes the innermost open node, and with
/// it the nodes below that no end event closes.
pub open spec fn pop(b: BuilderView) -> BuilderView {
    close_uncounted(close_top(b))
}

/// The bottom node of `a` is that of `b`, but for the children added.
pub open spec fn same_root(a: BuilderView, b: BuilderView) -> bool {
    &&& a.stack[0].node.value == b.stack[0].node.value
    &&& a.stack[0].counted == b.stack[0].counted
    &&& a.stack[0].footnote == b.stack[0].footnote
}

/// Closing keeps the root and takes one node at least.
pub proof fn lemma_pop_len(b: BuilderView)
    requires
        b.stack.len() > 1,
    ensures
        1 <= pop(b).stack.len() < b.stack.len(),
        same_root(pop(b), b),
{
    lemma_close_uncounted(close_top(b));
}

/// Closing the uncounted nodes keeps the root and takes no node away but
/// those.
pub proof fn lemma_close_uncounted(b: BuilderView)
    requires
        b.stack.len() >= 1,
    ensures
        1 <= close_uncounted(b).stack.len() <= b.stack.len(),
        same_root(close_uncounted(b), b),
        b.stack[0].counted ==> close_uncounted(b).stack.last().counted,
    decreases b.stack.len(),
{
    if b.stack.len() > 1 && !b.stack.last().counted {
        lemma_close_uncounted(close_top(b));
    }
}

/// Whether the innermost open node is an element written as HTML.
pub open spec fn top_is_raw(b: BuilderView) -> bool {
    b.stack.last().node.value matches ValueView::Element { was_raw, .. } && was_raw
}

/// The builder with the elements written as HTML that are open on top
/// closed, as an end event of Markdown closes them first.
pub open spec fn unwind_raw(b: BuilderView) -> BuilderView
    decreases b.stack.len(),
{
    if b.stack.len() > 1 && top_is_raw(b) {
        proof {
            lemma_pop_len(b);
        }
        unwind_raw(pop(b))
    } else {
        b
    }
}

/// The tag name of a heading of the given level.
pub open spec fn heading_name(level: u8) -> Seq<char> {
    seq!['h'] + decimal(level as nat)
}

/// The attributes written after a heading, in order, each replacing an
/// earlier one of the same name; one without a value gets the empty value.
pub open spec fn heading_attr_list(attrs: Seq<(String, Option<String>)>) -> Seq<AttrView>
    decreases attrs.len(),
{
    if attrs.len() == 0 {
        seq![]
    } else {
        let a = attrs.last();
        with_attr(
            heading_attr_list(attrs.drop_last()),
            a.0@,
            match a.1 {
                Some(v) => v@,
                None => seq![],
            },
        )
    }
}

/// The views of a list of strings.
pub open spec fn strings_view(v: Seq<String>) -> Seq<Seq<char>> {
    v.map_values(|s: String| s@)
}

/// The attributes of a heading: those written after it, then its id, then
/// its classes separated by spaces.
pub open spec fn heading_attrs(id: Option<String>, classes: Seq<String>, attrs: Seq<(String, Option<String>)>) -> Seq<AttrView> {
    let a1 = heading_attr_list(attrs);
    let a2 = match id {
        Some(i) => with_attr(a1, "id"@, i@),
        None => a1,
    };
    if classes.len() > 0 {
        with_attr(a2, "class"@, join_with(strings_view(classes), " "@))
    } else {
        a2
    }
}

/// Whether a character separates the words of a code block's info string.
pub open spec fn is_info_sep(c: char) -> bool {
    c == ' ' || c == '\t' || c == ','
}

/// The words of an info string: the longest runs of characters that
/// separate nothing, in order.
pub open spec fn info_words(s: Seq<char>) -> Seq<Seq<char>>
    decreases s.len(),
{
    if s.len() == 0 {
        seq![]
    } else {
        let w = info_words(s.drop_last());
        let c = s.last();
        if is_info_sep(c) {
            w
        } else if s.len() > 1 && !is_info_sep(s[s.len() - 2]) {
            w.update(w.len() - 1, w.last().push(c))
        } else {
            w.push(seq![c])
        }
    }
}

/// The attributes of the code element of a code block: a fenced block
/// whose info string has words gets the class `language-` and the first
/// word, then the other words, separated by spaces.
pub open spec fn code_attrs(info: Option<String>) -> Seq<AttrView> {
    match info {
        Some(i) => if info_words(i@).len() > 0 {
            seq![plain("class"@, "language-"@ + join_with(info_words(i@), " "@))]
        } else {
            seq![]
        },
        None => seq![],
    }
}

/// The attributes of an ordered list: its start unless it starts at one.
pub open spec fn list_attrs(start: u64) -> Seq<AttrView> {
    if start != 1 {
        seq![plain("start"@, decimal(start as nat))]
    } else {
        seq![]
    }
}

/// The style of a table cell in the given column.
pub open spec fn cell_attrs(al: Seq<ColumnAlignment>, i: nat) -> Seq<AttrView> {
    if i < al.len() {
        match al[i as int] {
            ColumnAlignment::Left => seq![plain("style"@, "text-align: left"@)],
            ColumnAlignment::Center => seq![plain("style"@, "text-align: center"@)],
            ColumnAlignment::Right => seq![plain("style"@, "text-align: right"@)],
            ColumnAlignment::Unaligned => seq![],
        }
    } else {
        seq![]
    }
}

/// The title attribute, when the title is not empty.
pub open spec fn title_attr(title: Seq<char>) -> Seq<AttrView> {
    if title.len() > 0 {
        seq![plain("title"@, title)]
    } else {
        seq![]
    }
}

/// The attributes of a link: where it goes (a `mailto:` address for an
/// e-mail, the adjusted destination otherwise) and its title.
pub open spec fn link_attrs(email: bool, dest: Seq<char>, title: Seq<char>) -> Seq<AttrView> {
    seq![plain("href"@, if email { "mailto:"@ + dest } else { fixed_link(dest) })] + title_attr(title)
}

/// The attributes of an image before its description: its adjusted source
/// and its title.
pub open spec fn image_attrs(dest: Seq<char>, title: Seq<char>) -> Seq<AttrView> {
    seq![plain("src"@, fixed_link(dest))] + title_attr(title)
}

/// The element that a tag opens and that nothing else comes with, if the
/// tag is of that kind.
pub open spec fn simple_name(tag: MdTag) -> Option<Seq<char>> {
    match tag {
        MdTag::Paragraph => Some("p"@),
        MdTag::BlockQuote(_) => Some("blockquote"@),
        MdTag::List(None) => Some("ul"@),
        MdTag::Item => Some("li"@),
        MdTag::DefinitionList => Some("dl"@),
        MdTag::DefinitionListTitle => Some("dt"@),
        MdTag::DefinitionListDefinition => Some("dd"@),
        MdTag::Emphasis => Some("em"@),
        MdTag::Strong => Some("strong"@),
        MdTag::Strikethrough => Some("del"@),
        MdTag::Superscript => Some("sup"@),
        MdTag::Subscript => Some("sub"@),
        _ => None,
    }
}

/// The builder after the start of an element.
pub open spec fn start(b: BuilderView, tag: MdTag) -> BuilderView {
    match simple_name(tag) {
        Some(name) => push(b, md_element(name, seq![]), true, None),
        None => match tag {
            MdTag::Heading { level, id, classes, attrs } => push(
                b,
                md_element(heading_name(level), heading_attrs(id, classes@, attrs@)),
                true,
                None,
            ),
            MdTag::CodeBlock(info) => push(
                push(b, md_element("pre"@, seq![]), false, None),
                md_element("code"@, code_attrs(info)),
                true,
                None,
            ),
            MdTag::HtmlBlock => BuilderView { mode: ModeView::HtmlBlock(seq![]), ..b },
            MdTag::List(Some(n)) => push(b, md_element("ol"@, list_attrs(n)), true, None),
            MdTag::FootnoteDefinition(name) => if b.def_names.contains(name@) {
                BuilderView { mode: ModeView::Skip(0), ..b }
            } else {
                push(
                    BuilderView { def_names: b.def_names.push(name@), ..b },
                    md_element("li"@, seq![plain("id"@, "footnote-"@ + name@)]),
                    true,
                    Some(name@),
                )
            },
            MdTag::Table(al) => push(
                push(
                    BuilderView { alignments: al@, ..b },
                    md_element("div"@, seq![plain("class"@, "table-wrapper"@)]),
                    false,
                    None,
                ),
                md_element("table"@, seq![]),
                true,
                None,
            ),
            MdTag::TableHead => push(
                push(BuilderView { table_head: true, cell_index: 0, ..b }, md_element("thead"@, seq![]), false, None),
                md_element("tr"@, seq![]),
                true,
                None,
            ),
            MdTag::TableRow => push(BuilderView { cell_index: 0, ..b }, md_element("tr"@, seq![]), true, None),
            MdTag::TableCell => push(
                b,
                md_element(if b.table_head { "th"@ } else { "td"@ }, cell_attrs(b.alignments, b.cell_index)),
                true,
                None,
            ),
            MdTag::Link { kind, dest_url, title, .. } => push(
                b,
                md_element("a"@, link_attrs(kind == LinkKind::Email, dest_url@, title@)),
                true,
                None,
            ),
            MdTag::Image { dest_url, title, .. } => BuilderView {
                mode: ModeView::ImageAlt { attrs: image_attrs(dest_url@, title@), alt: seq![], depth: 0 },
                ..b
            },
            _ => BuilderView { mode: ModeView::Metadata, ..b },
        },
    }
}

/// The builder after the end of an element: the elements written as HTML
/// that are still open are closed, then the innermost node. The end of a
/// table's head opens its body, the end of a cell moves to the next column,
/// and the end of a table closes the table as well.
pub open spec fn end(b: BuilderView, tag: MdTagEnd) -> BuilderView {
    let b1 = pop(unwind_raw(b));
    match tag {
        MdTagEnd::TableHead => push(BuilderView { table_head: false, ..b1 }, md_element("tbody"@, seq![]), true, None),
        MdTagEnd::TableCell => BuilderView { cell_index: b1.cell_index + 1, ..b1 },
        MdTagEnd::Table => pop(b1),
        _ => b1,
    }
}

/// Whether an end event finds the nodes it closes: an open node made from
/// Markdown, and for a table one more below it.
pub open spec fn can_end(b: BuilderView, tag: MdTagEnd) -> bool {
    let b0 = unwind_raw(b);
    &&& b0.stack.len() > 1
    &&& tag == MdTagEnd::Table ==> pop(b0).stack.len() > 1
    &&& tag == MdTagEnd::TableCell ==> b.cell_index < usize::MAX
}

/// A `span` element of the given class holding text.
pub open spec fn span_text(class: Seq<char>, t: Seq<char>) -> NodeView {
    NodeView { value: md_element("span"@, seq![plain("class"@, class)]), children: seq![text_node(t)] }
}

/// The box of a task list item, followed by a space.
pub open spec fn task_box(checked: bool) -> NodeView {
    NodeView {
        value: md_element(
            "input"@,
            seq![plain("disabled"@, seq![]), plain("type"@, "checkbox"@)] + if checked {
                seq![plain("checked"@, seq![])]
            } else {
                seq![]
            },
        ),
        children: seq![text_node(" "@)],
    }
}

/// The position of the named footnote among the referenced ones, or their
/// number when it is not there.
pub open spec fn footnote_index(numbers: Seq<(Seq<char>, nat)>, name: Seq<char>) -> int
    decreases numbers.len(),
{
    if numbers.len() == 0 {
        0
    } else if numbers[0].0 == name {
        0
    } else {
        1 + footnote_index(numbers.drop_first(), name)
    }
}

/// The referenced footnotes after one more reference to `name`.
pub open spec fn counted_numbers(numbers: Seq<(Seq<char>, nat)>, name: Seq<char>) -> Seq<(Seq<char>, nat)> {
    let i = footnote_index(numbers, name);
    if i < numbers.len() {
        numbers.update(i, (name, numbers[i].1 + 1))
    } else {
        numbers.push((name, 1))
    }
}

/// Whether the last child of the innermost open node is a footnote
/// reference.
pub open spec fn follows_reference(b: BuilderView) -> bool {
    let cs = b.stack.last().node.children;
    cs.len() > 0 && (cs.last().value matches ValueView::Element { attrs, .. } && attr_of(attrs, "class"@)
        == Some("footnote-reference"@))
}

/// The `count`th reference to footnote number `n`, named `name`.
pub open spec fn reference_node(name: Seq<char>, n: nat, count: nat) -> NodeView {
    NodeView {
        value: md_element(
            "sup"@,
            seq![plain("class"@, "footnote-reference"@), plain("id"@, "fr-"@ + name + "-"@ + decimal(count))],
        ),
        children: seq![
            NodeView {
                value: md_element("a"@, seq![plain("href"@, "#footnote-"@ + name)]),
                children: seq![text_node(decimal(n))],
            },
        ],
    }
}

/// The builder after a reference to a footnote: the footnote is counted,
/// gets the next number at its first reference, and a link to it is
/// added, after a space when it follows another reference.
pub open spec fn footnote_reference(b: BuilderView, name: Seq<char>) -> BuilderView {
    let i = footnote_index(b.numbers, name);
    let numbers = counted_numbers(b.numbers, name);
    let b1 = if follows_reference(b) { append(b, text_node(" "@)) } else { b };
    append(BuilderView { numbers, ..b1 }, reference_node(name, (i + 1) as nat, numbers[i].1))
}

/// The builder after an event while it builds the tree, and the HTML to
/// split into tokens and feed in, if any.
pub open spec fn normal_step(b: BuilderView, e: MdEvent) -> (BuilderView, Option<Seq<char>>) {
    match e {
        MdEvent::Start(tag) => (start(b, tag), None),
        MdEvent::End(tag) => (end(b, tag), None),
        MdEvent::Text(t) => (append_text(b, t@), None),
        MdEvent::Code(t) => (
            append(b, NodeView { value: md_element("code"@, seq![]), children: seq![text_node(t@)] }),
            None,
        ),
        MdEvent::InlineMath(t) => (append(b, span_text("math math-inline"@, t@)), None),
        MdEvent::DisplayMath(t) => (append(b, span_text("math math-display"@, t@)), None),
        MdEvent::Html(_) => (b, None),
        MdEvent::InlineHtml(h) => (b, Some(h@)),
        MdEvent::FootnoteReference(name) => (footnote_reference(b, name@), None),
        MdEvent::SoftBreak => (append_text(b, "\n"@), None),
        MdEvent::HardBreak => (append(b, leaf(md_element("br"@, seq![]))), None),
        MdEvent::Rule => (append(b, leaf(md_element("hr"@, seq![]))), None),
        MdEvent::TaskListMarker(c) => (append(b, task_box(c)), None),
    }
}

/// What an event adds to an image's description.
pub open spec fn alt_text(e: MdEvent) -> Seq<char> {
    match e {
        MdEvent::InlineHtml(t) => t@,
        MdEvent::Code(t) => t@,
        MdEvent::Text(t) => t@,
        MdEvent::InlineMath(t) => "$"@ + t@ + "$"@,
        MdEvent::DisplayMath(t) => "$$"@ + t@ + "$$"@,
        MdEvent::SoftBreak => " "@,
        MdEvent::HardBreak => " "@,
        MdEvent::Rule => " "@,
        _ => seq![],
    }
}

/// An image with its description as its `alt` attribute.
pub open spec fn image_node(attrs: Seq<AttrView>, alt: Seq<char>) -> NodeView {
    leaf(md_element("img"@, attrs.push(plain("alt"@, alt))))
}

/// The builder after an event inside an image's description.
pub open spec fn alt_step(b: BuilderView, attrs: Seq<AttrView>, alt: Seq<char>, depth: nat, e: MdEvent) -> BuilderView {
    match e {
        MdEvent::Start(_) => BuilderView { mode: ModeView::ImageAlt { attrs, alt, depth: depth + 1 }, ..b },
        MdEvent::End(_) => if depth == 0 {
            append(BuilderView { mode: ModeView::Normal, ..b }, image_node(attrs, alt))
        } else {
            BuilderView { mode: ModeView::ImageAlt { attrs, alt, depth: (depth - 1) as nat }, ..b }
        },
        _ => BuilderView { mode: ModeView::ImageAlt { attrs, alt: alt + alt_text(e), depth }, ..b },
    }
}

/// The builder after an event that it skips.
pub open spec fn skip_step(b: BuilderView, depth: nat, e: MdEvent) -> BuilderView {
    match e {
        MdEvent::Start(_) => BuilderView { mode: ModeView::Skip(depth + 1), ..b },
        MdEvent::End(_) => if depth == 0 {
            BuilderView { mode: ModeView::Normal, ..b }
        } else {
            BuilderView { mode: ModeView::Skip((depth - 1) as nat), ..b }
        },
        _ => b,
    }
}

/// The builder after an event, and the HTML to split into tokens and feed
/// in, if any.
pub open spec fn step(b: BuilderView, e: MdEvent) -> (BuilderView, Option<Seq<char>>) {
    match b.mode {
        ModeView::Normal => normal_step(b, e),
        ModeView::HtmlBlock(h) => match e {
            MdEvent::Html(t) => (BuilderView { mode: ModeView::HtmlBlock(h + t@), ..b }, None),
            MdEvent::Text(t) => (BuilderView { mode: ModeView::HtmlBlock(h + t@), ..b }, None),
            _ => (BuilderView { mode: ModeView::Normal, ..b }, Some(h)),
        },
        ModeView::ImageAlt { attrs, alt, depth } => (alt_step(b, attrs, alt, depth, e), None),
        ModeView::Skip(depth) => (skip_step(b, depth, e), None),
        ModeView::Metadata => if e matches MdEvent::End(MdTagEnd::MetadataBlock(_)) {
            (BuilderView { mode: ModeView::Normal, ..b }, None)
        } else {
            (b, None)
        },
    }
}

/// Whether the builder takes an event: HTML comes only inside an HTML
/// block, which holds nothing else until its end; an end event finds the
/// nodes it closes; and the counters stay within their machine integers.
pub open spec fn accepts(b: BuilderView, e: MdEvent) -> bool {
    match b.mode {
        ModeView::Normal => match e {
            MdEvent::Html(_) => false,
            MdEvent::End(tag) => can_end(b, tag),
            MdEvent::FootnoteReference(name) => {
                let i = footnote_index(b.numbers, name@);
                &&& b.numbers.len() < usize::MAX
                &&& i < b.numbers.len() ==> b.numbers[i].1 < u32::MAX
            },
            _ => true,
        },
        ModeView::HtmlBlock(_) => e is Html || e is Text || e matches MdEvent::End(MdTagEnd::HtmlBlock),
        ModeView::ImageAlt { depth, .. } => e is Start ==> depth < usize::MAX,
        ModeView::Skip(depth) => e is Start ==> depth < usize::MAX,
        ModeView::Metadata => true,
    }
}

/// The attributes of a tag as written, each replacing an earlier one of
/// the same name.
pub open spec fn token_attrs(attrs: Seq<(String, String)>) -> Seq<AttrView>
    decreases attrs.len(),
{
    if attrs.len() == 0 {
        seq![]
    } else {
        with_attr(token_attrs(attrs.drop_last()), attrs.last().0@, attrs.last().1@)
    }
}

/// The attributes with the link in `name` adjusted, if there is one.
pub open spec fn fix_attr_link(attrs: Seq<AttrView>, name: Seq<char>) -> Seq<AttrView> {
    match attr_of(attrs, name) {
        Some(v) => with_attr(attrs, name, fixed_link(v)),
        None => attrs,
    }
}

/// The attributes of an element written as HTML: those of its tag, with the
/// links of an `a` element adjusted.
pub open spec fn raw_attrs(name: Seq<char>, attrs: Seq<(String, String)>) -> Seq<AttrView> {
    let a = token_attrs(attrs);
    if name == "a"@ {
        fix_attr_link(fix_attr_link(a, "href"@), "xlink:href"@)
    } else {
        a
    }
}

/// Whether the innermost open node is an element of the given name.
pub open spec fn top_named(b: BuilderView, name: Seq<char>) -> bool {
    b.stack.last().node.value matches ValueView::Element { name: n, .. } && n == name
}

/// The builder after a token of HTML, and whether the characters that
/// follow are raw data, as in a `script` or `style` element. An element
/// that is void or whose tag closes itself is added whole; another stays
/// open until an end tag of its name closes it. An end tag of any other
/// name does nothing.
pub open spec fn token_step(b: BuilderView, raw: bool, t: HtmlToken) -> (BuilderView, bool) {
    match t {
        HtmlToken::StartTag { name, attrs, self_closing } => {
            let v = ValueView::Element { name: name@, attrs: raw_attrs(name@, attrs@), self_closing, was_raw: true };
            (
                if self_closing || void_names().contains(name@) {
                    append(b, leaf(v))
                } else {
                    push(b, v, true, None)
                },
                name@ == "script"@ || name@ == "style"@,
            )
        },
        HtmlToken::EndTag(name) => (if top_named(b, name@) { pop(b) } else { b }, false),
        HtmlToken::Comment(c) => (append(b, leaf(ValueView::Comment(c@))), raw),
        HtmlToken::Characters(c) => (
            if raw {
                append(b, leaf(ValueView::RawData(c@)))
            } else {
                append_text(b, c@)
            },
            raw,
        ),
        HtmlToken::Ignored => (b, raw),
    }
}

/// The builder after the tokens of a piece of HTML, in order.
pub open spec fn tokens_step(b: BuilderView, toks: Seq<HtmlToken>) -> (BuilderView, bool)
    decreases toks.len(),
{
    if toks.len() == 0 {
        (b, false)
    } else {
        let (b1, raw) = tokens_step(b, toks.drop_last());
        token_step(b1, raw, toks.last())
    }
}

/// The builder when the events run out: an image whose description was
/// being collected is added, the HTML of an unfinished HTML block is given
/// back to be fed in, and anything skipped is left.
pub open spec fn end_of_events(b: BuilderView) -> (BuilderView, Option<Seq<char>>) {
    match b.mode {
        ModeView::ImageAlt { attrs, alt, .. } => (
            append(BuilderView { mode: ModeView::Normal, ..b }, image_node(attrs, alt)),
            None,
        ),
        ModeView::HtmlBlock(h) => (BuilderView { mode: ModeView::Normal, ..b }, Some(h)),
        _ => (BuilderView { mode: ModeView::Normal, ..b }, None),
    }
}

/// Whether the node at position `i` is an element written as HTML.
pub open spec fn raw_at(b: BuilderView, i: int) -> bool {
    b.stack[i].node.value matches ValueView::Element { was_raw, .. } && was_raw
}

/// Whether the tree can be finished: the events are all taken, and every
/// node still open that an end event would close is an element written as
/// HTML, left unclosed.
pub open spec fn can_finish(b: BuilderView) -> bool {
    &&& b.mode is Normal
    &&& forall|i: int| 1 <= i < b.stack.len() && #[trigger] b.stack[i].counted ==> raw_at(b, i)
}

/// The link back from a footnote's definition to its `usage`th reference.
pub open spec fn backlink(name: Seq<char>, usage: nat) -> NodeView {
    NodeView {
        value: md_element("a"@, seq![plain("href"@, "#fr-"@ + name + "-"@ + decimal(usage))]),
        children: seq![text_node(seq!['\u{21a9}'] + if usage == 1 { seq![] } else { decimal(usage) })],
    }
}

/// The links back to the first `count` references, each after a space.
pub open spec fn backlinks(name: Seq<char>, count: nat) -> Seq<NodeView>
    decreases count,
{
    if count == 0 {
        seq![]
    } else {
        backlinks(name, (count - 1) as nat) + seq![text_node(" "@), backlink(name, count)]
    }
}

/// A footnote's definition with the links back to its references: at the
/// end of its last paragraph when its last child is one, at its own end
/// otherwise.
pub open spec fn with_backlinks(d: NodeView, name: Seq<char>, count: nat) -> NodeView {
    let cs = d.children;
    if cs.len() > 0 && (cs.last().value matches ValueView::Element { name: n, .. } && n == "p"@) {
        let p = cs.last();
        NodeView {
            value: d.value,
            children: cs.update(cs.len() - 1, NodeView { value: p.value, children: p.children + backlinks(name, count) }),
        }
    } else {
        NodeView { value: d.value, children: cs + backlinks(name, count) }
    }
}

/// The position of the definition of the named footnote, or the number of
/// definitions when there is none.
pub open spec fn def_index(defs: Seq<(Seq<char>, NodeView)>, name: Seq<char>) -> int
    decreases defs.len(),
{
    if defs.len() == 0 {
        0
    } else if defs[0].0 == name {
        0
    } else {
        1 + def_index(defs.drop_first(), name)
    }
}

/// The definitions of the referenced footnotes, in the order of their
/// numbers, with their links back; a referenced footnote without a
/// definition has no item, nor has a defined one without a reference.
pub open spec fn footnote_items(numbers: Seq<(Seq<char>, nat)>, defs: Seq<(Seq<char>, NodeView)>) -> Seq<NodeView>
    decreases numbers.len(),
{
    if numbers.len() == 0 {
        seq![]
    } else {
        let prev = footnote_items(numbers.drop_last(), defs);
        let (name, count) = numbers.last();
        let i = def_index(defs, name);
        if i < defs.len() {
            prev.push(with_backlinks(defs[i].1, name, count))
        } else {
            prev
        }
    }
}

/// The builder with the footnotes added to the innermost open node: when
/// any footnote was defined, a rule and the list of the definitions.
pub open spec fn with_footnotes(b: BuilderView) -> BuilderView {
    if b.def_names.len() == 0 {
        b
    } else {
        append(
            append(b, leaf(md_element("hr"@, seq![]))),
            NodeView {
                value: md_element("ol"@, seq![plain("class"@, "footnote-definition"@)]),
                children: footnote_items(b.numbers, b.defs),
            },
        )
    }
}

/// The tree with every open node closed.
pub open spec fn close_all(b: BuilderView) -> NodeView
    decreases b.stack.len(),
{
    if b.stack.len() <= 1 {
        b.stack[0].node
    } else {
        close_all(close_top(b))
    }
}

/// The finished tree.
pub open spec fn finished(b: BuilderView) -> NodeView {
    close_all(with_footnotes(b))
}

/// Whether an event starts a block quote marked as an alert.
pub open spec fn starts_alert(e: MdEvent) -> bool {
    e matches MdEvent::Start(MdTag::BlockQuote(Some(_)))
}

/// Whether an event starts a plain block quote.
pub open spec fn starts_plain_quote(e: MdEvent) -> bool {
    e matches MdEvent::Start(MdTag::BlockQuote(None))
}

/// The events with each alert block quote that the parser split in two
/// made whole again: the start of an alert, an end of a block quote and
/// the start of a plain block quote, in a row, become the start of the
/// alert alone.
pub open spec fn merged_alerts(es: Seq<MdEvent>) -> Seq<MdEvent>
    decreases es.len(),
{
    if es.len() == 0 {
        seq![]
    } else if es.len() >= 3 && starts_alert(es[0]) && (es[1] matches MdEvent::End(MdTagEnd::BlockQuote(_)))
        && starts_plain_quote(es[2]) {
        seq![es[0]] + merged_alerts(es.skip(3))
    } else {
        seq![es[0]] + merged_alerts(es.skip(1))
    }
}

/// Makes the alert block quotes that the parser split in two whole again;
/// see [`merged_alerts`].
pub fn merge_alert_blockquotes(events: Vec<MdEvent>) -> (r: Vec<MdEvent>)
    ensures
        r@ == merged_alerts(events@),
{
    let mut rest = events;
    let mut out: Vec<MdEvent> = Vec::new();
    let ghost all = rest@;
    proof {
        assert(out@ + merged_alerts(rest@) =~= merged_alerts(all));
    }
    while rest.len() > 0
        invariant
            out@ + merged_alerts(rest@) == merged_alerts(all),
        decreases rest@.len(),
    {
        let ghost r0 = rest@;
        let first = rest.remove(0);
        let whole = rest.len() >= 2 && matches!(first, MdEvent::Start(MdTag::BlockQuote(Some(_))))
            && matches!(rest[0], MdEvent::End(MdTagEnd::BlockQuote(_)))
            && matches!(rest[1], MdEvent::Start(MdTag::BlockQuote(None)));
        if whole {
            rest.remove(0);
            rest.remove(0);
            proof {
                assert(rest@ =~= r0.skip(3));
            }
        } else {
            proof {
                assert(rest@ =~= r0.skip(1));
            }
        }
        let ghost o0 = out@;
        out.push(first);
        proof {
            assert(out@ =~= o0 + seq![first]);
            assert(r0[0] == first);
        }
    }
    assert(out@ + merged_alerts(rest@) =~= out@);
    out
}

/// A list's views after one more tree.
pub proof fn lemma_children_view_push(cs: Seq<HtmlNode>, n: HtmlNode)
    ensures
        children_view(cs.push(n)) == children_view(cs).push(node_view(n)),
{
    assert(cs.push(n).subrange(0, cs.len() as int) =~= cs);
}

/// An open node of the builder.
struct OpenNode {
    node: HtmlNode,
    counted: bool,
    footnote: Option<String>,
}

/// What the builder does with the events it gets.
enum BuildMode {
    Normal,
    HtmlBlock(String),
    ImageAlt { attrs: Vec<(AttrNamespace, String, String)>, alt: String, depth: usize },
    Skip(usize),
    Metadata,
}

/// Builds the HTML tree of a chapter from the events of its Markdown; see
/// [`step`] for what each event does.
pub struct TreeBuilder {
    stack: Vec<OpenNode>,
    mode: BuildMode,
    table_head: bool,
    alignments: Vec<ColumnAlignment>,
    cell_index: usize,
    numbers: Vec<(String, u32)>,
    def_names: Vec<String>,
    defs: Vec<(String, HtmlNode)>,
}

/// The view of an optional string.
pub open spec fn opt_str(o: Option<String>) -> Option<Seq<char>> {
    match o {
        Some(s) => Some(s@),
        None => None,
    }
}

spec fn open_view(o: OpenNode) -> OpenView {
    OpenView { node: node_view(o.node), counted: o.counted, footnote: opt_str(o.footnote) }
}

spec fn stack_view(s: Seq<OpenNode>) -> Seq<OpenView> {
    s.map_values(|o: OpenNode| open_view(o))
}

spec fn mode_view(m: BuildMode) -> ModeView {
    match m {
        BuildMode::Normal => ModeView::Normal,
        BuildMode::HtmlBlock(h) => ModeView::HtmlBlock(h@),
        BuildMode::ImageAlt { attrs, alt, depth } => ModeView::ImageAlt { attrs: attrs_view(attrs@), alt: alt@, depth: depth as nat },
        BuildMode::Skip(d) => ModeView::Skip(d as nat),
        BuildMode::Metadata => ModeView::Metadata,
    }
}

spec fn numbers_view(s: Seq<(String, u32)>) -> Seq<(Seq<char>, nat)> {
    s.map_values(|p: (String, u32)| (p.0@, p.1 as nat))
}

spec fn defs_view(s: Seq<(String, HtmlNode)>) -> Seq<(Seq<char>, NodeView)> {
    s.map_values(|p: (String, HtmlNode)| (p.0@, node_view(p.1)))
}

impl View for TreeBuilder {
    type V = BuilderView;

    closed spec fn view(&self) -> BuilderView {
        BuilderView {
            stack: stack_view(self.stack@),
            mode: mode_view(self.mode),
            table_head: self.table_head,
            alignments: self.alignments@,
            cell_index: self.cell_index as nat,
            numbers: numbers_view(self.numbers@),
            def_names: strings_view(self.def_names@),
            defs: defs_view(self.defs@),
        }
    }
}

impl TreeBuilder {
    /// Adds a node as the last child of the innermost open node.
    fn append_node(&mut self, n: HtmlNode)
        requires
            old(self)@.stack.len() >= 1,
        ensures
            final(self)@ == append(old(self)@, node_view(n)),
    {
        let ghost b0 = self@;
        let mut top = self.stack.pop().unwrap();
        let ghost t0 = top;
        top.node.children.push(n);
        proof {
            lemma_children_view_push(t0.node.children@, n);
        }
        self.stack.push(top);
        proof {
            let top_view = b0.stack.last();
            assert(stack_view(self.stack@) =~= b0.stack.update(
                b0.stack.len() - 1,
                OpenView {
                    node: NodeView { value: top_view.node.value, children: top_view.node.children.push(node_view(n)) },
                    counted: top_view.counted,
                    footnote: top_view.footnote,
                },
            ));
        }
    }

    /// Adds text to the innermost open node; see [`append_text`].
    fn append_text(&mut self, t: &str)
        requires
            old(self)@.stack.len() >= 1,
        ensures
            final(self)@ == append_text(old(self)@, t@),
    {
        let ghost b0 = self@;
        let mut top = self.stack.pop().unwrap();
        let ghost t0 = top;
        proof {
            lemma_children_view(t0.node.children@);
        }
        let last = top.node.children.pop();
        match last {
            Some(c) => {
                let ghost c0 = c;
                let HtmlNode { value, children } = c;
                match value {
                    NodeValue::Text(txt) => {
                        let mut s2 = txt;
                        s2.append(t);
                        top.node.children.push(HtmlNode { value: NodeValue::Text(s2), children });
                    },
                    other => {
                        top.node.children.push(HtmlNode { value: other, children });
                        top.node.children.push(HtmlNode { value: NodeValue::Text(t.to_owned()), children: Vec::new() });
                    },
                }
            },
            None => {
                top.node.children.push(HtmlNode { value: NodeValue::Text(t.to_owned()), children: Vec::new() });
            },
        }
        proof {
            lemma_children_view(top.node.children@);
            let cs = t0.node.children@;
            let cv = children_view(cs);
            let nv = children_view(top.node.children@);
            if cs.len() > 0 && cv.last().value is Text {
                assert(nv =~= cv.update(
                    cv.len() - 1,
                    NodeView { value: ValueView::Text(cv.last().value->Text_0 + t@), children: cv.last().children },
                ));
            } else {
                assert(nv =~= cv.push(text_node(t@)));
            }
        }
        self.stack.push(top);
        proof {
            let top_view = b0.stack.last();
            assert(stack_view(self.stack@) =~= b0.stack.update(
                b0.stack.len() - 1,
                OpenView { node: node_view(top.node), counted: top_view.counted, footnote: top_view.footnote },
            ));
        }
    }

    /// Opens a node holding `v`.
    fn push_node(&mut self, v: NodeValue, counted: bool, footnote: Option<String>)
        ensures
            final(self)@ == push(old(self)@, value_view(v), counted, opt_str(footnote)),
    {
        let ghost b0 = self@;
        let n = HtmlNode { value: v, children: Vec::new() };
        assert(node_view(n) == leaf(value_view(v)));
        self.stack.push(OpenNode { node: n, counted, footnote });
        proof {
            assert(stack_view(self.stack@) =~= b0.stack.push(OpenView { node: leaf(value_view(v)), counted, footnote: opt_str(footnote) }));
        }
    }

    /// Closes the innermost open node; see [`close_top`].
    fn close_top(&mut self)
        requires
            old(self)@.stack.len() >= 2,
        ensures
            final(self)@ == close_top(old(self)@),
    {
        let ghost b0 = self@;
        let top = self.stack.pop().unwrap();
        let OpenNode { node, counted: _, footnote } = top;
        proof {
            assert(stack_view(self.stack@) =~= b0.stack.drop_last());
        }
        match footnote {
            Some(name) => {
                self.defs.push((name, node));
                proof {
                    assert(defs_view(self.defs@) =~= b0.defs.push((name@, node_view(node))));
                }
            },
            None => {
                self.append_node(node);
            },
        }
    }

    /// Closes the open nodes on top that no end event closes.
    fn close_uncounted(&mut self)
        requires
            old(self)@.stack.len() >= 1,
        ensures
            final(self)@ == close_uncounted(old(self)@),
    {
        while self.stack.len() > 1 && !self.stack[self.stack.len() - 1].counted
            invariant
                self@.stack.len() >= 1,
                close_uncounted(self@) == close_uncounted(old(self)@),
            decreases self.stack.len(),
        {
            self.close_top();
        }
    }

    /// Closes the innermost open node and the ones below that no end event
    /// closes; see [`pop`].
    fn pop(&mut self)
        requires
            old(self)@.stack.len() >= 2,
        ensures
            final(self)@ == pop(old(self)@),
    {
        self.close_top();
        self.close_uncounted();
    }

    /// Whether the innermost open node is an element written as HTML.
    fn top_is_raw(&self) -> (r: bool)
        requires
            self@.stack.len() >= 1,
        ensures
            r == top_is_raw(self@),
    {
        match &self.stack[self.stack.len() - 1].node.value {
            NodeValue::Element(el) => el.was_raw,
            _ => false,
        }
    }

    /// Closes the elements written as HTML that are open on top.
    fn unwind_raw(&mut self)
        requires
            old(self)@.stack.len() >= 1,
        ensures
            final(self)@ == unwind_raw(old(self)@),
    {
        while self.stack.len() > 1 && self.top_is_raw()
            invariant
                self@.stack.len() >= 1,
                unwind_raw(self@) == unwind_raw(old(self)@),
            decreases self.stack.len(),
        {
            proof {
                lemma_pop_len(self@);
            }
            self.pop();
        }
    }
}

/// A plain attribute.
fn plain_attr(name: &str, value: String) -> (r: (AttrNamespace, String, String))
    ensures
        (r.0, r.1@, r.2@) == plain(name@, value@),
{
    (AttrNamespace::Plain, name.to_owned(), value)
}

/// An element made from Markdown.
fn md_el(name: String, attrs: Vec<(AttrNamespace, String, String)>) -> (r: HtmlElement)
    ensures
        value_view(NodeValue::Element(r)) == md_element(name@, attrs_view(attrs@)),
{
    HtmlElement { name, attrs, self_closing: false, was_raw: false }
}

/// A node made from Markdown with the given children.
fn md_node(name: &str, attrs: Vec<(AttrNamespace, String, String)>, children: Vec<HtmlNode>) -> (r: HtmlNode)
    ensures
        node_view(r) == (NodeView { value: md_element(name@, attrs_view(attrs@)), children: children_view(children@) }),
{
    HtmlNode { value: NodeValue::Element(md_el(name.to_owned(), attrs)), children }
}

/// A text node.
fn text_leaf(t: String) -> (r: HtmlNode)
    ensures
        node_view(r) == text_node(t@),
{
    HtmlNode { value: NodeValue::Text(t), children: Vec::new() }
}

/// The concatenation of two strings.
fn concat(a: &str, b: &str) -> (r: String)
    ensures
        r@ == a@ + b@,
{
    let mut s = a.to_owned();
    s.append(b);
    s
}

/// The decimal digits of a number.
fn decimal_string(n: u64) -> (r: String)
    ensures
        r@ == decimal(n as nat),
{
    let mut v: Vec<char> = Vec::new();
    push_decimal_u64(&mut v, n);
    assert(v@ =~= decimal(n as nat));
    string_from_chars(&v)
}

/// The tag name of a heading; see [`heading_name`].
fn heading_name_exec(level: u8) -> (r: String)
    ensures
        r@ == heading_name(level),
{
    let d = decimal_string(level as u64);
    proof {
        reveal_strlit("h");
    }
    concat("h", d.as_str())
}

/// The attributes of a heading; see [`heading_attrs`].
fn heading_attrs_exec(id: Option<String>, classes: Vec<String>, attrs: Vec<(String, Option<String>)>) -> (r: Vec<(AttrNamespace, String, String)>)
    ensures
        attrs_view(r@) == heading_attrs(id, classes@, attrs@),
{
    let mut el = HtmlElement { name: String::new(), attrs: Vec::new(), self_closing: false, was_raw: false };
    assert(attrs_view(el.attrs@) =~= heading_attr_list(attrs@.take(0)));
    let mut i: usize = 0;
    while i < attrs.len()
        invariant
            i <= attrs@.len(),
            attrs_view(el.attrs@) == heading_attr_list(attrs@.take(i as int)),
        decreases attrs@.len() - i,
    {
        let value = match &attrs[i].1 {
            Some(v) => v.clone(),
            None => String::new(),
        };
        set_attr(&mut el, attrs[i].0.as_str(), value);
        proof {
            assert(attrs@.take(i + 1).drop_last() =~= attrs@.take(i as int));
        }
        i = i + 1;
    }
    assert(attrs@.take(attrs@.len() as int) =~= attrs@);
    if let Some(i) = id {
        set_attr(&mut el, "id", i);
    }
    if classes.len() > 0 {
        let mut parts: Vec<Vec<char>> = Vec::new();
        let mut k: usize = 0;
        while k < classes.len()
            invariant
                k <= classes@.len(),
                views(parts@) =~= strings_view(classes@.take(k as int)),
            decreases classes@.len() - k,
        {
            let ghost before = views(parts@);
            parts.push(chars_of(classes[k].as_str()));
            proof {
                assert(views(parts@) =~= before.push(classes@[k as int]@));
                assert(classes@.take(k + 1) =~= classes@.take(k as int).push(classes@[k as int]));
            }
            k = k + 1;
        }
        assert(classes@.take(classes@.len() as int) =~= classes@);
        let joined = join_chars(&parts, &chars_of(" "));
        set_attr(&mut el, "class", string_from_chars(&joined));
    }
    el.attrs
}

/// Whether a character separates the words of an info string.
fn is_info_sep_exec(c: char) -> (r: bool)
    ensures
        r == is_info_sep(c),
{
    c == ' ' || c == '\t' || c == ','
}

/// The words of an info string; see [`info_words`].
fn info_words_exec(s: &str) -> (r: Vec<Vec<char>>)
    ensures
        views(r@) == info_words(s@),
{
    let v = chars_of(s);
    let mut words: Vec<Vec<char>> = Vec::new();
    let mut cur: Vec<char> = Vec::new();
    let mut i: usize = 0;
    assert(v@.take(0) =~= Seq::<char>::empty());
    while i < v.len()
        invariant
            i <= v@.len(),
            v@ == s@,
            (if cur@.len() > 0 { views(words@).push(cur@) } else { views(words@) }) == info_words(v@.take(i as int)),
            cur@.len() > 0 <==> (i > 0 && !is_info_sep(v@[i - 1])),
        decreases v@.len() - i,
    {
        let c = v[i];
        let ghost t = v@.take(i + 1);
        proof {
            assert(t.drop_last() =~= v@.take(i as int));
            assert(t.last() == c);
            if i > 0 {
                assert(t[t.len() - 2] == v@[i - 1]);
            }
        }
        if is_info_sep_exec(c) {
            if cur.len() > 0 {
                let w = cur;
                words.push(w);
                cur = Vec::new();
                proof {
                    assert(views(words@) =~= views(words@.drop_last()).push(w@));
                }
            }
        } else {
            let ghost before = cur@;
            let ghost wv = views(words@);
            cur.push(c);
            proof {
                if before.len() > 0 {
                    assert(wv.push(cur@) =~= wv.push(before).update(wv.len() as int, before.push(c)));
                } else {
                    assert(cur@ =~= seq![c]);
                }
            }
        }
        i = i + 1;
    }
    assert(v@.take(v@.len() as int) =~= v@);
    if cur.len() > 0 {
        let ghost wv = views(words@);
        let w = cur;
        words.push(w);
        assert(views(words@) =~= wv.push(w@));
    }
    words
}

/// The attributes of a code block's code element; see [`code_attrs`].
fn code_attrs_exec(info: Option<String>) -> (r: Vec<(AttrNamespace, String, String)>)
    ensures
        attrs_view(r@) == code_attrs(info),
{
    let mut out: Vec<(AttrNamespace, String, String)> = Vec::new();
    if let Some(i) = info {
        let words = info_words_exec(i.as_str());
        if words.len() > 0 {
            let mut c = chars_of("language-");
            append_chars(&mut c, &join_chars(&words, &chars_of(" ")));
            out.push(plain_attr("class", string_from_chars(&c)));
            assert(attrs_view(out@) =~= code_attrs(Some(i)));
        } else {
            assert(attrs_view(out@) =~= code_attrs(Some(i)));
        }
    } else {
        assert(attrs_view(out@) =~= code_attrs(info));
    }
    out
}

/// The attributes of an ordered list; see [`list_attrs`].
fn list_attrs_exec(start: u64) -> (r: Vec<(AttrNamespace, String, String)>)
    ensures
        attrs_view(r@) == list_attrs(start),
{
    let mut out: Vec<(AttrNamespace, String, String)> = Vec::new();
    if start != 1 {
        out.push(plain_attr("start", decimal_string(start)));
    }
    assert(attrs_view(out@) =~= list_attrs(start));
    out
}

/// The style of a table cell; see [`cell_attrs`].
fn cell_attrs_exec(al: &Vec<ColumnAlignment>, i: usize) -> (r: Vec<(AttrNamespace, String, String)>)
    ensures
        attrs_view(r@) == cell_attrs(al@, i as nat),
{
    let mut out: Vec<(AttrNamespace, String, String)> = Vec::new();
    if i < al.len() {
        match al[i] {
            ColumnAlignment::Left => out.push(plain_attr("style", "text-align: left".to_owned())),
            ColumnAlignment::Center => out.push(plain_attr("style", "text-align: center".to_owned())),
            ColumnAlignment::Right => out.push(plain_attr("style", "text-align: right".to_owned())),
            ColumnAlignment::Unaligned => {},
        }
    }
    assert(attrs_view(out@) =~= cell_attrs(al@, i as nat));
    out
}

/// Adds the title attribute when the title is not empty.
fn push_title(out: &mut Vec<(AttrNamespace, String, String)>, title: String)
    ensures
        attrs_view(final(out)@) == attrs_view(old(out)@) + title_attr(title@),
{
    let ghost o = attrs_view(out@);
    if !title.as_str().is_empty() {
        out.push(plain_attr("title", title));
    }
    assert(attrs_view(out@) =~= o + title_attr(title@));
}

/// The attributes of a link; see [`link_attrs`].
fn link_attrs_exec(email: bool, dest: String, title: String) -> (r: Vec<(AttrNamespace, String, String)>)
    ensures
        attrs_view(r@) == link_attrs(email, dest@, title@),
{
    let href = if email { concat("mailto:", dest.as_str()) } else { fix_link(dest.as_str()) };
    let mut out: Vec<(AttrNamespace, String, String)> = Vec::new();
    out.push(plain_attr("href", href));
    push_title(&mut out, title);
    assert(attrs_view(out@) =~= link_attrs(email, dest@, title@));
    out
}

/// The attributes of an image before its description; see [`image_attrs`].
fn image_attrs_exec(dest: String, title: String) -> (r: Vec<(AttrNamespace, String, String)>)
    ensures
        attrs_view(r@) == image_attrs(dest@, title@),
{
    let mut out: Vec<(AttrNamespace, String, String)> = Vec::new();
    out.push(plain_attr("src", fix_link(dest.as_str())));
    push_title(&mut out, title);
    assert(attrs_view(out@) =~= image_attrs(dest@, title@));
    out
}

/// Where the named footnote stands among the referenced ones.
pub proof fn lemma_footnote_index(numbers: Seq<(Seq<char>, nat)>, name: Seq<char>, k: int)
    requires
        0 <= k <= numbers.len(),
        forall|j: int| 0 <= j < k ==> (#[trigger] numbers[j]).0 != name,
        k == numbers.len() || numbers[k].0 == name,
    ensures
        footnote_index(numbers, name) == k,
    decreases numbers.len(),
{
    if numbers.len() > 0 && k > 0 {
        let rest = numbers.drop_first();
        assert forall|j: int| 0 <= j < k - 1 implies (#[trigger] rest[j]).0 != name by {
            assert(rest[j] == numbers[j + 1]);
        }
        lemma_footnote_index(rest, name, k - 1);
    }
}

/// Where the definition of the named footnote stands.
pub proof fn lemma_def_index(defs: Seq<(Seq<char>, NodeView)>, name: Seq<char>, k: int)
    requires
        0 <= k <= defs.len(),
        forall|j: int| 0 <= j < k ==> (#[trigger] defs[j]).0 != name,
        k == defs.len() || defs[k].0 == name,
    ensures
        def_index(defs, name) == k,
    decreases defs.len(),
{
    if defs.len() > 0 && k > 0 {
        let rest = defs.drop_first();
        assert forall|j: int| 0 <= j < k - 1 implies (#[trigger] rest[j]).0 != name by {
            assert(rest[j] == defs[j + 1]);
        }
        lemma_def_index(rest, name, k - 1);
    }
}

/// Whether two strings hold the same characters.
fn same_str(a: &str, b: &str) -> (r: bool)
    ensures
        r == (a@ == b@),
{
    chars_eq(&chars_of(a), &chars_of(b))
}

/// The element that a tag opens alone; see [`simple_name`].
fn simple_name_exec(tag: &MdTag) -> (r: Option<&'static str>)
    ensures
        match r {
            Some(s) => simple_name(*tag) == Some(s@),
            None => simple_name(*tag) is None,
        },
{
    match tag {
        MdTag::Paragraph => Some("p"),
        MdTag::BlockQuote(_) => Some("blockquote"),
        MdTag::List(None) => Some("ul"),
        MdTag::Item => Some("li"),
        MdTag::DefinitionList => Some("dl"),
        MdTag::DefinitionListTitle => Some("dt"),
        MdTag::DefinitionListDefinition => Some("dd"),
        MdTag::Emphasis => Some("em"),
        MdTag::Strong => Some("strong"),
        MdTag::Strikethrough => Some("del"),
        MdTag::Superscript => Some("sup"),
        MdTag::Subscript => Some("sub"),
        _ => None,
    }
}

impl TreeBuilder {
    /// The position of the named footnote among the referenced ones; see
    /// [`footnote_index`].
    fn number_index(&self, name: &str) -> (r: usize)
        ensures
            r == footnote_index(self@.numbers, name@),
    {
        let mut i: usize = 0;
        while i < self.numbers.len()
            invariant
                i <= self.numbers@.len(),
                forall|j: int| 0 <= j < i ==> (#[trigger] self@.numbers[j]).0 != name@,
            decreases self.numbers@.len() - i,
        {
            if same_str(self.numbers[i].0.as_str(), name) {
                proof {
                    lemma_footnote_index(self@.numbers, name@, i as int);
                }
                return i;
            }
            i = i + 1;
        }
        proof {
            lemma_footnote_index(self@.numbers, name@, i as int);
        }
        i
    }

    /// Whether a definition of the named footnote has started.
    fn has_def_name(&self, name: &str) -> (r: bool)
        ensures
            r == self@.def_names.contains(name@),
    {
        let mut i: usize = 0;
        while i < self.def_names.len()
            invariant
                i <= self.def_names@.len(),
                forall|j: int| 0 <= j < i ==> (#[trigger] self@.def_names[j]) != name@,
            decreases self.def_names@.len() - i,
        {
            if same_str(self.def_names[i].as_str(), name) {
                assert(self@.def_names[i as int] == name@);
                return true;
            }
            i = i + 1;
        }
        false
    }

    /// Opens an element made from Markdown.
    fn open_md(&mut self, name: String, attrs: Vec<(AttrNamespace, String, String)>, counted: bool, footnote: Option<String>)
        ensures
            final(self)@ == push(old(self)@, md_element(name@, attrs_view(attrs@)), counted, opt_str(footnote)),
    {
        self.push_node(NodeValue::Element(md_el(name, attrs)), counted, footnote);
    }

    /// Takes the start of an element; see [`start`].
    fn start_tag(&mut self, tag: MdTag)
        ensures
            final(self)@ == start(old(self)@, tag),
    {
        let ghost t0 = tag;
        match simple_name_exec(&tag) {
            Some(name) => {
                self.open_md(name.to_owned(), Vec::new(), true, None);
                assert(attrs_view(Seq::<(AttrNamespace, String, String)>::empty()) =~= seq![]);
            },
            None => match tag {
                MdTag::Heading { level, id, classes, attrs } => {
                    let n = heading_name_exec(level);
                    let a = heading_attrs_exec(id, classes, attrs);
                    self.open_md(n, a, true, None);
                },
                MdTag::CodeBlock(info) => {
                    self.open_md("pre".to_owned(), Vec::new(), false, None);
                    assert(attrs_view(Seq::<(AttrNamespace, String, String)>::empty()) =~= seq![]);
                    let a = code_attrs_exec(info);
                    self.open_md("code".to_owned(), a, true, None);
                },
                MdTag::HtmlBlock => {
                    self.mode = BuildMode::HtmlBlock(String::new());
                },
                MdTag::List(Some(n)) => {
                    let a = list_attrs_exec(n);
                    self.open_md("ol".to_owned(), a, true, None);
                },
                MdTag::FootnoteDefinition(name) => {
                    if self.has_def_name(name.as_str()) {
                        self.mode = BuildMode::Skip(0);
                    } else {
                        let ghost dn = self@.def_names;
                        self.def_names.push(name.clone());
                        assert(strings_view(self.def_names@) =~= dn.push(name@));
                        let mut a: Vec<(AttrNamespace, String, String)> = Vec::new();
                        a.push(plain_attr("id", concat("footnote-", name.as_str())));
                        assert(attrs_view(a@) =~= seq![plain("id"@, "footnote-"@ + name@)]);
                        self.open_md("li".to_owned(), a, true, Some(name));
                    }
                },
                MdTag::Table(al) => {
                    self.alignments = al;
                    let mut a: Vec<(AttrNamespace, String, String)> = Vec::new();
                    a.push(plain_attr("class", "table-wrapper".to_owned()));
                    assert(attrs_view(a@) =~= seq![plain("class"@, "table-wrapper"@)]);
                    self.open_md("div".to_owned(), a, false, None);
                    self.open_md("table".to_owned(), Vec::new(), true, None);
                    assert(attrs_view(Seq::<(AttrNamespace, String, String)>::empty()) =~= seq![]);
                },
                MdTag::TableHead => {
                    self.table_head = true;
                    self.cell_index = 0;
                    self.open_md("thead".to_owned(), Vec::new(), false, None);
                    self.open_md("tr".to_owned(), Vec::new(), true, None);
                    assert(attrs_view(Seq::<(AttrNamespace, String, String)>::empty()) =~= seq![]);
                },
                MdTag::TableRow => {
                    self.cell_index = 0;
                    self.open_md("tr".to_owned(), Vec::new(), true, None);
                    assert(attrs_view(Seq::<(AttrNamespace, String, String)>::empty()) =~= seq![]);
                },
                MdTag::TableCell => {
                    let name = if self.table_head { "th".to_owned() } else { "td".to_owned() };
                    let a = cell_attrs_exec(&self.alignments, self.cell_index);
                    self.open_md(name, a, true, None);
                },
                MdTag::Link { kind, dest_url, title, id: _ } => {
                    let a = link_attrs_exec(kind == LinkKind::Email, dest_url, title);
                    self.open_md("a".to_owned(), a, true, None);
                },
                MdTag::Image { kind: _, dest_url, title, id: _ } => {
                    let a = image_attrs_exec(dest_url, title);
                    self.mode = BuildMode::ImageAlt { attrs: a, alt: String::new(), depth: 0 };
                },
                MdTag::MetadataBlock(_) => {
                    self.mode = BuildMode::Metadata;
                },
                _ => {},
            },
        }
    }
}

/// The fields of `a` other than its open nodes and finished definitions
/// are those of `b`.
pub open spec fn same_fields(a: BuilderView, b: BuilderView) -> bool {
    &&& a.mode == b.mode
    &&& a.table_head == b.table_head
    &&& a.alignments == b.alignments
    &&& a.cell_index == b.cell_index
    &&& a.numbers == b.numbers
    &&& a.def_names == b.def_names
}

/// The number of open nodes left when the nodes above position `m` are
/// closed and then those below that no end event closes.
pub open spec fn uncounted_down(b: BuilderView, m: int) -> int
    decreases m,
{
    if m > 1 && !b.stack[m - 1].counted {
        uncounted_down(b, m - 1)
    } else {
        m
    }
}

/// The number of open nodes left when the elements written as HTML on top
/// of the first `n` are closed, each with the nodes below it that no end
/// event closes.
pub open spec fn unwound(b: BuilderView, n: int) -> int
    decreases n,
{
    if n > 1 && raw_at(b, n - 1) {
        if 1 <= uncounted_down(b, n - 1) < n {
            unwound(b, uncounted_down(b, n - 1))
        } else {
            n
        }
    } else {
        n
    }
}

/// The first `m` open nodes of `a` and `b` hold the same values and are
/// closed the same way.
pub open spec fn same_shape(a: BuilderView, b: BuilderView, m: int) -> bool {
    &&& 0 <= m <= a.stack.len()
    &&& m <= b.stack.len()
    &&& forall|k: int| 0 <= k < m ==> (#[trigger] a.stack[k]).counted == b.stack[k].counted
        && a.stack[k].node.value == b.stack[k].node.value
        && a.stack[k].footnote == b.stack[k].footnote
}

proof fn lemma_uncounted_down_range(b: BuilderView, m: int)
    requires
        m >= 1,
    ensures
        1 <= uncounted_down(b, m) <= m,
    decreases m,
{
    if m > 1 && !b.stack[m - 1].counted {
        lemma_uncounted_down_range(b, m - 1);
    }
}

proof fn lemma_uncounted_down_shape(a: BuilderView, b: BuilderView, m: int, k: int)
    requires
        same_shape(a, b, k),
        1 <= m <= k,
    ensures
        uncounted_down(a, m) == uncounted_down(b, m),
    decreases m,
{
    if m > 1 {
        assert(a.stack[m - 1].counted == b.stack[m - 1].counted);
        lemma_uncounted_down_shape(a, b, m - 1, k);
    }
}

proof fn lemma_unwound_shape(a: BuilderView, b: BuilderView, n: int, k: int)
    requires
        same_shape(a, b, k),
        1 <= n <= k,
    ensures
        unwound(a, n) == unwound(b, n),
    decreases n,
{
    if n > 1 {
        assert(a.stack[n - 1].node.value == b.stack[n - 1].node.value);
        lemma_uncounted_down_shape(a, b, n - 1, k);
        lemma_uncounted_down_range(b, n - 1);
        if raw_at(b, n - 1) {
            lemma_unwound_shape(a, b, uncounted_down(b, n - 1), k);
        }
    }
}

/// Closing the innermost node keeps the others, but for the children of
/// the one below it, and the other fields.
proof fn lemma_close_top_shape(b: BuilderView)
    requires
        b.stack.len() >= 2,
    ensures
        close_top(b).stack.len() == b.stack.len() - 1,
        same_shape(close_top(b), b, b.stack.len() - 1),
        same_fields(close_top(b), b),
{
}

proof fn lemma_close_uncounted_shape(b: BuilderView)
    requires
        b.stack.len() >= 1,
    ensures
        close_uncounted(b).stack.len() == uncounted_down(b, b.stack.len() as int),
        same_shape(close_uncounted(b), b, close_uncounted(b).stack.len() as int),
        same_fields(close_uncounted(b), b),
    decreases b.stack.len(),
{
    if b.stack.len() > 1 && !b.stack.last().counted {
        let c = close_top(b);
        lemma_close_top_shape(b);
        lemma_close_uncounted_shape(c);
        lemma_uncounted_down_shape(c, b, c.stack.len() as int, c.stack.len() as int);
    }
}

/// Closing by an end event leaves as many nodes as [`uncounted_down`]
/// tells, with their values.
pub proof fn lemma_pop_shape(b: BuilderView)
    requires
        b.stack.len() >= 2,
    ensures
        pop(b).stack.len() == uncounted_down(b, b.stack.len() - 1),
        same_shape(pop(b), b, pop(b).stack.len() as int),
        same_fields(pop(b), b),
{
    let c = close_top(b);
    lemma_close_top_shape(b);
    lemma_close_uncounted_shape(c);
    lemma_uncounted_down_shape(c, b, c.stack.len() as int, c.stack.len() as int);
}

/// Closing the elements written as HTML leaves as many nodes as
/// [`unwound`] tells, with their values.
pub proof fn lemma_unwind_shape(b: BuilderView)
    requires
        b.stack.len() >= 1,
    ensures
        unwind_raw(b).stack.len() == unwound(b, b.stack.len() as int),
        same_shape(unwind_raw(b), b, unwind_raw(b).stack.len() as int),
        same_fields(unwind_raw(b), b),
    decreases b.stack.len(),
{
    if b.stack.len() > 1 && top_is_raw(b) {
        let p = pop(b);
        lemma_pop_shape(b);
        lemma_pop_len(b);
        lemma_uncounted_down_range(b, b.stack.len() - 1);
        lemma_unwind_shape(p);
        lemma_unwound_shape(p, b, p.stack.len() as int, p.stack.len() as int);
    }
}

/// The root stays a counted fragment, and the innermost open node stays
/// counted, when nodes are closed by an end event.
pub proof fn lemma_pop_wf(b: BuilderView)
    requires
        wf(b),
        b.stack.len() >= 2,
    ensures
        wf(pop(b)),
{
    lemma_pop_len(b);
    lemma_pop_shape(b);
    lemma_close_uncounted(close_top(b));
}

/// Closing the elements written as HTML keeps the builder well formed.
pub proof fn lemma_unwind_wf(b: BuilderView)
    requires
        wf(b),
    ensures
        wf(unwind_raw(b)),
    decreases b.stack.len(),
{
    if b.stack.len() > 1 && top_is_raw(b) {
        lemma_pop_wf(b);
        lemma_pop_len(b);
        lemma_unwind_wf(pop(b));
    }
}

/// A name that [`footnote_index`] does not find is not there.
pub proof fn lemma_footnote_absent(numbers: Seq<(Seq<char>, nat)>, name: Seq<char>)
    ensures
        0 <= footnote_index(numbers, name) <= numbers.len(),
        footnote_index(numbers, name) < numbers.len() ==> numbers[footnote_index(numbers, name)].0 == name,
        footnote_index(numbers, name) == numbers.len() ==> forall|j: int| 0 <= j < numbers.len() ==> (#[trigger] numbers[j]).0 != name,
    decreases numbers.len(),
{
    if numbers.len() > 0 && numbers[0].0 != name {
        let rest = numbers.drop_first();
        lemma_footnote_absent(rest, name);
        if footnote_index(numbers, name) == numbers.len() {
            assert forall|j: int| 0 <= j < numbers.len() implies (#[trigger] numbers[j]).0 != name by {
                if j > 0 {
                    assert(numbers[j] == rest[j - 1]);
                }
            }
        }
    }
}

impl TreeBuilder {
    /// Takes the end of an element; see [`end`].
    fn end_tag(&mut self, tag: MdTagEnd)
        requires
            old(self)@.stack.len() >= 1,
            can_end(old(self)@, tag),
        ensures
            final(self)@ == end(old(self)@, tag),
    {
        let ghost b0 = self@;
        proof {
            lemma_unwind_shape(b0);
        }
        self.unwind_raw();
        let ghost b1 = self@;
        proof {
            lemma_pop_shape(b1);
        }
        self.pop();
        match tag {
            MdTagEnd::TableHead => {
                self.table_head = false;
                self.open_md("tbody".to_owned(), Vec::new(), true, None);
                assert(attrs_view(Seq::<(AttrNamespace, String, String)>::empty()) =~= seq![]);
            },
            MdTagEnd::TableCell => {
                self.cell_index = self.cell_index + 1;
            },
            MdTagEnd::Table => {
                self.pop();
            },
            _ => {},
        }
    }

    /// Whether the last child of the innermost open node is a footnote
    /// reference.
    fn follows_reference_exec(&self) -> (r: bool)
        requires
            self@.stack.len() >= 1,
        ensures
            r == follows_reference(self@),
    {
        let top = &self.stack[self.stack.len() - 1];
        proof {
            lemma_children_view(top.node.children@);
        }
        let n = top.node.children.len();
        if n == 0 {
            return false;
        }
        match &top.node.children[n - 1].value {
            NodeValue::Element(el) => match get_attr(el, "class") {
                Some(v) => same_str(v.as_str(), "footnote-reference"),
                None => false,
            },
            _ => false,
        }
    }

    /// Takes a reference to a footnote; see [`footnote_reference`].
    fn footnote_ref(&mut self, name: String)
        requires
            wf(old(self)@),
            old(self)@.numbers.len() < usize::MAX,
            footnote_index(old(self)@.numbers, name@) < old(self)@.numbers.len() ==> old(self)@.numbers[footnote_index(
                old(self)@.numbers,
                name@,
            )].1 < u32::MAX,
        ensures
            final(self)@ == footnote_reference(old(self)@, name@),
            wf(final(self)@),
    {
        let ghost b0 = self@;
        let i = self.number_index(name.as_str());
        proof {
            lemma_footnote_absent(b0.numbers, name@);
        }
        if i < self.numbers.len() {
            let c = self.numbers[i].1;
            self.numbers.set(i, (name.clone(), c + 1));
        } else {
            self.numbers.push((name.clone(), 1));
        }
        proof {
            assert(numbers_view(self.numbers@) =~= counted_numbers(b0.numbers, name@));
        }
        let count = self.numbers[i].1;
        if self.follows_reference_exec() {
            self.append_node(text_leaf(" ".to_owned()));
        }
        let mut id = concat("fr-", name.as_str());
        id.append("-");
        id.append(decimal_string(count as u64).as_str());
        let mut sup_attrs: Vec<(AttrNamespace, String, String)> = Vec::new();
        sup_attrs.push(plain_attr("class", "footnote-reference".to_owned()));
        sup_attrs.push(plain_attr("id", id));
        let mut a_attrs: Vec<(AttrNamespace, String, String)> = Vec::new();
        a_attrs.push(plain_attr("href", concat("#footnote-", name.as_str())));
        let mut a_kids: Vec<HtmlNode> = Vec::new();
        a_kids.push(text_leaf(decimal_string((i as u64) + 1)));
        let a = md_node("a", a_attrs, a_kids);
        let mut sup_kids: Vec<HtmlNode> = Vec::new();
        sup_kids.push(a);
        let sup = md_node("sup", sup_attrs, sup_kids);
        proof {
            lemma_children_view(a_kids@);
            lemma_children_view(sup_kids@);
            assert(children_view(a_kids@) =~= seq![text_node(decimal((i + 1) as nat))]);
            assert(children_view(sup_kids@) =~= seq![node_view(a)]);
            assert(attrs_view(sup_attrs@) =~= seq![
                plain("class"@, "footnote-reference"@),
                plain("id"@, "fr-"@ + name@ + "-"@ + decimal(count as nat)),
            ]);
            assert(attrs_view(a_attrs@) =~= seq![plain("href"@, "#footnote-"@ + name@)]);
            assert(node_view(sup) == reference_node(name@, (i + 1) as nat, count as nat));
        }
        self.append_node(sup);
        proof {
            let nb = counted_numbers(b0.numbers, name@);
            assert forall|x: int, y: int| 0 <= x < y < nb.len() implies (#[trigger] nb[x]).0 != (#[trigger] nb[y]).0 by {
                if y == b0.numbers.len() {
                    assert(b0.numbers[x] == nb[x]);
                }
            }
        }
    }
}

/// The start of an element keeps the builder well formed.
pub proof fn lemma_start_wf(b: BuilderView, tag: MdTag)
    requires
        wf(b),
    ensures
        wf(start(b, tag)),
{
}

/// The end of an element that it accepts keeps the builder well formed.
pub proof fn lemma_end_wf(b: BuilderView, tag: MdTagEnd)
    requires
        wf(b),
        can_end(b, tag),
    ensures
        wf(end(b, tag)),
{
    lemma_unwind_wf(b);
    let b0 = unwind_raw(b);
    lemma_pop_wf(b0);
    let b1 = pop(b0);
    if tag == MdTagEnd::Table {
        lemma_pop_wf(b1);
    }
}

/// An event that the builder accepts keeps it well formed.
pub proof fn lemma_step_wf(b: BuilderView, e: MdEvent)
    requires
        wf(b),
        accepts(b, e),
    ensures
        wf(step(b, e).0),
{
    match b.mode {
        ModeView::Normal => match e {
            MdEvent::Start(tag) => lemma_start_wf(b, tag),
            MdEvent::End(tag) => lemma_end_wf(b, tag),
            MdEvent::FootnoteReference(name) => {
                let i = footnote_index(b.numbers, name@);
                let nb = counted_numbers(b.numbers, name@);
                lemma_footnote_absent(b.numbers, name@);
                assert forall|x: int, y: int| 0 <= x < y < nb.len() implies (#[trigger] nb[x]).0 != (#[trigger] nb[y]).0 by {
                    if y == b.numbers.len() {
                        assert(b.numbers[x] == nb[x]);
                    }
                }
            },
            _ => {},
        },
        _ => {},
    }
}

impl TreeBuilder {
    /// The number of open nodes left by [`uncounted_down`].
    fn uncounted_down_exec(&self, m: usize) -> (r: usize)
        requires
            1 <= m <= self@.stack.len(),
        ensures
            r == uncounted_down(self@, m as int),
    {
        let mut k = m;
        while k > 1 && !self.stack[k - 1].counted
            invariant
                1 <= k <= m,
                m <= self@.stack.len(),
                uncounted_down(self@, k as int) == uncounted_down(self@, m as int),
            decreases k,
        {
            k = k - 1;
        }
        k
    }

    /// Whether the node at `i` is an element written as HTML.
    fn raw_at_exec(&self, i: usize) -> (r: bool)
        requires
            i < self@.stack.len(),
        ensures
            r == raw_at(self@, i as int),
    {
        match &self.stack[i].node.value {
            NodeValue::Element(el) => el.was_raw,
            _ => false,
        }
    }

    /// Whether an end event finds the nodes it closes; see [`can_end`].
    fn can_end_exec(&self, tag: MdTagEnd) -> (r: bool)
        requires
            self@.stack.len() >= 1,
        ensures
            r == can_end(self@, tag),
    {
        let ghost b = self@;
        proof {
            lemma_unwind_shape(b);
        }
        let mut n = self.stack.len();
        while n > 1 && self.raw_at_exec(n - 1)
            invariant
                1 <= n <= self@.stack.len(),
                b == self@,
                unwound(b, n as int) == unwound(b, b.stack.len() as int),
            decreases n,
        {
            proof {
                lemma_uncounted_down_range(b, n - 1);
            }
            n = self.uncounted_down_exec(n - 1);
        }
        if n <= 1 {
            return false;
        }
        if tag == MdTagEnd::Table {
            let m = self.uncounted_down_exec(n - 1);
            proof {
                let u = unwind_raw(b);
                lemma_pop_shape(u);
                lemma_uncounted_down_shape(u, b, n - 1, n as int);
            }
            if m <= 1 {
                return false;
            }
        }
        if tag == MdTagEnd::TableCell && self.cell_index == usize::MAX {
            return false;
        }
        true
    }

    /// Takes an event while the tree is built; see [`normal_step`].
    fn normal_event(&mut self, e: MdEvent) -> (r: Option<String>)
        requires
            wf(old(self)@),
            old(self)@.mode is Normal,
            accepts(old(self)@, e),
        ensures
            (final(self)@, opt_str(r)) == normal_step(old(self)@, e),
    {
        match e {
            MdEvent::Start(tag) => {
                self.start_tag(tag);
                None
            },
            MdEvent::End(tag) => {
                self.end_tag(tag);
                None
            },
            MdEvent::Text(t) => {
                self.append_text(t.as_str());
                None
            },
            MdEvent::Code(t) => {
                let mut kids: Vec<HtmlNode> = Vec::new();
                kids.push(text_leaf(t));
                let n = md_node("code", Vec::new(), kids);
                proof {
                    lemma_children_view(kids@);
                    assert(children_view(kids@) =~= seq![text_node(t@)]);
                    assert(attrs_view(Seq::<(AttrNamespace, String, String)>::empty()) =~= seq![]);
                }
                self.append_node(n);
                None
            },
            MdEvent::InlineMath(t) => {
                let n = span_node("math math-inline", t);
                self.append_node(n);
                None
            },
            MdEvent::DisplayMath(t) => {
                let n = span_node("math math-display", t);
                self.append_node(n);
                None
            },
            MdEvent::Html(_) => None,
            MdEvent::InlineHtml(h) => Some(h),
            MdEvent::FootnoteReference(name) => {
                self.footnote_ref(name);
                None
            },
            MdEvent::SoftBreak => {
                self.append_text("\n");
                None
            },
            MdEvent::HardBreak => {
                let n = md_node("br", Vec::new(), Vec::new());
                proof {
                    assert(attrs_view(Seq::<(AttrNamespace, String, String)>::empty()) =~= seq![]);
                    assert(children_view(Seq::<HtmlNode>::empty()) =~= seq![]);
                }
                self.append_node(n);
                None
            },
            MdEvent::Rule => {
                let n = md_node("hr", Vec::new(), Vec::new());
                proof {
                    assert(attrs_view(Seq::<(AttrNamespace, String, String)>::empty()) =~= seq![]);
                    assert(children_view(Seq::<HtmlNode>::empty()) =~= seq![]);
                }
                self.append_node(n);
                None
            },
            MdEvent::TaskListMarker(checked) => {
                let mut a: Vec<(AttrNamespace, String, String)> = Vec::new();
                a.push(plain_attr("disabled", String::new()));
                a.push(plain_attr("type", "checkbox".to_owned()));
                if checked {
                    a.push(plain_attr("checked", String::new()));
                }
                let mut kids: Vec<HtmlNode> = Vec::new();
                kids.push(text_leaf(" ".to_owned()));
                let n = md_node("input", a, kids);
                proof {
                    lemma_children_view(kids@);
                    assert(children_view(kids@) =~= seq![text_node(" "@)]);
                    assert(attrs_view(a@) =~= seq![plain("disabled"@, seq![]), plain("type"@, "checkbox"@)] + if checked {
                        seq![plain("checked"@, seq![])]
                    } else {
                        seq![]
                    });
                }
                self.append_node(n);
                None
            },
        }
    }

    /// Takes an event inside an image's description; see [`alt_step`].
    fn alt_event(&mut self, attrs: Vec<(AttrNamespace, String, String)>, alt: String, depth: usize, e: MdEvent)
        requires
            old(self)@.stack.len() >= 1,
            old(self)@.mode is Normal,
            e is Start ==> depth < usize::MAX,
        ensures
            final(self)@ == alt_step(old(self)@, attrs_view(attrs@), alt@, depth as nat, e),
    {
        match e {
            MdEvent::Start(_) => {
                self.mode = BuildMode::ImageAlt { attrs, alt, depth: depth + 1 };
            },
            MdEvent::End(_) => {
                if depth == 0 {
                    let mut a = attrs;
                    let ghost a0 = attrs_view(a@);
                    a.push(plain_attr("alt", alt));
                    assert(attrs_view(a@) =~= a0.push(plain("alt"@, alt@)));
                    let n = HtmlNode { value: NodeValue::Element(md_el("img".to_owned(), a)), children: Vec::new() };
                    assert(children_view(Seq::<HtmlNode>::empty()) =~= seq![]);
                    self.append_node(n);
                } else {
                    self.mode = BuildMode::ImageAlt { attrs, alt, depth: depth - 1 };
                }
            },
            other => {
                let t = alt_text_exec(&other);
                let mut a2 = alt;
                a2.append(t.as_str());
                self.mode = BuildMode::ImageAlt { attrs, alt: a2, depth };
            },
        }
    }

    /// Takes an event; see [`step`]. The HTML that it gives back is to be
    /// split into tokens and fed in with [`TreeBuilder::html`] before the
    /// next event.
    pub fn event(&mut self, e: MdEvent) -> (r: Option<String>)
        requires
            wf(old(self)@),
            accepts(old(self)@, e),
        ensures
            (final(self)@, opt_str(r)) == step(old(self)@, e),
            wf(final(self)@),
    {
        let ghost b0 = self@;
        proof {
            lemma_step_wf(b0, e);
        }
        let mut mode = BuildMode::Normal;
        std::mem::swap(&mut mode, &mut self.mode);
        assert(self@ == BuilderView { mode: ModeView::Normal, ..b0 });
        match mode {
            BuildMode::Normal => self.normal_event(e),
            BuildMode::HtmlBlock(h) => match e {
                MdEvent::Html(t) => {
                    let mut h2 = h;
                    h2.append(t.as_str());
                    self.mode = BuildMode::HtmlBlock(h2);
                    None
                },
                MdEvent::Text(t) => {
                    let mut h2 = h;
                    h2.append(t.as_str());
                    self.mode = BuildMode::HtmlBlock(h2);
                    None
                },
                _ => Some(h),
            },
            BuildMode::ImageAlt { attrs, alt, depth } => {
                self.alt_event(attrs, alt, depth, e);
                None
            },
            BuildMode::Skip(d) => {
                match e {
                    MdEvent::Start(_) => {
                        self.mode = BuildMode::Skip(d + 1);
                    },
                    MdEvent::End(_) => {
                        if d > 0 {
                            self.mode = BuildMode::Skip(d - 1);
                        }
                    },
                    _ => {
                        self.mode = BuildMode::Skip(d);
                    },
                }
                None
            },
            BuildMode::Metadata => {
                if !matches!(e, MdEvent::End(MdTagEnd::MetadataBlock(_))) {
                    self.mode = BuildMode::Metadata;
                }
                None
            },
        }
    }

    /// Whether the builder takes an event; see [`accepts`].
    pub fn accepts(&self, e: &MdEvent) -> (r: bool)
        requires
            wf(self@),
        ensures
            r == accepts(self@, *e),
    {
        match &self.mode {
            BuildMode::Normal => match e {
                MdEvent::Html(_) => false,
                MdEvent::End(tag) => self.can_end_exec(*tag),
                MdEvent::FootnoteReference(name) => {
                    let i = self.number_index(name.as_str());
                    if self.numbers.len() == usize::MAX {
                        false
                    } else if i < self.numbers.len() {
                        self.numbers[i].1 < u32::MAX
                    } else {
                        true
                    }
                },
                _ => true,
            },
            BuildMode::HtmlBlock(_) => match e {
                MdEvent::Html(_) => true,
                MdEvent::Text(_) => true,
                MdEvent::End(MdTagEnd::HtmlBlock) => true,
                _ => false,
            },
            BuildMode::ImageAlt { depth, .. } => match e {
                MdEvent::Start(_) => *depth < usize::MAX,
                _ => true,
            },
            BuildMode::Skip(d) => match e {
                MdEvent::Start(_) => *d < usize::MAX,
                _ => true,
            },
            BuildMode::Metadata => true,
        }
    }
}

/// A `span` of the given class holding text; see [`span_text`].
fn span_node(class: &str, t: String) -> (r: HtmlNode)
    ensures
        node_view(r) == span_text(class@, t@),
{
    let mut a: Vec<(AttrNamespace, String, String)> = Vec::new();
    a.push(plain_attr("class", class.to_owned()));
    let mut kids: Vec<HtmlNode> = Vec::new();
    kids.push(text_leaf(t));
    let n = md_node("span", a, kids);
    proof {
        lemma_children_view(kids@);
        assert(children_view(kids@) =~= seq![text_node(t@)]);
        assert(attrs_view(a@) =~= seq![plain("class"@, class@)]);
    }
    n
}

/// What an event adds to an image's description; see [`alt_text`].
fn alt_text_exec(e: &MdEvent) -> (r: String)
    ensures
        r@ == alt_text(*e),
{
    match e {
        MdEvent::InlineHtml(t) => t.clone(),
        MdEvent::Code(t) => t.clone(),
        MdEvent::Text(t) => t.clone(),
        MdEvent::InlineMath(t) => {
            let mut s = concat("$", t.as_str());
            s.append("$");
            s
        },
        MdEvent::DisplayMath(t) => {
            let mut s = concat("$$", t.as_str());
            s.append("$$");
            s
        },
        MdEvent::SoftBreak => " ".to_owned(),
        MdEvent::HardBreak => " ".to_owned(),
        MdEvent::Rule => " ".to_owned(),
        _ => String::new(),
    }
}

/// A token of HTML keeps the builder well formed.
pub proof fn lemma_token_wf(b: BuilderView, raw: bool, t: HtmlToken)
    requires
        wf(b),
    ensures
        wf(token_step(b, raw, t).0),
{
    match t {
        HtmlToken::EndTag(name) => {
            if top_named(b, name@) {
                lemma_pop_wf(b);
            }
        },
        _ => {},
    }
}

/// The tokens of a piece of HTML keep the builder well formed.
pub proof fn lemma_tokens_wf(b: BuilderView, toks: Seq<HtmlToken>)
    requires
        wf(b),
    ensures
        wf(tokens_step(b, toks).0),
    decreases toks.len(),
{
    if toks.len() > 0 {
        lemma_tokens_wf(b, toks.drop_last());
        let (b1, raw) = tokens_step(b, toks.drop_last());
        lemma_token_wf(b1, raw, toks.last());
    }
}

/// The attributes of a tag as written; see [`token_attrs`].
fn token_attrs_exec(el: &mut HtmlElement, attrs: Vec<(String, String)>)
    requires
        old(el).attrs@.len() == 0,
    ensures
        attrs_view(final(el).attrs@) == token_attrs(attrs@),
        final(el).name == old(el).name,
        final(el).self_closing == old(el).self_closing,
        final(el).was_raw == old(el).was_raw,
{
    assert(attrs_view(el.attrs@) =~= token_attrs(attrs@.take(0)));
    let mut i: usize = 0;
    while i < attrs.len()
        invariant
            i <= attrs@.len(),
            attrs_view(el.attrs@) == token_attrs(attrs@.take(i as int)),
            el.name == old(el).name,
            el.self_closing == old(el).self_closing,
            el.was_raw == old(el).was_raw,
        decreases attrs@.len() - i,
    {
        set_attr(el, attrs[i].0.as_str(), attrs[i].1.clone());
        proof {
            assert(attrs@.take(i + 1).drop_last() =~= attrs@.take(i as int));
        }
        i = i + 1;
    }
    assert(attrs@.take(attrs@.len() as int) =~= attrs@);
}

/// Adjusts the link in the named attribute; see [`fix_attr_link`].
fn fix_attr_link_exec(el: &mut HtmlElement, name: &str)
    ensures
        attrs_view(final(el).attrs@) == fix_attr_link(attrs_view(old(el).attrs@), name@),
        final(el).name == old(el).name,
        final(el).self_closing == old(el).self_closing,
        final(el).was_raw == old(el).was_raw,
{
    if let Some(v) = get_attr(el, name) {
        set_attr(el, name, fix_link(v.as_str()));
    }
}

/// An element written as HTML; see [`raw_attrs`].
fn raw_element(name: String, attrs: Vec<(String, String)>, self_closing: bool) -> (r: HtmlElement)
    ensures
        value_view(NodeValue::Element(r)) == (ValueView::Element {
            name: name@,
            attrs: raw_attrs(name@, attrs@),
            self_closing,
            was_raw: true,
        }),
{
    let is_a = same_str(name.as_str(), "a");
    let mut el = HtmlElement { name, attrs: Vec::new(), self_closing, was_raw: true };
    token_attrs_exec(&mut el, attrs);
    if is_a {
        fix_attr_link_exec(&mut el, "href");
        fix_attr_link_exec(&mut el, "xlink:href");
    }
    el
}

impl TreeBuilder {
    /// Whether the innermost open node is an element of the given name.
    fn top_named_exec(&self, name: &str) -> (r: bool)
        requires
            self@.stack.len() >= 1,
        ensures
            r == top_named(self@, name@),
    {
        match &self.stack[self.stack.len() - 1].node.value {
            NodeValue::Element(el) => same_str(el.name.as_str(), name),
            _ => false,
        }
    }

    /// Takes a token of HTML; see [`token_step`].
    fn token(&mut self, raw: bool, t: HtmlToken) -> (r: bool)
        requires
            wf(old(self)@),
        ensures
            (final(self)@, r) == token_step(old(self)@, raw, t),
    {
        match t {
            HtmlToken::StartTag { name, attrs, self_closing } => {
                let closed = self_closing || is_void_element(name.as_str());
                let rawdata = same_str(name.as_str(), "script") || same_str(name.as_str(), "style");
                let el = raw_element(name, attrs, self_closing);
                if closed {
                    let n = HtmlNode { value: NodeValue::Element(el), children: Vec::new() };
                    assert(children_view(Seq::<HtmlNode>::empty()) =~= seq![]);
                    self.append_node(n);
                } else {
                    self.push_node(NodeValue::Element(el), true, None);
                }
                rawdata
            },
            HtmlToken::EndTag(name) => {
                if self.top_named_exec(name.as_str()) {
                    self.pop();
                }
                false
            },
            HtmlToken::Comment(c) => {
                let n = HtmlNode { value: NodeValue::Comment(c), children: Vec::new() };
                assert(children_view(Seq::<HtmlNode>::empty()) =~= seq![]);
                self.append_node(n);
                raw
            },
            HtmlToken::Characters(c) => {
                if raw {
                    let n = HtmlNode { value: NodeValue::RawData(c), children: Vec::new() };
                    assert(children_view(Seq::<HtmlNode>::empty()) =~= seq![]);
                    self.append_node(n);
                } else {
                    self.append_text(c.as_str());
                }
                raw
            },
            HtmlToken::Ignored => raw,
        }
    }

    /// Takes the tokens of a piece of HTML that an event gave back; see
    /// [`tokens_step`].
    pub fn html(&mut self, tokens: Vec<HtmlToken>)
        requires
            wf(old(self)@),
        ensures
            final(self)@ == tokens_step(old(self)@, tokens@).0,
            wf(final(self)@),
    {
        let ghost b0 = self@;
        let mut raw = false;
        let mut toks = tokens;
        let ghost all = toks@;
        let total = toks.len();
        let mut i: usize = 0;
        while toks.len() > 0
            invariant
                all.len() == total,
                i + toks@.len() == all.len(),
                toks@ == all.skip(i as int),
                (self@, raw) == tokens_step(b0, all.take(i as int)),
                wf(b0),
                wf(self@),
            decreases toks@.len(),
        {
            let t = toks.remove(0);
            proof {
                assert(t == all[i as int]);
                assert(toks@ =~= all.skip(i + 1));
                assert(all.take(i + 1).drop_last() =~= all.take(i as int));
                assert(all.take(i + 1).last() == t);
                lemma_token_wf(self@, raw, t);
            }
            raw = self.token(raw, t);
            i = i + 1;
        }
        assert(all.take(i as int) =~= all);
    }

    /// Takes the end of the events; see [`end_of_events`]. The HTML that it
    /// gives back is to be split into tokens and fed in with
    /// [`TreeBuilder::html`].
    pub fn end_of_events(&mut self) -> (r: Option<String>)
        requires
            wf(old(self)@),
        ensures
            (final(self)@, opt_str(r)) == end_of_events(old(self)@),
            wf(final(self)@),
    {
        let ghost b0 = self@;
        let mut mode = BuildMode::Normal;
        std::mem::swap(&mut mode, &mut self.mode);
        assert(self@ == BuilderView { mode: ModeView::Normal, ..b0 });
        match mode {
            BuildMode::ImageAlt { attrs, alt, depth: _ } => {
                let mut a = attrs;
                let ghost a0 = attrs_view(a@);
                a.push(plain_attr("alt", alt));
                assert(attrs_view(a@) =~= a0.push(plain("alt"@, alt@)));
                let n = HtmlNode { value: NodeValue::Element(md_el("img".to_owned(), a)), children: Vec::new() };
                assert(children_view(Seq::<HtmlNode>::empty()) =~= seq![]);
                self.append_node(n);
                None
            },
            BuildMode::HtmlBlock(h) => Some(h),
            _ => None,
        }
    }
}

/// Closing every open node gives a tree that depends on the open nodes
/// alone.
proof fn lemma_close_all_stack(a: BuilderView, b: BuilderView)
    requires
        a.stack == b.stack,
    ensures
        close_all(a) == close_all(b),
    decreases a.stack.len(),
{
    if a.stack.len() > 1 {
        assert(close_top(a).stack == close_top(b).stack);
        lemma_close_all_stack(close_top(a), close_top(b));
    }
}

/// A list's views after more trees.
proof fn lemma_children_view_concat(a: Seq<HtmlNode>, b: Seq<HtmlNode>)
    ensures
        children_view(a + b) == children_view(a) + children_view(b),
{
    lemma_children_view(a);
    lemma_children_view(b);
    lemma_children_view(a + b);
    assert(children_view(a + b) =~= children_view(a) + children_view(b));
}

/// The link back to the `usage`th reference; see [`backlink`].
fn backlink_exec(name: &str, usage: u32) -> (r: HtmlNode)
    requires
        usage >= 1,
    ensures
        node_view(r) == backlink(name@, usage as nat),
{
    let mut href = concat("#fr-", name);
    href.append("-");
    href.append(decimal_string(usage as u64).as_str());
    let mut a: Vec<(AttrNamespace, String, String)> = Vec::new();
    a.push(plain_attr("href", href));
    let mut t: Vec<char> = Vec::new();
    t.push('\u{21a9}');
    if usage != 1 {
        push_decimal(&mut t, usage);
    }
    let mut kids: Vec<HtmlNode> = Vec::new();
    kids.push(text_leaf(string_from_chars(&t)));
    let n = md_node("a", a, kids);
    proof {
        lemma_children_view(kids@);
        assert(t@ =~= seq!['\u{21a9}'] + if usage == 1 { seq![] } else { decimal(usage as nat) });
        assert(children_view(kids@) =~= seq![text_node(t@)]);
        assert(attrs_view(a@) =~= seq![plain("href"@, "#fr-"@ + name@ + "-"@ + decimal(usage as nat))]);
    }
    n
}

/// The links back to the first `count` references; see [`backlinks`].
fn backlinks_exec(name: &str, count: u32) -> (r: Vec<HtmlNode>)
    ensures
        children_view(r@) == backlinks(name@, count as nat),
{
    let mut out: Vec<HtmlNode> = Vec::new();
    let mut u: u32 = 0;
    assert(children_view(out@) =~= backlinks(name@, 0));
    while u < count
        invariant
            u <= count,
            children_view(out@) == backlinks(name@, u as nat),
        decreases count - u,
    {
        let ghost before = out@;
        u = u + 1;
        out.push(text_leaf(" ".to_owned()));
        let link = backlink_exec(name, u);
        out.push(link);
        proof {
            lemma_children_view_push(before, out@[before.len() as int]);
            lemma_children_view_push(before.push(out@[before.len() as int]), link);
            assert(out@ =~= before.push(out@[before.len() as int]).push(link));
            assert(children_view(out@) =~= backlinks(name@, (u - 1) as nat) + seq![text_node(" "@), backlink(name@, u as nat)]);
        }
    }
    out
}

/// Whether a node is a `p` element.
fn is_paragraph(n: &HtmlNode) -> (r: bool)
    ensures
        r == (node_view(*n).value matches ValueView::Element { name, .. } && name == "p"@),
{
    match &n.value {
        NodeValue::Element(el) => same_str(el.name.as_str(), "p"),
        _ => false,
    }
}

/// A footnote's definition with the links back; see [`with_backlinks`].
fn with_backlinks_exec(d: HtmlNode, name: &str, count: u32) -> (r: HtmlNode)
    ensures
        node_view(r) == with_backlinks(node_view(d), name@, count as nat),
{
    let ghost d0 = d;
    let mut links = backlinks_exec(name, count);
    let ghost lv = links@;
    let HtmlNode { value, children } = d;
    let mut cs = children;
    let n = cs.len();
    proof {
        lemma_children_view(cs@);
    }
    if n > 0 && is_paragraph(&cs[n - 1]) {
        let p = cs.pop().unwrap();
        let ghost rest = cs@;
        let HtmlNode { value: pv, children: pc } = p;
        let mut pc2 = pc;
        let ghost pc0 = pc2@;
        pc2.append(&mut links);
        proof {
            lemma_children_view_concat(pc0, lv);
        }
        let newp = HtmlNode { value: pv, children: pc2 };
        cs.push(newp);
        proof {
            lemma_children_view_push(rest, newp);
            assert(rest =~= d0.children@.drop_last());
            let cv = children_view(d0.children@);
            assert(children_view(rest) =~= cv.drop_last()) by {
                lemma_children_view(rest);
            }
            assert(children_view(cs@) =~= cv.update(
                cv.len() - 1,
                NodeView { value: cv.last().value, children: cv.last().children + backlinks(name@, count as nat) },
            ));
        }
        HtmlNode { value, children: cs }
    } else {
        let ghost c0 = cs@;
        cs.append(&mut links);
        proof {
            lemma_children_view_concat(c0, lv);
        }
        HtmlNode { value, children: cs }
    }
}

impl TreeBuilder {
    /// Starts a builder; see [`initial_view`].
    pub fn new() -> (r: TreeBuilder)
        ensures
            r@ == initial_view(),
            wf(r@),
    {
        let mut stack: Vec<OpenNode> = Vec::new();
        let root = HtmlNode { value: NodeValue::Fragment, children: Vec::new() };
        assert(children_view(Seq::<HtmlNode>::empty()) =~= seq![]);
        stack.push(OpenNode { node: root, counted: true, footnote: None });
        let r = TreeBuilder {
            stack,
            mode: BuildMode::Normal,
            table_head: true,
            alignments: Vec::new(),
            cell_index: 0,
            numbers: Vec::new(),
            def_names: Vec::new(),
            defs: Vec::new(),
        };
        proof {
            assert(stack_view(r.stack@) =~= initial_view().stack);
            assert(numbers_view(r.numbers@) =~= seq![]);
            assert(strings_view(r.def_names@) =~= seq![]);
            assert(defs_view(r.defs@) =~= seq![]);
            assert(r.alignments@ =~= seq![]);
        }
        r
    }

    /// Whether the tree can be finished; see [`can_finish`].
    pub fn can_finish(&self) -> (r: bool)
        ensures
            r == can_finish(self@),
    {
        if !matches!(self.mode, BuildMode::Normal) {
            return false;
        }
        let mut i: usize = 1;
        while i < self.stack.len()
            invariant
                1 <= i,
                forall|j: int| 1 <= j < i && j < self@.stack.len() && #[trigger] self@.stack[j].counted ==> raw_at(self@, j),
            decreases self@.stack.len() - i,
        {
            if self.stack[i].counted && !self.raw_at_exec(i) {
                assert(self@.stack[i as int].counted && !raw_at(self@, i as int));
                return false;
            }
            i = i + 1;
        }
        true
    }

    /// The position of the definition of the named footnote; see
    /// [`def_index`].
    fn def_position(&self, name: &str) -> (r: usize)
        ensures
            r == def_index(self@.defs, name@),
            r <= self@.defs.len(),
            forall|j: int| 0 <= j < r ==> (#[trigger] self@.defs[j]).0 != name@,
            r < self@.defs.len() ==> self@.defs[r as int].0 == name@,
    {
        let mut i: usize = 0;
        while i < self.defs.len()
            invariant
                i <= self.defs@.len(),
                forall|j: int| 0 <= j < i ==> (#[trigger] self@.defs[j]).0 != name@,
            decreases self.defs@.len() - i,
        {
            if same_str(self.defs[i].0.as_str(), name) {
                proof {
                    lemma_def_index(self@.defs, name@, i as int);
                }
                return i;
            }
            i = i + 1;
        }
        proof {
            lemma_def_index(self@.defs, name@, i as int);
        }
        i
    }

    /// Adds the footnotes to the innermost open node; see
    /// [`with_footnotes`]. The definitions are taken out of the list of
    /// finished ones.
    fn add_footnotes(&mut self)
        requires
            wf(old(self)@),
        ensures
            final(self)@.stack == with_footnotes(old(self)@).stack,
            final(self)@.stack.len() == old(self)@.stack.len(),
    {
        let ghost b0 = self@;
        if self.def_names.len() == 0 {
            return;
        }
        let mut items: Vec<HtmlNode> = Vec::new();
        let mut k: usize = 0;
        assert(children_view(items@) =~= footnote_items(b0.numbers.take(0), b0.defs));
        while k < self.numbers.len()
            invariant
                wf(b0),
                k <= self@.numbers.len(),
                self@.numbers == b0.numbers,
                self@.stack == b0.stack,
                self@.defs.len() == b0.defs.len(),
                forall|j: int| 0 <= j < b0.defs.len() ==> (#[trigger] self@.defs[j]).0 == b0.defs[j].0,
                forall|j: int| 0 <= j < b0.defs.len() ==> (#[trigger] self@.defs[j]) == b0.defs[j]
                    || exists|p: int| 0 <= p < k && b0.numbers[p].0 == b0.defs[j].0,
                children_view(items@) == footnote_items(b0.numbers.take(k as int), b0.defs),
            decreases b0.numbers.len() - k,
        {
            let name = self.numbers[k].0.clone();
            let count = self.numbers[k].1;
            let d = self.def_position(name.as_str());
            proof {
                assert forall|j: int| 0 <= j < d implies (#[trigger] b0.defs[j]).0 != name@ by {
                    assert(self@.defs[j].0 == b0.defs[j].0);
                }
                lemma_def_index(b0.defs, name@, d as int);
                assert(b0.numbers.take(k + 1).drop_last() =~= b0.numbers.take(k as int));
                assert(b0.numbers.take(k + 1).last() == b0.numbers[k as int]);
            }
            if d < self.defs.len() {
                let ghost before = self.defs@;
                let (nm, node) = self.defs.remove(d);
                proof {
                    assert(before[d as int] == (nm, node));
                    if self@.defs.len() > 0 {}
                    let orig = b0.defs[d as int];
                    if defs_view(before)[d as int] != orig {
                        let p = choose|p: int| 0 <= p < k && b0.numbers[p].0 == b0.defs[d as int].0;
                        assert(b0.numbers[p].0 == b0.numbers[k as int].0);
                        assert(false);
                    }
                    assert(node_view(node) == b0.defs[d as int].1);
                }
                let empty = HtmlNode { value: NodeValue::Fragment, children: Vec::new() };
                let ghost nm_v = nm@;
                self.defs.insert(d, (nm, empty));
                let item = with_backlinks_exec(node, name.as_str(), count);
                let ghost iv = items@;
                items.push(item);
                proof {
                    lemma_children_view_push(iv, item);
                    assert(self.defs@ =~= before.update(d as int, (self.defs@[d as int].0, empty)));
                    let bv = defs_view(before);
                    let av = self@.defs;
                    assert(av =~= bv.update(d as int, (nm_v, node_view(empty))));
                    assert(nm_v == bv[d as int].0);
                    assert forall|j: int| 0 <= j < b0.defs.len() implies (#[trigger] self@.defs[j]).0 == b0.defs[j].0 by {
                        if j != d {
                            assert(av[j] == bv[j]);
                        }
                    }
                    assert forall|j: int| 0 <= j < b0.defs.len() implies (#[trigger] self@.defs[j]) == b0.defs[j]
                        || exists|p: int| 0 <= p < k + 1 && b0.numbers[p].0 == b0.defs[j].0 by {
                        if j == d {
                            assert(b0.numbers[k as int].0 == b0.defs[j].0);
                        } else {
                            assert(av[j] == bv[j]);
                        }
                    }
                }
            } else {
                proof {
                    assert forall|j: int| 0 <= j < b0.defs.len() implies (#[trigger] self@.defs[j]) == b0.defs[j]
                        || exists|p: int| 0 <= p < k + 1 && b0.numbers[p].0 == b0.defs[j].0 by {}
                }
            }
            k = k + 1;
        }
        proof {
            assert(b0.numbers.take(k as int) =~= b0.numbers);
        }
        let hr = md_node("hr", Vec::new(), Vec::new());
        let mut a: Vec<(AttrNamespace, String, String)> = Vec::new();
        a.push(plain_attr("class", "footnote-definition".to_owned()));
        let ol = md_node("ol", a, items);
        proof {
            assert(attrs_view(Seq::<(AttrNamespace, String, String)>::empty()) =~= seq![]);
            assert(children_view(Seq::<HtmlNode>::empty()) =~= seq![]);
            assert(attrs_view(a@) =~= seq![plain("class"@, "footnote-definition"@)]);
        }
        self.append_node(hr);
        self.append_node(ol);
    }

    /// Finishes the tree; see [`finished`].
    pub fn finish(self) -> (r: HtmlNode)
        requires
            wf(self@),
            can_finish(self@),
        ensures
            node_view(r) == finished(self@),
    {
        let ghost b0 = self@;
        let mut b = self;
        b.add_footnotes();
        proof {
            lemma_close_all_stack(b@, with_footnotes(b0));
        }
        while b.stack.len() > 1
            invariant
                b@.stack.len() >= 1,
                close_all(b@) == finished(b0),
            decreases b@.stack.len(),
        {
            b.close_top();
        }
        let root = b.stack.pop().unwrap();
        root.node
    }
}

/// A chapter's finished tree: built from its events, with its headings
/// linked, its code blocks updated and its icons replaced.
pub open spec fn chapter_tree(b: BuilderView, opts: CodeBlockOptions) -> NodeView {
    icon_tree(code_tree(link_headers(finished(b), seq![]).0, opts))
}

/// Finishes a chapter's tree: closes it, gives its headings ids and links
/// to themselves, updates its code blocks and replaces its icons; see
/// [`chapter_tree`]. Nothing comes back for a tree of `u32::MAX` nodes or
/// more.
pub fn finish_chapter(builder: TreeBuilder, opts: &CodeBlockOptions) -> (r: Option<HtmlNode>)
    requires
        wf(builder@),
        can_finish(builder@),
    ensures
        match r {
            Some(t) => node_count(finished(builder@)) < u32::MAX && node_view(t) == chapter_tree(builder@, *opts),
            None => node_count(finished(builder@)) >= u32::MAX,
        },
{
    let root = builder.finish();
    match node_total(&root) {
        None => None,
        Some(_) => {
            let linked = add_header_links(root);
            let coded = update_code_blocks(linked, opts);
            Some(convert_fontawesome(coded))
        },
    }
}


/// The style a column alignment gives a table cell, when it gives one.
pub open spec fn alignment_style(a: ColumnAlignment) -> Option<Seq<char>> {
    match a {
        ColumnAlignment::Left => Some("text-align: left"@),
        ColumnAlignment::Center => Some("text-align: center"@),
        ColumnAlignment::Right => Some("text-align: right"@),
        ColumnAlignment::Unaligned => None,
    }
}

/// A cell of an aligned column is styled `text-align: left`, `center` or
/// `right` as the column is aligned left, centred or right, and an
/// unaligned column's cell gets no style; cells of columns aligned
/// differently never get the same attributes.
pub proof fn law_cells_follow_column_alignment(al: Seq<ColumnAlignment>, i: nat, j: nat)
    requires
        i < al.len(),
        j < al.len(),
    ensures
        al[i as int] == ColumnAlignment::Left ==> cell_attrs(al, i) == seq![plain("style"@, "text-align: left"@)],
        al[i as int] == ColumnAlignment::Center ==> cell_attrs(al, i) == seq![plain("style"@, "text-align: center"@)],
        al[i as int] == ColumnAlignment::Right ==> cell_attrs(al, i) == seq![plain("style"@, "text-align: right"@)],
        al[i as int] == ColumnAlignment::Unaligned ==> cell_attrs(al, i) == Seq::<AttrView>::empty(),
        al[i as int] != al[j as int] ==> cell_attrs(al, i) != cell_attrs(al, j),
{
    reveal_strlit("text-align: left");
    reveal_strlit("text-align: center");
    reveal_strlit("text-align: right");
    if al[i as int] != al[j as int] {
        let a = cell_attrs(al, i);
        let b = cell_attrs(al, j);
        if a.len() == 1 && b.len() == 1 {
            assert(a[0] != b[0]) by {
                let la = "text-align: left"@.len();
                assert(la == 16);
                assert("text-align: center"@.len() == 18);
                assert("text-align: right"@.len() == 17);
            }
        }
    }
}

} // verus!
