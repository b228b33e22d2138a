//! Parsing a chapter's Markdown into the library's events with
//! pulldown-cmark, and writing events back out as Markdown with
//! pulldown-cmark-to-cmark. The events are copied between the parser's
//! types and the library's one for one.

use vstd::prelude::*;
use crate::markdown::{parser_extensions, MarkdownOptions, ParserExtensions};
use crate::tree_builder::{
    merged_alerts, ColumnAlignment, LinkKind, MdEvent, MdTag, MdTagEnd, MetadataKind, QuoteKind,
};
use pulldown_cmark::{
    Alignment, BlockQuoteKind, CodeBlockKind, CowStr, Event, HeadingLevel, LinkType, MetadataBlockKind, Options, Parser, Tag,
    TagEnd,
};

verus! {

/// The parser's event type, carried through opaquely.
#[verifier::external_type_specification]
#[verifier::external_body]
pub struct ExParserEvent<'a>(Event<'a>);

/// The parser's tag type, carried through opaquely.
#[verifier::external_type_specification]
#[verifier::external_body]
pub struct ExParserTag<'a>(Tag<'a>);

/// The parser's end tag type, carried through opaquely.
#[verifier::external_type_specification]
#[verifier::external_body]
pub struct ExParserTagEnd(TagEnd);

/// The parser's link type, carried through opaquely.
#[verifier::external_type_specification]
#[verifier::external_body]
pub struct ExParserLinkType(LinkType);

/// The parser's column alignment, carried through opaquely.
#[verifier::external_type_specification]
#[verifier::external_body]
pub struct ExParserAlignment(Alignment);

/// The parser's alert kind, carried through opaquely.
#[verifier::external_type_specification]
#[verifier::external_body]
pub struct ExParserQuoteKind(BlockQuoteKind);

/// The parser's metadata block kind, carried through opaquely.
#[verifier::external_type_specification]
#[verifier::external_body]
pub struct ExParserMetadataKind(MetadataBlockKind);

/// A tag that opens an element, as values.
pub enum MdTagView {
    Paragraph,
    Heading { level: u8, id: Option<Seq<char>>, classes: Seq<Seq<char>>, attrs: Seq<(Seq<char>, Option<Seq<char>>)> },
    BlockQuote(Option<QuoteKind>),
    CodeBlock(Option<Seq<char>>),
    HtmlBlock,
    List(Option<u64>),
    Item,
    FootnoteDefinition(Seq<char>),
    DefinitionList,
    DefinitionListTitle,
    DefinitionListDefinition,
    Table(Seq<ColumnAlignment>),
    TableHead,
    TableRow,
    TableCell,
    Emphasis,
    Strong,
    Strikethrough,
    Superscript,
    Subscript,
    Link { kind: LinkKind, dest_url: Seq<char>, title: Seq<char>, id: Seq<char> },
    Image { kind: LinkKind, dest_url: Seq<char>, title: Seq<char>, id: Seq<char> },
    MetadataBlock(MetadataKind),
}

/// An event of the parser, as values.
pub enum MdEventView {
    Start(MdTagView),
    End(MdTagEnd),
    Text(Seq<char>),
    Code(Seq<char>),
    InlineMath(Seq<char>),
    DisplayMath(Seq<char>),
    Html(Seq<char>),
    InlineHtml(Seq<char>),
    FootnoteReference(Seq<char>),
    SoftBreak,
    HardBreak,
    Rule,
    TaskListMarker(bool),
}

/// The view of an optional string.
pub open spec fn opt_view(o: Option<String>) -> Option<Seq<char>> {
    match o {
        Some(s) => Some(s@),
        None => None,
    }
}

/// The view of a tag.
pub open spec fn tag_view(t: MdTag) -> MdTagView {
    match t {
        MdTag::Paragraph => MdTagView::Paragraph,
        MdTag::Heading { level, id, classes, attrs } => MdTagView::Heading {
            level,
            id: opt_view(id),
            classes: classes@.map_values(|c: String| c@),
            attrs: attrs@.map_values(|a: (String, Option<String>)| (a.0@, opt_view(a.1))),
        },
        MdTag::BlockQuote(k) => MdTagView::BlockQuote(k),
        MdTag::CodeBlock(i) => MdTagView::CodeBlock(opt_view(i)),
        MdTag::HtmlBlock => MdTagView::HtmlBlock,
        MdTag::List(s) => MdTagView::List(s),
        MdTag::Item => MdTagView::Item,
        MdTag::FootnoteDefinition(n) => MdTagView::FootnoteDefinition(n@),
        MdTag::DefinitionList => MdTagView::DefinitionList,
        MdTag::DefinitionListTitle => MdTagView::DefinitionListTitle,
        MdTag::DefinitionListDefinition => MdTagView::DefinitionListDefinition,
        MdTag::Table(al) => MdTagView::Table(al@),
        MdTag::TableHead => MdTagView::TableHead,
        MdTag::TableRow => MdTagView::TableRow,
        MdTag::TableCell => MdTagView::TableCell,
        MdTag::Emphasis => MdTagView::Emphasis,
        MdTag::Strong => MdTagView::Strong,
        MdTag::Strikethrough => MdTagView::Strikethrough,
        MdTag::Superscript => MdTagView::Superscript,
        MdTag::Subscript => MdTagView::Subscript,
        MdTag::Link { kind, dest_url, title, id } => MdTagView::Link { kind, dest_url: dest_url@, title: title@, id: id@ },
        MdTag::Image { kind, dest_url, title, id } => MdTagView::Image { kind, dest_url: dest_url@, title: title@, id: id@ },
        MdTag::MetadataBlock(k) => MdTagView::MetadataBlock(k),
    }
}

/// The view of an event.
pub open spec fn event_view(e: MdEvent) -> MdEventView {
    match e {
        MdEvent::Start(t) => MdEventView::Start(tag_view(t)),
        MdEvent::End(t) => MdEventView::End(t),
        MdEvent::Text(t) => MdEventView::Text(t@),
        MdEvent::Code(t) => MdEventView::Code(t@),
        MdEvent::InlineMath(t) => MdEventView::InlineMath(t@),
        MdEvent::DisplayMath(t) => MdEventView::DisplayMath(t@),
        MdEvent::Html(t) => MdEventView::Html(t@),
        MdEvent::InlineHtml(t) => MdEventView::InlineHtml(t@),
        MdEvent::FootnoteReference(t) => MdEventView::FootnoteReference(t@),
        MdEvent::SoftBreak => MdEventView::SoftBreak,
        MdEvent::HardBreak => MdEventView::HardBreak,
        MdEvent::Rule => MdEventView::Rule,
        MdEvent::TaskListMarker(c) => MdEventView::TaskListMarker(c),
    }
}

/// The views of events.
pub open spec fn events_view(es: Seq<MdEvent>) -> Seq<MdEventView> {
    es.map_values(|e: MdEvent| event_view(e))
}

/// The extensions as a tuple: tables, footnotes, strikethrough, task lists,
/// heading attributes, smart punctuation.
pub open spec fn ext_tuple(e: ParserExtensions) -> (bool, bool, bool, bool, bool, bool) {
    (e.tables, e.footnotes, e.strikethrough, e.tasklists, e.heading_attributes, e.smart_punctuation)
}

/// The end event that closes an element opened by a tag, as the parser's
/// `Tag::to_end` gives it.
pub open spec fn tag_end_view(t: MdTagView) -> MdTagEnd {
    match t {
        MdTagView::Paragraph => MdTagEnd::Paragraph,
        MdTagView::Heading { level, .. } => MdTagEnd::Heading(level),
        MdTagView::BlockQuote(k) => MdTagEnd::BlockQuote(k),
        MdTagView::CodeBlock(_) => MdTagEnd::CodeBlock,
        MdTagView::HtmlBlock => MdTagEnd::HtmlBlock,
        MdTagView::List(n) => MdTagEnd::List(n is Some),
        MdTagView::Item => MdTagEnd::Item,
        MdTagView::FootnoteDefinition(_) => MdTagEnd::FootnoteDefinition,
        MdTagView::DefinitionList => MdTagEnd::DefinitionList,
        MdTagView::DefinitionListTitle => MdTagEnd::DefinitionListTitle,
        MdTagView::DefinitionListDefinition => MdTagEnd::DefinitionListDefinition,
        MdTagView::Table(_) => MdTagEnd::Table,
        MdTagView::TableHead => MdTagEnd::TableHead,
        MdTagView::TableRow => MdTagEnd::TableRow,
        MdTagView::TableCell => MdTagEnd::TableCell,
        MdTagView::Emphasis => MdTagEnd::Emphasis,
        MdTagView::Strong => MdTagEnd::Strong,
        MdTagView::Strikethrough => MdTagEnd::Strikethrough,
        MdTagView::Superscript => MdTagEnd::Superscript,
        MdTagView::Subscript => MdTagEnd::Subscript,
        MdTagView::Link { .. } => MdTagEnd::Link,
        MdTagView::Image { .. } => MdTagEnd::Image,
        MdTagView::MetadataBlock(k) => MdTagEnd::MetadataBlock(k),
    }
}

/// The ends still owed after the events, innermost last; `None` where an
/// end event does not close the innermost open element.
pub open spec fn open_ends(es: Seq<MdEventView>) -> Option<Seq<MdTagEnd>>
    decreases es.len(),
{
    if es.len() == 0 {
        Some(seq![])
    } else {
        match open_ends(es.drop_last()) {
            None => None,
            Some(st) => match es.last() {
                MdEventView::Start(t) => Some(st.push(tag_end_view(t))),
                MdEventView::End(e) => if st.len() > 0 && st.last() == e {
                    Some(st.drop_last())
                } else {
                    None
                },
                _ => Some(st),
            },
        }
    }
}

/// Whether the start and end events are balanced: each end closes the
/// innermost element still open, and none is left open.
pub open spec fn balanced(es: Seq<MdEventView>) -> bool {
    open_ends(es) == Some(Seq::<MdTagEnd>::empty())
}

/// The events that pulldown-cmark's parser yields for a text with the
/// given extensions.
pub uninterp spec fn markdown_events(text: Seq<char>, ext: (bool, bool, bool, bool, bool, bool)) -> Seq<MdEventView>;

/// Parses Markdown with `pulldown_cmark::Parser::new_ext`, with the given
/// extensions switched on, and copies each event. The contract names the
/// result (`markdown_events`); how CommonMark is parsed is not written out
/// here. That the events are balanced is what pulldown-cmark documents of
/// `Event::Start`.
#[verifier::external_body]
pub fn parse_markdown(text: &str, ext: &ParserExtensions) -> (r: Vec<MdEvent>)
    ensures
        events_view(r@) == markdown_events(text@, ext_tuple(*ext)),
        balanced(events_view(r@)),
{
    let mut opts = Options::empty();
    opts.set(Options::ENABLE_TABLES, ext.tables);
    opts.set(Options::ENABLE_FOOTNOTES, ext.footnotes);
    opts.set(Options::ENABLE_STRIKETHROUGH, ext.strikethrough);
    opts.set(Options::ENABLE_TASKLISTS, ext.tasklists);
    opts.set(Options::ENABLE_HEADING_ATTRIBUTES, ext.heading_attributes);
    opts.set(Options::ENABLE_SMART_PUNCTUATION, ext.smart_punctuation);
    Parser::new_ext(text, opts).map(event_of).collect()
}

/// A parser event as the library's value: the events that carry text or a
/// tag.
#[verifier::external_body]
fn event_of(e: Event<'_>) -> MdEvent {
    match e {
        Event::Start(t) => MdEvent::Start(tag_of(t)),
        Event::End(t) => MdEvent::End(tag_end_of(t)),
        Event::Text(t) => MdEvent::Text(t.into_string()),
        Event::Code(t) => MdEvent::Code(t.into_string()),
        Event::InlineMath(t) => MdEvent::InlineMath(t.into_string()),
        Event::DisplayMath(t) => MdEvent::DisplayMath(t.into_string()),
        other => event_rest_of(other),
    }
}

/// A parser event as the library's value: the other events.
#[verifier::external_body]
fn event_rest_of(e: Event<'_>) -> MdEvent {
    match e {
        Event::Html(t) => MdEvent::Html(t.into_string()),
        Event::InlineHtml(t) => MdEvent::InlineHtml(t.into_string()),
        Event::FootnoteReference(t) => MdEvent::FootnoteReference(t.into_string()),
        Event::SoftBreak => MdEvent::SoftBreak,
        Event::HardBreak => MdEvent::HardBreak,
        Event::Rule => MdEvent::Rule,
        Event::TaskListMarker(c) => MdEvent::TaskListMarker(c),
        other => event_of(other),
    }
}

/// A parser tag as the library's value: headings.
#[verifier::external_body]
fn tag_of(t: Tag<'_>) -> MdTag {
    match t {
        Tag::Heading { level, id, classes, attrs } => MdTag::Heading {
            level: level as u8,
            id: id.map(CowStr::into_string),
            classes: classes.into_iter().map(CowStr::into_string).collect(),
            attrs: attrs.into_iter().map(|(n, v)| (n.into_string(), v.map(CowStr::into_string))).collect(),
        },
        other => tag_link_of(other),
    }
}

/// A parser tag as the library's value: links and images.
#[verifier::external_body]
fn tag_link_of(t: Tag<'_>) -> MdTag {
    match t {
        Tag::Link { link_type, dest_url, title, id } => MdTag::Link {
            kind: link_kind_of(link_type), dest_url: dest_url.into_string(), title: title.into_string(), id: id.into_string(),
        },
        Tag::Image { link_type, dest_url, title, id } => MdTag::Image {
            kind: link_kind_of(link_type), dest_url: dest_url.into_string(), title: title.into_string(), id: id.into_string(),
        },
        other => tag_data_of(other),
    }
}

/// A parser tag as the library's value: the other tags that carry data.
#[verifier::external_body]
fn tag_data_of(t: Tag<'_>) -> MdTag {
    match t {
        Tag::CodeBlock(CodeBlockKind::Fenced(i)) => MdTag::CodeBlock(Some(i.into_string())),
        Tag::CodeBlock(CodeBlockKind::Indented) => MdTag::CodeBlock(None),
        Tag::Table(al) => MdTag::Table(al.into_iter().map(alignment_of).collect()),
        Tag::BlockQuote(k) => MdTag::BlockQuote(k.map(quote_kind_of)),
        Tag::List(s) => MdTag::List(s),
        Tag::FootnoteDefinition(n) => MdTag::FootnoteDefinition(n.into_string()),
        Tag::MetadataBlock(k) => MdTag::MetadataBlock(metadata_kind_of(k)),
        other => tag_unit_of(other),
    }
}

/// A parser tag as the library's value: the tags without data.
#[verifier::external_body]
fn tag_unit_of(t: Tag<'_>) -> MdTag {
    match t {
        Tag::Paragraph => MdTag::Paragraph, Tag::HtmlBlock => MdTag::HtmlBlock,
        Tag::Item => MdTag::Item, Tag::DefinitionList => MdTag::DefinitionList,
        Tag::DefinitionListTitle => MdTag::DefinitionListTitle,
        Tag::DefinitionListDefinition => MdTag::DefinitionListDefinition,
        Tag::TableHead => MdTag::TableHead, Tag::TableRow => MdTag::TableRow,
        Tag::TableCell => MdTag::TableCell, Tag::Emphasis => MdTag::Emphasis,
        Tag::Strong => MdTag::Strong, Tag::Strikethrough => MdTag::Strikethrough,
        Tag::Superscript => MdTag::Superscript, Tag::Subscript => MdTag::Subscript,
        other => tag_of(other),
    }
}

/// A parser end tag as the library's value: the end tags that carry data.
#[verifier::external_body]
fn tag_end_of(t: TagEnd) -> MdTagEnd {
    match t {
        TagEnd::Heading(l) => MdTagEnd::Heading(l as u8),
        TagEnd::BlockQuote(k) => MdTagEnd::BlockQuote(k.map(quote_kind_of)),
        TagEnd::List(o) => MdTagEnd::List(o),
        TagEnd::MetadataBlock(k) => MdTagEnd::MetadataBlock(metadata_kind_of(k)),
        TagEnd::Paragraph => MdTagEnd::Paragraph, TagEnd::CodeBlock => MdTagEnd::CodeBlock,
        TagEnd::HtmlBlock => MdTagEnd::HtmlBlock, TagEnd::Item => MdTagEnd::Item,
        TagEnd::FootnoteDefinition => MdTagEnd::FootnoteDefinition,
        other => tag_end_rest_of(other),
    }
}

/// A parser end tag as the library's value: the other end tags.
#[verifier::external_body]
fn tag_end_rest_of(t: TagEnd) -> MdTagEnd {
    match t {
        TagEnd::DefinitionList => MdTagEnd::DefinitionList,
        TagEnd::DefinitionListTitle => MdTagEnd::DefinitionListTitle,
        TagEnd::DefinitionListDefinition => MdTagEnd::DefinitionListDefinition,
        TagEnd::Table => MdTagEnd::Table, TagEnd::TableHead => MdTagEnd::TableHead,
        TagEnd::TableRow => MdTagEnd::TableRow, TagEnd::TableCell => MdTagEnd::TableCell,
        TagEnd::Emphasis => MdTagEnd::Emphasis, TagEnd::Strong => MdTagEnd::Strong,
        TagEnd::Strikethrough => MdTagEnd::Strikethrough, TagEnd::Superscript => MdTagEnd::Superscript,
        TagEnd::Subscript => MdTagEnd::Subscript, TagEnd::Link => MdTagEnd::Link, TagEnd::Image => MdTagEnd::Image,
        other => tag_end_of(other),
    }
}

/// A parser link type as the library's value.
#[verifier::external_body]
fn link_kind_of(k: LinkType) -> LinkKind {
    match k {
        LinkType::Inline => LinkKind::Inline,
        LinkType::Reference => LinkKind::Reference,
        LinkType::ReferenceUnknown => LinkKind::ReferenceUnknown,
        LinkType::Collapsed => LinkKind::Collapsed,
        LinkType::CollapsedUnknown => LinkKind::CollapsedUnknown,
        LinkType::Shortcut => LinkKind::Shortcut,
        LinkType::ShortcutUnknown => LinkKind::ShortcutUnknown,
        LinkType::Autolink => LinkKind::Autolink,
        LinkType::Email => LinkKind::Email,
        LinkType::WikiLink { has_pothole } => LinkKind::WikiLink(has_pothole),
    }
}

/// A parser column alignment as the library's value.
#[verifier::external_body]
fn alignment_of(a: Alignment) -> ColumnAlignment {
    match a {
        Alignment::None => ColumnAlignment::Unaligned,
        Alignment::Left => ColumnAlignment::Left,
        Alignment::Center => ColumnAlignment::Center,
        Alignment::Right => ColumnAlignment::Right,
    }
}

/// A parser alert kind as the library's value.
#[verifier::external_body]
fn quote_kind_of(k: BlockQuoteKind) -> QuoteKind {
    match k {
        BlockQuoteKind::Note => QuoteKind::Note,
        BlockQuoteKind::Tip => QuoteKind::Tip,
        BlockQuoteKind::Important => QuoteKind::Important,
        BlockQuoteKind::Warning => QuoteKind::Warning,
        BlockQuoteKind::Caution => QuoteKind::Caution,
    }
}

/// A parser metadata block kind as the library's value.
#[verifier::external_body]
fn metadata_kind_of(k: MetadataBlockKind) -> MetadataKind {
    match k {
        MetadataBlockKind::YamlStyle => MetadataKind::YamlStyle,
        MetadataBlockKind::PlusesStyle => MetadataKind::PlusesStyle,
    }
}

/// The extensions that the options choose, as a tuple: all but smart
/// punctuation always, that one when the options ask for it.
pub open spec fn options_ext(o: MarkdownOptions) -> (bool, bool, bool, bool, bool, bool) {
    (true, true, true, true, true, o.smart_punctuation)
}

/// The events of a chapter's Markdown as the tree is built from them: the
/// parser's events with the extensions that the options choose, with the
/// alert block quotes that the parser splits made whole again.
pub fn chapter_events(text: &str, options: &MarkdownOptions) -> (r: Vec<MdEvent>)
    ensures
        exists|es: Seq<MdEvent>| events_view(es) == markdown_events(text@, options_ext(*options))
            && r@ == merged_alerts(es),
{
    let ext = parser_extensions(options);
    let es = parse_markdown(text, &ext);
    crate::tree_builder::merge_alert_blockquotes(es)
}


/// The Markdown that pulldown-cmark-to-cmark's `cmark` writes for events,
/// told the parser's extensions; `None` where it refuses them.
pub uninterp spec fn cmark_text(events: Seq<MdEventView>, ext: (bool, bool, bool, bool, bool, bool)) -> Option<Seq<char>>;

/// Writes events back out as Markdown with `pulldown_cmark_to_cmark::cmark`,
/// each event copied to the parser's type first. The contract names the
/// result (`cmark_text`): `None` where the writer reports an error or a
/// heading's level is outside 1 to 6.
/// The events must be balanced, as the parser gives them: on other streams
/// the writer's source does not show that it returns rather than panics.
#[verifier::external_body]
pub(crate) fn write_markdown(events: Vec<MdEvent>, ext: &ParserExtensions) -> (r: Option<String>)
    requires
        balanced(events_view(events@)),
    ensures
        opt_view(r) == cmark_text(events_view(events@), ext_tuple(*ext)),
{
    let mut opts = Options::empty();
    opts.set(Options::ENABLE_TABLES, ext.tables);
    opts.set(Options::ENABLE_FOOTNOTES, ext.footnotes);
    opts.set(Options::ENABLE_STRIKETHROUGH, ext.strikethrough);
    opts.set(Options::ENABLE_TASKLISTS, ext.tasklists);
    opts.set(Options::ENABLE_HEADING_ATTRIBUTES, ext.heading_attributes);
    opts.set(Options::ENABLE_SMART_PUNCTUATION, ext.smart_punctuation);
    let parsed: Option<Vec<Event<'static>>> = events.into_iter().map(parser_event).collect();
    let mut buf = String::new();
    pulldown_cmark_to_cmark::cmark(parsed?.iter(), &mut buf, opts).ok()?;
    Some(buf)
}

/// A library event as the parser's value: the events that carry text or a
/// tag; `None` for a heading level outside 1 to 6.
#[verifier::external_body]
fn parser_event(e: MdEvent) -> Option<Event<'static>> {
    Some(match e {
        MdEvent::Start(t) => Event::Start(parser_tag(t)?),
        MdEvent::End(t) => Event::End(parser_tag_end(t)?),
        MdEvent::Text(t) => Event::Text(t.into()),
        MdEvent::Code(t) => Event::Code(t.into()),
        MdEvent::InlineMath(t) => Event::InlineMath(t.into()),
        MdEvent::DisplayMath(t) => Event::DisplayMath(t.into()),
        other => return parser_event_rest(other),
    })
}

/// A library event as the parser's value: the other events.
#[verifier::external_body]
fn parser_event_rest(e: MdEvent) -> Option<Event<'static>> {
    Some(match e {
        MdEvent::Html(t) => Event::Html(t.into()),
        MdEvent::InlineHtml(t) => Event::InlineHtml(t.into()),
        MdEvent::FootnoteReference(t) => Event::FootnoteReference(t.into()),
        MdEvent::SoftBreak => Event::SoftBreak,
        MdEvent::HardBreak => Event::HardBreak,
        MdEvent::Rule => Event::Rule,
        MdEvent::TaskListMarker(c) => Event::TaskListMarker(c),
        other => return parser_event(other),
    })
}

/// A library tag as the parser's value: headings; `None` for a level
/// outside 1 to 6.
#[verifier::external_body]
fn parser_tag(t: MdTag) -> Option<Tag<'static>> {
    match t {
        MdTag::Heading { level, id, classes, attrs } => Some(Tag::Heading {
            level: HeadingLevel::try_from(level as usize).ok()?,
            id: id.map(CowStr::from),
            classes: classes.into_iter().map(CowStr::from).collect(),
            attrs: attrs.into_iter().map(|(n, v)| (n.into(), v.map(CowStr::from))).collect(),
        }),
        other => Some(parser_tag_link(other)),
    }
}

/// A library tag as the parser's value: links and images.
#[verifier::external_body]
fn parser_tag_link(t: MdTag) -> Tag<'static> {
    match t {
        MdTag::Link { kind, dest_url, title, id } => Tag::Link {
            link_type: parser_link_type(kind), dest_url: dest_url.into(), title: title.into(), id: id.into(),
        },
        MdTag::Image { kind, dest_url, title, id } => Tag::Image {
            link_type: parser_link_type(kind), dest_url: dest_url.into(), title: title.into(), id: id.into(),
        },
        other => parser_tag_data(other),
    }
}

/// A library tag as the parser's value: the other tags that carry data.
#[verifier::external_body]
fn parser_tag_data(t: MdTag) -> Tag<'static> {
    match t {
        MdTag::CodeBlock(Some(i)) => Tag::CodeBlock(CodeBlockKind::Fenced(i.into())),
        MdTag::CodeBlock(None) => Tag::CodeBlock(CodeBlockKind::Indented),
        MdTag::Table(al) => Tag::Table(al.into_iter().map(parser_alignment).collect()),
        MdTag::BlockQuote(k) => Tag::BlockQuote(k.map(parser_quote_kind)),
        MdTag::List(s) => Tag::List(s),
        MdTag::FootnoteDefinition(n) => Tag::FootnoteDefinition(n.into()),
        MdTag::MetadataBlock(k) => Tag::MetadataBlock(parser_metadata_kind(k)),
        other => parser_tag_unit(other),
    }
}

/// A library tag as the parser's value: the tags without data.
#[verifier::external_body]
fn parser_tag_unit(t: MdTag) -> Tag<'static> {
    match t {
        MdTag::Paragraph => Tag::Paragraph, MdTag::HtmlBlock => Tag::HtmlBlock,
        MdTag::Item => Tag::Item, MdTag::DefinitionList => Tag::DefinitionList,
        MdTag::DefinitionListTitle => Tag::DefinitionListTitle,
        MdTag::DefinitionListDefinition => Tag::DefinitionListDefinition,
        MdTag::TableHead => Tag::TableHead, MdTag::TableRow => Tag::TableRow,
        MdTag::TableCell => Tag::TableCell, MdTag::Emphasis => Tag::Emphasis,
        MdTag::Strong => Tag::Strong, MdTag::Strikethrough => Tag::Strikethrough,
        MdTag::Superscript => Tag::Superscript, MdTag::Subscript => Tag::Subscript,
        other => parser_tag_link(other),
    }
}

/// A library end tag as the parser's value: the end tags that carry data;
/// `None` for a heading level outside 1 to 6.
#[verifier::external_body]
fn parser_tag_end(t: MdTagEnd) -> Option<TagEnd> {
    Some(match t {
        MdTagEnd::Heading(l) => TagEnd::Heading(HeadingLevel::try_from(l as usize).ok()?),
        MdTagEnd::BlockQuote(k) => TagEnd::BlockQuote(k.map(parser_quote_kind)),
        MdTagEnd::List(o) => TagEnd::List(o),
        MdTagEnd::MetadataBlock(k) => TagEnd::MetadataBlock(parser_metadata_kind(k)),
        MdTagEnd::Paragraph => TagEnd::Paragraph, MdTagEnd::CodeBlock => TagEnd::CodeBlock,
        MdTagEnd::HtmlBlock => TagEnd::HtmlBlock, MdTagEnd::Item => TagEnd::Item,
        MdTagEnd::FootnoteDefinition => TagEnd::FootnoteDefinition,
        other => return parser_tag_end_rest(other),
    })
}

/// A library end tag as the parser's value: the other end tags.
#[verifier::external_body]
fn parser_tag_end_rest(t: MdTagEnd) -> Option<TagEnd> {
    Some(match t {
        MdTagEnd::DefinitionList => TagEnd::DefinitionList,
        MdTagEnd::DefinitionListTitle => TagEnd::DefinitionListTitle,
        MdTagEnd::DefinitionListDefinition => TagEnd::DefinitionListDefinition,
        MdTagEnd::Table => TagEnd::Table, MdTagEnd::TableHead => TagEnd::TableHead,
        MdTagEnd::TableRow => TagEnd::TableRow, MdTagEnd::TableCell => TagEnd::TableCell,
        MdTagEnd::Emphasis => TagEnd::Emphasis, MdTagEnd::Strong => TagEnd::Strong,
        MdTagEnd::Strikethrough => TagEnd::Strikethrough, MdTagEnd::Superscript => TagEnd::Superscript,
        MdTagEnd::Subscript => TagEnd::Subscript, MdTagEnd::Link => TagEnd::Link, MdTagEnd::Image => TagEnd::Image,
        other => return parser_tag_end(other),
    })
}

/// A library link kind as the parser's value.
#[verifier::external_body]
fn parser_link_type(k: LinkKind) -> LinkType {
    match k {
        LinkKind::Inline => LinkType::Inline,
        LinkKind::Reference => LinkType::Reference,
        LinkKind::ReferenceUnknown => LinkType::ReferenceUnknown,
        LinkKind::Collapsed => LinkType::Collapsed,
        LinkKind::CollapsedUnknown => LinkType::CollapsedUnknown,
        LinkKind::Shortcut => LinkType::Shortcut,
        LinkKind::ShortcutUnknown => LinkType::ShortcutUnknown,
        LinkKind::Autolink => LinkType::Autolink,
        LinkKind::Email => LinkType::Email,
        LinkKind::WikiLink(has_pothole) => LinkType::WikiLink { has_pothole },
    }
}

/// A library column alignment as the parser's value.
#[verifier::external_body]
fn parser_alignment(a: ColumnAlignment) -> Alignment {
    match a {
        ColumnAlignment::Unaligned => Alignment::None,
        ColumnAlignment::Left => Alignment::Left,
        ColumnAlignment::Center => Alignment::Center,
        ColumnAlignment::Right => Alignment::Right,
    }
}

/// A library alert kind as the parser's value.
#[verifier::external_body]
fn parser_quote_kind(k: QuoteKind) -> BlockQuoteKind {
    match k {
        QuoteKind::Note => BlockQuoteKind::Note,
        QuoteKind::Tip => BlockQuoteKind::Tip,
        QuoteKind::Important => BlockQuoteKind::Important,
        QuoteKind::Warning => BlockQuoteKind::Warning,
        QuoteKind::Caution => BlockQuoteKind::Caution,
    }
}

/// A library metadata block kind as the parser's value.
#[verifier::external_body]
fn parser_metadata_kind(k: MetadataKind) -> MetadataBlockKind {
    match k {
        MetadataKind::YamlStyle => MetadataBlockKind::YamlStyle,
        MetadataKind::PlusesStyle => MetadataBlockKind::PlusesStyle,
    }
}

} // verus!
