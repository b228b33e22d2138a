//! Options of the Markdown parser.

use vstd::prelude::*;

verus! {

/// Options for parsing Markdown.
pub struct MarkdownOptions {
    /// Enables smart punctuation: straight quotes become curly, `...`
    /// becomes `…`, `--` an en-dash and `---` an em-dash. On by default.
    pub smart_punctuation: bool,
}

impl Default for MarkdownOptions {
    fn default() -> (r: MarkdownOptions)
        ensures
            r.smart_punctuation,
    {
        MarkdownOptions { smart_punctuation: true }
    }
}

/// The extensions of CommonMark that the parser enables.
#[derive(Debug, Clone, Copy, PartialEq, Eq, Structural)]
pub struct ParserExtensions {
    /// Tables.
    pub tables: bool,
    /// Footnotes.
    pub footnotes: bool,
    /// Strikethrough.
    pub strikethrough: bool,
    /// Task lists.
    pub tasklists: bool,
    /// Attributes on headings.
    pub heading_attributes: bool,
    /// Smart punctuation.
    pub smart_punctuation: bool,
}

/// The extensions enabled for the options: tables, footnotes,
/// strikethrough, task lists and heading attributes always, smart
/// punctuation when the options ask for it.
pub fn parser_extensions(options: &MarkdownOptions) -> (r: ParserExtensions)
    ensures
        r == (ParserExtensions {
            tables: true,
            footnotes: true,
            strikethrough: true,
            tasklists: true,
            heading_attributes: true,
            smart_punctuation: options.smart_punctuation,
        }),
{
    ParserExtensions {
        tables: true,
        footnotes: true,
        strikethrough: true,
        tasklists: true,
        heading_attributes: true,
        smart_punctuation: options.smart_punctuation,
    }
}

} // verus!
