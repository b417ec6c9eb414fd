//! The markdown events that the renderer consumes, as a CommonMark parser
//! produces them: a flat, well-nested sequence of tag starts and ends and of
//! inline leaves.
use vstd::prelude::*;

verus! {

/// The structural kind of a start/end pair, with what rendering it needs.
#[derive(Clone, Debug)]
pub enum Tag {
    Paragraph,
    Rule,
    /// A heading of the given level (1 to 6).
    Header(u8),
    BlockQuote,
    /// A fenced or indented code block with its info string.
    CodeBlock(String),
    /// A list; for an ordered list, the number of its first item.
    List(Option<u64>),
    Item,
    /// A footnote definition with the footnote's name.
    FootnoteDefinition(String),
    Table,
    TableHead,
    TableRow,
    TableCell,
    Emphasis,
    Strong,
    Code,
    /// A link: destination URL and title.
    Link(String, String),
    /// An image: source URL and title.
    Image(String, String),
}

/// One unit of the event stream.
#[derive(Clone, Debug)]
pub enum Event {
    Start(Tag),
    End(Tag),
    Text(String),
    /// A block of raw HTML.
    Html(String),
    /// Raw HTML inside a paragraph.
    InlineHtml(String),
    /// A reference to the footnote with the given name.
    FootnoteReference(String),
    SoftBreak,
    HardBreak,
}

/// The rendering options.
#[derive(Clone, Copy)]
pub struct Config {
    /// Give each header an `id` made from its text.
    pub header_ids: bool,
}

/// The event sequence cannot be rendered: an image holds something other than
/// inline text, headers nest, or an image or a header is left open.
#[derive(Debug, PartialEq, Eq, Clone, Copy)]
pub struct MalformedEventSequence;

} // verus!
