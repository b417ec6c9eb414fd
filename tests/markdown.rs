use maud_pulldown_cmark::{Event, Markdown, Tag};
use pulldown_cmark as cmark;

fn convert_tag(tag: cmark::Tag) -> Tag {
    match tag {
        cmark::Tag::Paragraph => Tag::Paragraph,
        cmark::Tag::Rule => Tag::Rule,
        cmark::Tag::Header(level) => Tag::Header(level as u8),
        cmark::Tag::BlockQuote => Tag::BlockQuote,
        cmark::Tag::CodeBlock(info) => Tag::CodeBlock(info.into_owned()),
        cmark::Tag::List(start) => Tag::List(start.map(|n| n as u64)),
        cmark::Tag::Item => Tag::Item,
        cmark::Tag::FootnoteDefinition(name) => Tag::FootnoteDefinition(name.into_owned()),
        cmark::Tag::Table(_) => Tag::Table,
        cmark::Tag::TableHead => Tag::TableHead,
        cmark::Tag::TableRow => Tag::TableRow,
        cmark::Tag::TableCell => Tag::TableCell,
        cmark::Tag::Emphasis => Tag::Emphasis,
        cmark::Tag::Strong => Tag::Strong,
        cmark::Tag::Code => Tag::Code,
        cmark::Tag::Link(dest, title) => Tag::Link(dest.into_owned(), title.into_owned()),
        cmark::Tag::Image(src, title) => Tag::Image(src.into_owned(), title.into_owned()),
    }
}

fn convert(event: cmark::Event) -> Event {
    match event {
        cmark::Event::Start(tag) => Event::Start(convert_tag(tag)),
        cmark::Event::End(tag) => Event::End(convert_tag(tag)),
        cmark::Event::Text(text) => Event::Text(text.into_owned()),
        cmark::Event::Html(html) => Event::Html(html.into_owned()),
        cmark::Event::InlineHtml(html) => Event::InlineHtml(html.into_owned()),
        cmark::Event::FootnoteReference(name) => Event::FootnoteReference(name.into_owned()),
        cmark::Event::SoftBreak => Event::SoftBreak,
        cmark::Event::HardBreak => Event::HardBreak,
    }
}

fn from_string(markdown: &str) -> Markdown {
    Markdown::from_events(cmark::Parser::new(markdown).map(convert).collect())
}

fn render(markdown: Markdown) -> String {
    let mut buffer = String::new();
    markdown.render_once(&mut buffer).unwrap();
    buffer
}

#[test]
pub fn test_from_string() {
    let markdown = "
 1. A list
 2. With some
 3. <span>Inline html</span>
    ";

    let buffer = render(from_string(markdown));
    assert_eq!(buffer, "<ol>\n<li>A list</li>\n<li>With some</li>\n<li><span>Inline html</span></li>\n</ol>\n");
}

#[test]
pub fn test_from_events() {
    let markdown = "
 1. A list
 2. With some
 3. <span>Inline html</span>
    ";

    let events = cmark::Parser::new(markdown).map(|ev| match ev {
        // Escape inline html
        cmark::Event::Html(html) | cmark::Event::InlineHtml(html) => cmark::Event::Text(html),
        _ => ev,
    });

    let buffer = render(Markdown::from_events(events.map(convert).collect()));
    assert_eq!(buffer, "<ol>\n<li>A list</li>\n<li>With some</li>\n<li>&lt;span&gt;Inline html&lt;/span&gt;</li>\n</ol>\n");
}

#[test]
pub fn test_without_header_ids() {
    let markdown = "
# Header
## A Sub Header
    ";

    let buffer = render(from_string(markdown));
    assert_eq!(buffer, "<h1>Header</h1>\n<h2>A Sub Header</h2>\n");
}

#[test]
pub fn test_with_header_ids() {
    let markdown = "
# Header
## A Sub Header
    ";

    let buffer = render(from_string(markdown).with_header_ids());
    assert_eq!(buffer, "<h1 id=\"header\">Header</h1>\n<h2 id=\"a-sub-header\">A Sub Header</h2>\n");
}

#[test]
pub fn test_with_header_ids_and_linked_inline_image() {
    let markdown = "
# Header [![an image](http://example.com/image)](http://example.com)
    ";

    let buffer = render(from_string(markdown).with_header_ids());
    assert_eq!(buffer, "<h1 id=\"header-an-image\">Header <a href=\"http://example.com\"><img src=\"http://example.com/image\" alt=\"an image\" /></a></h1>\n");
}
