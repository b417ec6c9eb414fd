use maud_pulldown_cmark::{render_events, Config, Event, MalformedEventSequence, Markdown, Tag};

fn s(text: &str) -> String {
    text.to_string()
}

fn render(header_ids: bool, events: Vec<Event>) -> Result<String, MalformedEventSequence> {
    let mut w = String::new();
    render_events(Config { header_ids }, events, &mut w).map(|()| w)
}

fn wrapped(tag: Tag, inner: Vec<Event>) -> Vec<Event> {
    let mut events = vec![Event::Start(tag.clone())];
    events.extend(inner);
    events.push(Event::End(tag));
    events
}

fn text(t: &str) -> Event {
    Event::Text(s(t))
}

#[test]
fn header_with_ids_scenario() {
    let events = wrapped(Tag::Header(1), vec![text("Header")]);
    assert_eq!(render(true, events).unwrap(), "<h1 id=\"header\">Header</h1>\n");
}

#[test]
fn header_slug_lowercases_and_hyphenates() {
    let events = wrapped(Tag::Header(2), vec![text("A Sub Header")]);
    assert_eq!(render(true, events).unwrap(), "<h2 id=\"a-sub-header\">A Sub Header</h2>\n");
}

#[test]
fn header_slug_turns_non_ascii_and_breaks_into_hyphens() {
    let events = wrapped(
        Tag::Header(3),
        vec![text("Çà Va!"), Event::SoftBreak, text("x\ty"), Event::HardBreak, text("Z_1")],
    );
    assert_eq!(
        render(true, events).unwrap(),
        "<h3 id=\"---va!-x-y-z_1\">Çà Va!\nx\ty<br />\nZ_1</h3>\n"
    );
}

#[test]
fn header_slug_ignores_markup_and_may_be_empty() {
    let events = wrapped(Tag::Header(1), vec![Event::InlineHtml(s("<b>")), Event::Start(Tag::Code), Event::End(Tag::Code)]);
    assert_eq!(render(true, events).unwrap(), "<h1 id=\"\"><b><code></code></h1>\n");
}

#[test]
fn duplicate_headers_get_duplicate_ids() {
    let mut events = wrapped(Tag::Header(1), vec![text("Same")]);
    events.extend(wrapped(Tag::Header(1), vec![text("Same")]));
    assert_eq!(
        render(true, events).unwrap(),
        "<h1 id=\"same\">Same</h1>\n<h1 id=\"same\">Same</h1>\n"
    );
}

#[test]
fn headers_without_ids() {
    let mut events = wrapped(Tag::Header(1), vec![text("Header")]);
    events.extend(wrapped(Tag::Header(2), vec![text("A Sub Header")]));
    assert_eq!(render(false, events).unwrap(), "<h1>Header</h1>\n<h2>A Sub Header</h2>\n");
}

#[test]
fn unordered_list_scenario() {
    let events = wrapped(Tag::List(None), wrapped(Tag::Item, vec![text("A list item")]));
    assert_eq!(render(false, events).unwrap(), "<ul>\n<li>A list item</li>\n</ul>\n");
}

#[test]
fn ordered_lists_with_and_without_start() {
    let one = wrapped(Tag::List(Some(1)), wrapped(Tag::Item, vec![text("a")]));
    assert_eq!(render(false, one).unwrap(), "<ol>\n<li>a</li>\n</ol>\n");
    let seven = wrapped(Tag::List(Some(17)), wrapped(Tag::Item, vec![text("b")]));
    assert_eq!(render(false, seven).unwrap(), "<ol start=\"17\">\n<li>b</li>\n</ol>\n");
    let zero = wrapped(Tag::List(Some(0)), vec![]);
    assert_eq!(render(false, zero).unwrap(), "<ol start=\"0\">\n</ol>\n");
}

#[test]
fn link_scenario() {
    let tag = Tag::Link(s("http://example.com/a\"b"), s(""));
    let events = wrapped(tag, vec![text("text")]);
    assert_eq!(render(false, events).unwrap(), "<a href=\"http://example.com/a%22b\">text</a>");
}

#[test]
fn image_scenario() {
    let tag = Tag::Image(s("http://example.com/img"), s(""));
    let events = wrapped(tag, vec![text("alt text")]);
    assert_eq!(
        render(false, events).unwrap(),
        "<img src=\"http://example.com/img\" alt=\"alt text\" />"
    );
}

#[test]
fn image_alt_text_is_flattened_and_escaped() {
    let events = vec![
        Event::Start(Tag::Image(s("a b.png"), s(""))),
        text("x<y"),
        Event::SoftBreak,
        Event::InlineHtml(s("<i>")),
        Event::HardBreak,
        Event::FootnoteReference(s("n")),
        Event::End(Tag::Image(s("a b.png"), s("T \"q\""))),
    ];
    assert_eq!(
        render(false, events).unwrap(),
        "<img src=\"a%20b.png\" alt=\"x&lt;y &lt;i&gt; [0]\" title=\"T &quot;q&quot;\" />"
    );
}

#[test]
fn footnote_reference_before_definition_scenario() {
    let mut events = wrapped(Tag::Paragraph, vec![text("a"), Event::FootnoteReference(s("1"))]);
    events.extend(wrapped(Tag::FootnoteDefinition(s("1")), wrapped(Tag::Paragraph, vec![text("note")])));
    assert_eq!(
        render(false, events).unwrap(),
        "<p>a<sup class=\"footnote-reference\"><a href=\"1\">0</a></sup></p>\n\
         <div class=\"footnote-definition\" id=\"1\"><sup class=\"footnote-definition-label\">0</sup>\
         <p>note</p>\n</div>\n"
    );
}

#[test]
fn footnotes_are_numbered_in_first_mention_order() {
    let mut events = wrapped(Tag::FootnoteDefinition(s("b")), vec![]);
    events.push(Event::FootnoteReference(s("a")));
    events.push(Event::FootnoteReference(s("b")));
    events.push(Event::FootnoteReference(s("a")));
    events.push(Event::FootnoteReference(s("c d")));
    let out = render(false, events).unwrap();
    assert_eq!(
        out,
        "<div class=\"footnote-definition\" id=\"b\"><sup class=\"footnote-definition-label\">0</sup></div>\n\
         <sup class=\"footnote-reference\"><a href=\"a\">1</a></sup>\
         <sup class=\"footnote-reference\"><a href=\"b\">0</a></sup>\
         <sup class=\"footnote-reference\"><a href=\"a\">1</a></sup>\
         <sup class=\"footnote-reference\"><a href=\"c%20d\">2</a></sup>"
    );
}

#[test]
fn footnote_numbering_is_fresh_for_each_render() {
    let events = vec![Event::FootnoteReference(s("x"))];
    let first = render(false, events.clone()).unwrap();
    let second = render(false, events).unwrap();
    assert_eq!(first, second);
    assert_eq!(first, "<sup class=\"footnote-reference\"><a href=\"x\">0</a></sup>");
}

#[test]
fn header_with_linked_image_scenario() {
    let image = Tag::Image(s("http://example.com/image"), s(""));
    let link = Tag::Link(s("http://example.com"), s(""));
    let events = wrapped(
        Tag::Header(1),
        vec![text("Header "), Event::Start(link.clone()), Event::Start(image.clone()), text("an image"), Event::End(image), Event::End(link)],
    );
    assert_eq!(
        render(true, events).unwrap(),
        "<h1 id=\"header-an-image\">Header <a href=\"http://example.com\">\
         <img src=\"http://example.com/image\" alt=\"an image\" /></a></h1>\n"
    );
}

#[test]
fn footnote_reference_inside_header_is_numbered_on_replay() {
    let mut events = wrapped(Tag::Header(2), vec![text("T"), Event::FootnoteReference(s("f"))]);
    events.push(Event::FootnoteReference(s("g")));
    assert_eq!(
        render(true, events).unwrap(),
        "<h2 id=\"t\">T<sup class=\"footnote-reference\"><a href=\"f\">0</a></sup></h2>\n\
         <sup class=\"footnote-reference\"><a href=\"g\">1</a></sup>"
    );
}

#[test]
fn block_tags_and_breaks() {
    let mut events = vec![Event::Start(Tag::Rule), Event::End(Tag::Rule)];
    events.extend(wrapped(Tag::BlockQuote, wrapped(Tag::Paragraph, vec![
        Event::Start(Tag::Strong), text("s"), Event::End(Tag::Strong),
        Event::Start(Tag::Emphasis), text("e"), Event::End(Tag::Emphasis),
        Event::Start(Tag::Code), text("c"), Event::End(Tag::Code),
        Event::SoftBreak, Event::HardBreak,
    ])));
    events.push(Event::Html(s("<div>raw & real</div>\n")));
    assert_eq!(
        render(false, events).unwrap(),
        "<hr />\n<blockquote>\n<p><strong>s</strong><em>e</em><code>c</code>\n<br />\n</p>\n</blockquote>\n\
         <div>raw & real</div>\n"
    );
}

#[test]
fn table_tags() {
    let events = wrapped(Tag::Table, {
        let mut v = wrapped(Tag::TableHead, wrapped(Tag::TableCell, vec![text("h")]));
        v.extend(wrapped(Tag::TableRow, wrapped(Tag::TableCell, vec![text("d")])));
        v
    });
    assert_eq!(
        render(false, events).unwrap(),
        "<table><thead><tr><td>h</td></tr></thead>\n<tr><td>d</td></tr>\n</table>\n"
    );
}

#[test]
fn code_block_language_is_first_token() {
    let events = wrapped(Tag::CodeBlock(s("rust ignore")), vec![text("let x = 1 < 2;\n")]);
    assert_eq!(
        render(false, events).unwrap(),
        "<pre><code class=\"language-rust\">let x = 1 &lt; 2;\n</code></pre>\n"
    );
    let events = wrapped(Tag::CodeBlock(s("a<b>\tc")), vec![]);
    assert_eq!(render(false, events).unwrap(), "<pre><code class=\"language-a&lt;b&gt;\"></code></pre>\n");
}

#[test]
fn code_block_without_language() {
    assert_eq!(render(false, wrapped(Tag::CodeBlock(s("")), vec![])).unwrap(), "<pre><code></code></pre>\n");
    assert_eq!(render(false, wrapped(Tag::CodeBlock(s(" rust")), vec![])).unwrap(), "<pre><code></code></pre>\n");
}

#[test]
fn link_with_title() {
    let events = wrapped(Tag::Link(s("/p q"), s("T")), vec![text("x")]);
    assert_eq!(render(false, events).unwrap(), "<a href=\"/p%20q\" title=\"T\">x</a>");
}

#[test]
fn empty_sequence_renders_nothing() {
    assert_eq!(render(false, vec![]).unwrap(), "");
    assert_eq!(render(true, vec![]).unwrap(), "");
}

#[test]
fn render_appends_to_existing_buffer() {
    let mut w = String::from("<div>");
    render_events(Config { header_ids: false }, vec![text("a")], &mut w).unwrap();
    assert_eq!(w, "<div>a");
}

#[test]
fn start_tag_inside_image_is_malformed() {
    let events = vec![
        Event::Start(Tag::Image(s("i"), s(""))),
        Event::Start(Tag::Emphasis),
        Event::End(Tag::Emphasis),
        Event::End(Tag::Image(s("i"), s(""))),
    ];
    assert_eq!(render(false, events), Err(MalformedEventSequence));
}

#[test]
fn other_end_tag_or_block_html_inside_image_is_malformed() {
    let events = vec![Event::Start(Tag::Image(s("i"), s(""))), Event::End(Tag::Paragraph)];
    assert_eq!(render(false, events), Err(MalformedEventSequence));
    let events = vec![
        Event::Start(Tag::Image(s("i"), s(""))),
        Event::Html(s("<p>")),
        Event::End(Tag::Image(s("i"), s(""))),
    ];
    assert_eq!(render(false, events), Err(MalformedEventSequence));
}

#[test]
fn nested_header_is_malformed() {
    let events = vec![
        Event::Start(Tag::Header(1)),
        Event::Start(Tag::Header(2)),
        Event::End(Tag::Header(2)),
        Event::End(Tag::Header(1)),
    ];
    assert_eq!(render(true, events), Err(MalformedEventSequence));
}

#[test]
fn unterminated_image_or_header_is_malformed() {
    assert_eq!(render(false, vec![Event::Start(Tag::Image(s("i"), s(""))), text("a")]), Err(MalformedEventSequence));
    assert_eq!(render(true, vec![Event::Start(Tag::Header(1)), text("a")]), Err(MalformedEventSequence));
    let events = wrapped(Tag::Header(1), vec![Event::Start(Tag::Image(s("i"), s("")))]);
    assert_eq!(render(true, events), Err(MalformedEventSequence));
}

#[test]
fn markdown_builder_renders_with_and_without_ids() {
    let events = wrapped(Tag::Header(1), vec![text("Header")]);
    let mut plain = String::new();
    Markdown::from_events(events.clone()).render_once(&mut plain).unwrap();
    assert_eq!(plain, "<h1>Header</h1>\n");
    let mut with_ids = String::new();
    Markdown::from_events(events).with_header_ids().render_once(&mut with_ids).unwrap();
    assert_eq!(with_ids, "<h1 id=\"header\">Header</h1>\n");
}

#[test]
fn markdown_reports_malformed_sequences() {
    let mut w = String::new();
    let r = Markdown::from_events(vec![Event::Start(Tag::Header(1))]).with_header_ids().render_once(&mut w);
    assert_eq!(r, Err(MalformedEventSequence));
}
