//! The event-to-HTML transducer.
//!
//! It runs in one of three modes. In `Normal` mode each event is written as
//! markup. An image start switches to `WithinImage`, where the events up to the
//! image's end become its `alt` text. With header ids on, a header start
//! switches to `WithinHeader`, where the events up to the header's end are held
//! back while the header's id is collected from their text; at the header's end
//! the opening tag with the id is written and the held events are replayed
//! through the transducer in `Normal` mode.
use vstd::prelude::*;

use crate::escape::{href_escaped, html_escaped, push_href_escaped, push_html_escaped};
use crate::event::{Config, Event, MalformedEventSequence, Tag};
use crate::numbering::{footnote_number, mention, FootnoteNumbers};
use crate::text::{decimal, first_token, first_token_of, push_decimal, push_slug, slug_char,
    slugged};

verus! {

// ---------------------------------------------------------------------------
// Markup of single tags and leaves
// ---------------------------------------------------------------------------

pub open spec fn header_open(level: u8) -> Seq<char> {
    "<h"@ + decimal(level as nat) + ">"@
}

pub open spec fn header_open_with_id(level: u8, id: Seq<char>) -> Seq<char> {
    "<h"@ + decimal(level as nat) + " id=\""@ + id + "\">"@
}

pub open spec fn header_close(level: u8) -> Seq<char> {
    "</h"@ + decimal(level as nat) + ">\n"@
}

pub open spec fn list_open(start: Option<u64>) -> Seq<char> {
    match start {
        None => "<ul>\n"@,
        Some(n) => if n == 1 {
            "<ol>\n"@
        } else {
            "<ol start=\""@ + decimal(n as nat) + "\">\n"@
        },
    }
}

/// A code block names its language by the first token of its info string.
pub open spec fn code_block_open(info: Seq<char>) -> Seq<char> {
    let lang = first_token(info);
    if lang.len() == 0 {
        "<pre><code>"@
    } else {
        "<pre><code class=\"language-"@ + html_escaped(lang) + "\">"@
    }
}

/// ` title="..."` inside an open attribute list, or nothing for an empty title.
pub open spec fn title_attribute(title: Seq<char>) -> Seq<char> {
    if title.len() == 0 {
        seq![]
    } else {
        "\" title=\""@ + html_escaped(title)
    }
}

pub open spec fn link_open(dest: Seq<char>, title: Seq<char>) -> Seq<char> {
    "<a href=\""@ + href_escaped(dest) + title_attribute(title) + "\">"@
}

/// The image tag up to its open `alt` attribute value.
pub open spec fn image_open(src: Seq<char>) -> Seq<char> {
    "<img src=\""@ + href_escaped(src) + "\" alt=\""@
}

/// What closes the `alt` attribute value and the image tag.
pub open spec fn image_close(title: Seq<char>) -> Seq<char> {
    title_attribute(title) + "\" />"@
}

pub open spec fn footnote_definition_open(name: Seq<char>, number: nat) -> Seq<char> {
    "<div class=\"footnote-definition\" id=\""@ + html_escaped(name)
        + "\"><sup class=\"footnote-definition-label\">"@ + decimal(number) + "</sup>"@
}

pub open spec fn footnote_reference(name: Seq<char>, number: nat) -> Seq<char> {
    "<sup class=\"footnote-reference\"><a href=\""@ + href_escaped(name) + "\">"@ + decimal(number)
        + "</a></sup>"@
}

/// A footnote reference inside an image's `alt` text.
pub open spec fn footnote_reference_in_alt(number: nat) -> Seq<char> {
    "["@ + decimal(number) + "]"@
}

/// The markup that a tag's start writes in `Normal` mode, given the footnote
/// table before it (a header with ids writes nothing here: see `run`).
pub open spec fn start_markup(tag: Tag, numbers: Seq<Seq<char>>) -> Seq<char> {
    match tag {
        Tag::Rule => "<hr />\n"@,
        Tag::Code => "<code>"@,
        Tag::Strong => "<strong>"@,
        Tag::Emphasis => "<em>"@,
        Tag::Paragraph => "<p>"@,
        Tag::BlockQuote => "<blockquote>\n"@,
        Tag::Table => "<table>"@,
        Tag::TableHead => "<thead><tr>"@,
        Tag::TableRow => "<tr>"@,
        Tag::TableCell => "<td>"@,
        Tag::Item => "<li>"@,
        Tag::List(start) => list_open(start),
        Tag::Header(level) => header_open(level),
        Tag::CodeBlock(info) => code_block_open(info@),
        Tag::Image(src, _) => image_open(src@),
        Tag::Link(dest, title) => link_open(dest@, title@),
        Tag::FootnoteDefinition(name) => footnote_definition_open(
            name@,
            footnote_number(numbers, name@) as nat,
        ),
    }
}

/// The markup that a tag's end writes in `Normal` mode.
pub open spec fn end_markup(tag: Tag) -> Seq<char> {
    match tag {
        Tag::Rule => seq![],
        Tag::Code => "</code>"@,
        Tag::Strong => "</strong>"@,
        Tag::Emphasis => "</em>"@,
        Tag::Paragraph => "</p>\n"@,
        Tag::BlockQuote => "</blockquote>\n"@,
        Tag::Table => "</table>\n"@,
        Tag::TableHead => "</tr></thead>\n"@,
        Tag::TableRow => "</tr>\n"@,
        Tag::TableCell => "</td>"@,
        Tag::Item => "</li>\n"@,
        Tag::List(None) => "</ul>\n"@,
        Tag::List(Some(_)) => "</ol>\n"@,
        Tag::Header(level) => header_close(level),
        Tag::CodeBlock(_) => "</code></pre>\n"@,
        Tag::Image(_, _) => seq![],
        Tag::Link(_, _) => "</a>"@,
        Tag::FootnoteDefinition(_) => "</div>\n"@,
    }
}

// ---------------------------------------------------------------------------
// The state machine
// ---------------------------------------------------------------------------

#[derive(PartialEq, Eq, Structural, Clone, Copy)]
pub enum Mode {
    Normal,
    WithinImage,
    WithinHeader,
}

/// The transducer's state between two events. In `WithinHeader` mode,
/// `held` counts the events held back since the header's start.
pub struct RenderState {
    pub numbers: Seq<Seq<char>>,
    pub mode: Mode,
    pub held: nat,
}

pub open spec fn in_mode(numbers: Seq<Seq<char>>, mode: Mode) -> RenderState {
    RenderState { numbers, mode, held: 0 }
}

/// One event in `Normal` mode, from the footnote table before it.
pub open spec fn normal_step(cfg: Config, numbers: Seq<Seq<char>>, e: Event) -> (RenderState, Seq<
    char,
>) {
    match e {
        Event::Start(tag) => match tag {
            Tag::Header(_) if cfg.header_ids => (in_mode(numbers, Mode::WithinHeader), seq![]),
            Tag::Image(_, _) => (in_mode(numbers, Mode::WithinImage), start_markup(tag, numbers)),
            Tag::FootnoteDefinition(name) => (
                in_mode(mention(numbers, name@), Mode::Normal),
                start_markup(tag, numbers),
            ),
            _ => (in_mode(numbers, Mode::Normal), start_markup(tag, numbers)),
        },
        Event::End(tag) => (in_mode(numbers, Mode::Normal), end_markup(tag)),
        Event::Text(text) => (in_mode(numbers, Mode::Normal), html_escaped(text@)),
        Event::Html(html) => (in_mode(numbers, Mode::Normal), html@),
        Event::InlineHtml(html) => (in_mode(numbers, Mode::Normal), html@),
        Event::SoftBreak => (in_mode(numbers, Mode::Normal), "\n"@),
        Event::HardBreak => (in_mode(numbers, Mode::Normal), "<br />\n"@),
        Event::FootnoteReference(name) => (
            in_mode(mention(numbers, name@), Mode::Normal),
            footnote_reference(name@, footnote_number(numbers, name@) as nat),
        ),
    }
}

/// One event in `WithinImage` mode: the image's `alt` text, its end, or a
/// malformed sequence (`None`).
pub open spec fn image_step(numbers: Seq<Seq<char>>, e: Event) -> Option<(RenderState, Seq<char>)> {
    match e {
        Event::End(Tag::Image(_, title)) => Some((in_mode(numbers, Mode::Normal), image_close(title@))),
        Event::Text(text) => Some((in_mode(numbers, Mode::WithinImage), html_escaped(text@))),
        Event::InlineHtml(html) => Some((in_mode(numbers, Mode::WithinImage), html_escaped(html@))),
        Event::SoftBreak => Some((in_mode(numbers, Mode::WithinImage), " "@)),
        Event::HardBreak => Some((in_mode(numbers, Mode::WithinImage), " "@)),
        Event::FootnoteReference(name) => Some(
            (
                in_mode(mention(numbers, name@), Mode::WithinImage),
                footnote_reference_in_alt(footnote_number(numbers, name@) as nat),
            ),
        ),
        _ => None,
    }
}

/// What the text of the held events adds to a header's id.
pub open spec fn event_slug(e: Event) -> Seq<char> {
    match e {
        Event::Text(text) => slugged(text@),
        Event::SoftBreak => seq!['-'],
        Event::HardBreak => seq!['-'],
        _ => seq![],
    }
}

/// The id of a header whose held events are `held`.
pub open spec fn header_slug(held: Seq<Event>) -> Seq<char>
    decreases held.len(),
{
    if held.len() == 0 {
        seq![]
    } else {
        header_slug(held.drop_last()) + event_slug(held.last())
    }
}

/// One event in `WithinHeader` mode, after the events `held`: it is held
/// back too, or it ends the header, which replays `held`, or it is a nested
/// header (`None`).
pub open spec fn header_step(cfg: Config, cur: RenderState, held: Seq<Event>, e: Event) -> Option<
    (RenderState, Seq<char>),
>
    decreases held.len() + 1, 0nat,
{
    match e {
        Event::Start(Tag::Header(_)) => None,
        Event::End(Tag::Header(level)) => match run(
            cfg,
            held,
            in_mode(cur.numbers, Mode::Normal),
        ) {
            Some((after, inner)) => if after.mode == Mode::Normal {
                Some((after, header_open_with_id(level, header_slug(held)) + inner + header_close(level)))
            } else {
                None
            },
            None => None,
        },
        _ => Some((RenderState { held: cur.held + 1, ..cur }, seq![])),
    }
}

/// One event outside `WithinHeader` mode.
pub open spec fn step(cfg: Config, cur: RenderState, e: Event) -> Option<(RenderState, Seq<char>)> {
    if cur.mode == Mode::WithinImage {
        image_step(cur.numbers, e)
    } else {
        Some(normal_step(cfg, cur.numbers, e))
    }
}

/// The transducer run over `evs` from `start`: the state it ends in and the
/// HTML it writes, or `None` where the sequence is malformed.
pub open spec fn run(cfg: Config, evs: Seq<Event>, start: RenderState) -> Option<
    (RenderState, Seq<char>),
>
    decreases evs.len(), 1nat,
{
    if evs.len() == 0 {
        Some((start, seq![]))
    } else {
        let prev = evs.drop_last();
        match run(cfg, prev, start) {
            None => None,
            Some((cur, out)) => {
                let next = if cur.mode == Mode::WithinHeader {
                    if cur.held <= prev.len() {
                        header_step(
                            cfg,
                            cur,
                            prev.subrange(prev.len() - cur.held, prev.len() as int),
                            evs.last(),
                        )
                    } else {
                        None
                    }
                } else {
                    step(cfg, cur, evs.last())
                };
                match next {
                    None => None,
                    Some((after, piece)) => Some((after, out + piece)),
                }
            },
        }
    }
}

/// The HTML for a whole event sequence, or `None` where it is malformed
/// (including an image or a header left open at its end).
pub open spec fn rendered(cfg: Config, evs: Seq<Event>) -> Option<Seq<char>> {
    match run(cfg, evs, in_mode(Seq::empty(), Mode::Normal)) {
        Some((last, out)) => if last.mode == Mode::Normal {
            Some(out)
        } else {
            None
        },
        None => None,
    }
}


// ---------------------------------------------------------------------------
// Tag renderer
// ---------------------------------------------------------------------------

fn render_header_start_tag(level: u8, id: Option<&str>, w: &mut String)
    ensures
        final(w)@ == old(w)@ + match id {
            None => header_open(level),
            Some(id) => header_open_with_id(level, id@),
        },
{
    w.append("<h");
    push_decimal(w, level as u64);
    match id {
        Some(id) => {
            w.append(" id=\"");
            w.append(id);
            w.append("\">");
        },
        None => {
            w.append(">");
        },
    }
}

fn render_header_end_tag(level: u8, w: &mut String)
    ensures
        final(w)@ == old(w)@ + header_close(level),
{
    w.append("</h");
    push_decimal(w, level as u64);
    w.append(">\n");
}

fn render_list_start_tag(start: Option<u64>, w: &mut String)
    ensures
        final(w)@ == old(w)@ + list_open(start),
{
    match start {
        None => w.append("<ul>\n"),
        Some(n) => {
            if n == 1 {
                w.append("<ol>\n");
            } else {
                w.append("<ol start=\"");
                push_decimal(w, n);
                w.append("\">\n");
            }
        },
    }
}

fn render_code_block_start_tag(info: &str, w: &mut String)
    ensures
        final(w)@ == old(w)@ + code_block_open(info@),
{
    let lang = first_token_of(info);
    if lang.as_str().is_empty() {
        w.append("<pre><code>");
    } else {
        w.append("<pre><code class=\"language-");
        push_html_escaped(w, lang.as_str());
        w.append("\">");
    }
}

fn render_title_attribute(title: &str, w: &mut String)
    ensures
        final(w)@ == old(w)@ + title_attribute(title@),
{
    if !title.is_empty() {
        w.append("\" title=\"");
        push_html_escaped(w, title);
    } else {
        assert(w@ =~= w@ + title_attribute(title@));
    }
}

fn render_link_start_tag(dest: &str, title: &str, w: &mut String)
    ensures
        final(w)@ == old(w)@ + link_open(dest@, title@),
{
    w.append("<a href=\"");
    push_href_escaped(w, dest);
    render_title_attribute(title, w);
    w.append("\">");
}

fn render_image_start_tag(src: &str, w: &mut String)
    ensures
        final(w)@ == old(w)@ + image_open(src@),
{
    w.append("<img src=\"");
    push_href_escaped(w, src);
    w.append("\" alt=\"");
}

fn render_image_end_tag(title: &str, w: &mut String)
    ensures
        final(w)@ == old(w)@ + image_close(title@),
{
    render_title_attribute(title, w);
    w.append("\" />");
}

fn render_footnote_definition_start_tag(name: &str, numbers: &mut FootnoteNumbers, w: &mut String)
    requires
        old(numbers).wf(),
    ensures
        final(numbers).wf(),
        final(numbers)@ == mention(old(numbers)@, name@),
        final(w)@ == old(w)@ + footnote_definition_open(
            name@,
            footnote_number(old(numbers)@, name@) as nat,
        ),
{
    w.append("<div class=\"footnote-definition\" id=\"");
    push_html_escaped(w, name);
    let number = numbers.number_of(name);
    w.append("\"><sup class=\"footnote-definition-label\">");
    push_decimal(w, number as u64);
    w.append("</sup>");
}

fn render_footnote_reference(name: &str, numbers: &mut FootnoteNumbers, w: &mut String)
    requires
        old(numbers).wf(),
    ensures
        final(numbers).wf(),
        final(numbers)@ == mention(old(numbers)@, name@),
        final(w)@ == old(w)@ + footnote_reference(name@, footnote_number(old(numbers)@, name@) as nat),
{
    w.append("<sup class=\"footnote-reference\"><a href=\"");
    push_href_escaped(w, name);
    let number = numbers.number_of(name);
    w.append("\">");
    push_decimal(w, number as u64);
    w.append("</a></sup>");
}

fn render_footnote_reference_within_image(name: &str, numbers: &mut FootnoteNumbers, w: &mut String)
    requires
        old(numbers).wf(),
    ensures
        final(numbers).wf(),
        final(numbers)@ == mention(old(numbers)@, name@),
        final(w)@ == old(w)@ + footnote_reference_in_alt(
            footnote_number(old(numbers)@, name@) as nat,
        ),
{
    let number = numbers.number_of(name);
    w.append("[");
    push_decimal(w, number as u64);
    w.append("]");
}

fn render_end_tag(tag: &Tag, w: &mut String)
    ensures
        final(w)@ == old(w)@ + end_markup(*tag),
{
    match tag {
        Tag::Rule => {
            assert(w@ =~= w@ + end_markup(*tag));
        },
        Tag::Code => w.append("</code>"),
        Tag::Strong => w.append("</strong>"),
        Tag::Emphasis => w.append("</em>"),
        Tag::Paragraph => w.append("</p>\n"),
        Tag::BlockQuote => w.append("</blockquote>\n"),
        Tag::Table => w.append("</table>\n"),
        Tag::TableHead => w.append("</tr></thead>\n"),
        Tag::TableRow => w.append("</tr>\n"),
        Tag::TableCell => w.append("</td>"),
        Tag::Item => w.append("</li>\n"),
        Tag::List(None) => w.append("</ul>\n"),
        Tag::List(Some(_)) => w.append("</ol>\n"),
        Tag::Header(level) => render_header_end_tag(*level, w),
        Tag::CodeBlock(_) => w.append("</code></pre>\n"),
        Tag::Image(_, _) => {
            assert(w@ =~= w@ + end_markup(*tag));
        },
        Tag::Link(_, _) => w.append("</a>"),
        Tag::FootnoteDefinition(_) => w.append("</div>\n"),
    }
}

// ---------------------------------------------------------------------------
// The transducer
// ---------------------------------------------------------------------------

/// The live state of one render.
struct Context {
    numbers: FootnoteNumbers,
    mode: Mode,
    header_queue: Vec<Event>,
    header_slug: String,
    config: Config,
}

impl Context {
    spec fn state(&self) -> RenderState {
        RenderState { numbers: self.numbers@, mode: self.mode, held: self.header_queue@.len() }
    }

    /// Events are held back only within a header, and the slug is that of
    /// the held events.
    spec fn inv(&self) -> bool {
        &&& self.numbers.wf()
        &&& self.mode != Mode::WithinHeader ==> self.header_queue@.len() == 0
        &&& self.header_slug@ == header_slug(self.header_queue@)
    }
}

fn render_start_tag(tag: &Tag, ctx: &mut Context, w: &mut String)
    requires
        old(ctx).inv(),
        old(ctx).mode == Mode::Normal,
    ensures
        final(ctx).inv(),
        final(ctx).config == old(ctx).config,
        final(ctx).state() == normal_step(old(ctx).config, old(ctx).numbers@, Event::Start(*tag)).0,
        final(w)@ == old(w)@ + normal_step(old(ctx).config, old(ctx).numbers@, Event::Start(*tag)).1,
{
    match tag {
        Tag::Rule => w.append("<hr />\n"),
        Tag::Code => w.append("<code>"),
        Tag::Strong => w.append("<strong>"),
        Tag::Emphasis => w.append("<em>"),
        Tag::Paragraph => w.append("<p>"),
        Tag::BlockQuote => w.append("<blockquote>\n"),
        Tag::Table => w.append("<table>"),
        Tag::TableHead => w.append("<thead><tr>"),
        Tag::TableRow => w.append("<tr>"),
        Tag::TableCell => w.append("<td>"),
        Tag::Item => w.append("<li>"),
        Tag::List(start) => render_list_start_tag(*start, w),
        Tag::Header(level) => {
            if ctx.config.header_ids {
                ctx.mode = Mode::WithinHeader;
                assert(w@ =~= w@ + Seq::<char>::empty());
            } else {
                render_header_start_tag(*level, None, w);
            }
        },
        Tag::CodeBlock(info) => render_code_block_start_tag(info.as_str(), w),
        Tag::Image(src, _) => {
            ctx.mode = Mode::WithinImage;
            render_image_start_tag(src.as_str(), w);
        },
        Tag::Link(dest, title) => render_link_start_tag(dest.as_str(), title.as_str(), w),
        Tag::FootnoteDefinition(name) => {
            render_footnote_definition_start_tag(name.as_str(), &mut ctx.numbers, w);
        },
    }
}

fn render_event(event: &Event, ctx: &mut Context, w: &mut String)
    requires
        old(ctx).inv(),
        old(ctx).mode == Mode::Normal,
    ensures
        final(ctx).inv(),
        final(ctx).config == old(ctx).config,
        final(ctx).state() == normal_step(old(ctx).config, old(ctx).numbers@, *event).0,
        final(w)@ == old(w)@ + normal_step(old(ctx).config, old(ctx).numbers@, *event).1,
{
    match event {
        Event::Start(tag) => render_start_tag(tag, ctx, w),
        Event::End(tag) => render_end_tag(tag, w),
        Event::Text(text) => push_html_escaped(w, text.as_str()),
        Event::Html(html) => w.append(html.as_str()),
        Event::InlineHtml(html) => w.append(html.as_str()),
        Event::SoftBreak => w.append("\n"),
        Event::HardBreak => w.append("<br />\n"),
        Event::FootnoteReference(name) => {
            render_footnote_reference(name.as_str(), &mut ctx.numbers, w);
        },
    }
}

fn render_event_within_image(event: &Event, ctx: &mut Context, w: &mut String) -> (r: Result<
    (),
    MalformedEventSequence,
>)
    requires
        old(ctx).inv(),
        old(ctx).mode == Mode::WithinImage,
    ensures
        final(ctx).config == old(ctx).config,
        match image_step(old(ctx).numbers@, *event) {
            None => r is Err,
            Some((next, piece)) => {
                &&& r is Ok
                &&& final(ctx).inv()
                &&& final(ctx).state() == next
                &&& final(w)@ == old(w)@ + piece
            },
        },
{
    match event {
        Event::End(Tag::Image(_, title)) => {
            ctx.mode = Mode::Normal;
            render_image_end_tag(title.as_str(), w);
            Ok(())
        },
        Event::Text(text) => {
            push_html_escaped(w, text.as_str());
            Ok(())
        },
        Event::InlineHtml(html) => {
            push_html_escaped(w, html.as_str());
            Ok(())
        },
        Event::SoftBreak | Event::HardBreak => {
            w.append(" ");
            Ok(())
        },
        Event::FootnoteReference(name) => {
            render_footnote_reference_within_image(name.as_str(), &mut ctx.numbers, w);
            Ok(())
        },
        _ => Err(MalformedEventSequence),
    }
}

fn render_event_within_header(event: Event, ctx: &mut Context, w: &mut String) -> (r: Result<
    (),
    MalformedEventSequence,
>)
    requires
        old(ctx).inv(),
        old(ctx).mode == Mode::WithinHeader,
    ensures
        final(ctx).config == old(ctx).config,
        match header_step(old(ctx).config, old(ctx).state(), old(ctx).header_queue@, event) {
            None => r is Err,
            Some((next, piece)) => {
                &&& r is Ok
                &&& final(ctx).inv()
                &&& final(ctx).state() == next
                &&& final(w)@ == old(w)@ + piece
                &&& next.mode == Mode::WithinHeader ==> final(ctx).header_queue@ == old(
                    ctx,
                ).header_queue@.push(event)
            },
        },
    decreases old(ctx).header_queue@.len() + 1, 0nat,
{
    let ghost queue0 = ctx.header_queue@;
    match &event {
        Event::Start(Tag::Header(_)) => {
            return Err(MalformedEventSequence);
        },
        Event::End(Tag::Header(level)) => {
            let level = *level;
            let mut queue: Vec<Event> = Vec::new();
            std::mem::swap(&mut queue, &mut ctx.header_queue);
            let mut slug = String::new();
            std::mem::swap(&mut slug, &mut ctx.header_slug);
            ctx.mode = Mode::Normal;
            let ghost w1 = w@;
            render_header_start_tag(level, Some(slug.as_str()), w);
            let ghost w2 = w@;
            match render_events_internal(ctx, queue, w) {
                Err(e) => {
                    return Err(e);
                },
                Ok(()) => {},
            }
            if ctx.mode != Mode::Normal {
                return Err(MalformedEventSequence);
            }
            let ghost w3 = w@;
            render_header_end_tag(level, w);
            assert(w@ =~= w1 + (header_open_with_id(level, header_slug(queue0)) + w3.skip(
                w2.len() as int,
            ) + header_close(level)));
            return Ok(());
        },
        Event::Text(text) => {
            push_slug(&mut ctx.header_slug, text.as_str());
        },
        Event::SoftBreak | Event::HardBreak => {
            ctx.header_slug.push('-');
        },
        _ => {},
    }
    ctx.header_queue.push(event);
    assert(ctx.header_queue@.drop_last() =~= queue0);
    assert(ctx.header_slug@ =~= header_slug(ctx.header_queue@));
    assert(w@ =~= w@ + Seq::<char>::empty());
    Ok(())
}

proof fn lemma_run_prefix_fails(cfg: Config, evs: Seq<Event>, start: RenderState, k: int)
    requires
        0 <= k <= evs.len(),
        run(cfg, evs.take(k), start) is None,
    ensures
        run(cfg, evs, start) is None,
    decreases evs.len() - k,
{
    if k == evs.len() {
        assert(evs.take(k) =~= evs);
    } else {
        assert(evs.drop_last().take(k) =~= evs.take(k));
        lemma_run_prefix_fails(cfg, evs.drop_last(), start, k);
    }
}

fn render_events_internal(ctx: &mut Context, events: Vec<Event>, w: &mut String) -> (r: Result<
    (),
    MalformedEventSequence,
>)
    requires
        old(ctx).inv(),
        old(ctx).mode == Mode::Normal,
    ensures
        final(ctx).config == old(ctx).config,
        match run(old(ctx).config, events@, old(ctx).state()) {
            None => r is Err,
            Some((last, out)) => {
                &&& r is Ok
                &&& final(ctx).inv()
                &&& final(ctx).state() == last
                &&& final(w)@ == old(w)@ + out
            },
        },
    decreases events@.len(), 1nat,
{
    let ghost evs = events@;
    let ghost cfg = ctx.config;
    let ghost start = ctx.state();
    let ghost w0 = w@;
    let ghost mut out: Seq<char> = seq![];
    assert(evs.take(0) =~= Seq::<Event>::empty());
    assert(w0 =~= w0 + out);
    for event in it: events.into_iter()
        invariant
            it.seq() == evs,
            evs == events@,
            cfg == old(ctx).config,
            start == old(ctx).state(),
            w0 == old(w)@,
            ctx.config == cfg,
            ctx.inv(),
            run(cfg, evs.take(it.index() as int), start) == Some((ctx.state(), out)),
            w@ == w0 + out,
            ctx.header_queue@.len() <= it.index(),
            ctx.mode == Mode::WithinHeader ==> ctx.header_queue@ == evs.subrange(
                it.index() - ctx.header_queue@.len(),
                it.index() as int,
            ),
    {
        let ghost i = it.index() as int;
        let ghost cur = ctx.state();
        let ghost q = ctx.header_queue@;
        assert(evs.take(i + 1).drop_last() =~= evs.take(i));
        assert(evs.take(i + 1).last() == event);
        let ghost wb = w@;
        if ctx.mode == Mode::WithinHeader {
            assert(evs.take(i).subrange(i - q.len(), i) =~= q);
            let ghost res = header_step(cfg, cur, q, event);
            let r = render_event_within_header(event, ctx, w);
            match r {
                Err(e) => {
                    proof {
                        lemma_run_prefix_fails(cfg, evs, start, i + 1);
                    }
                    return Err(e);
                },
                Ok(()) => {},
            }
            proof {
                out = out + res->Some_0.1;
                if ctx.mode == Mode::WithinHeader {
                    assert(evs.subrange(i - q.len(), i).push(evs[i]) =~= evs.subrange(
                        (i + 1) - (q.len() + 1),
                        i + 1,
                    ));
                }
            }
        } else if ctx.mode == Mode::WithinImage {
            let ghost res = image_step(cur.numbers, event);
            let r = render_event_within_image(&event, ctx, w);
            match r {
                Err(e) => {
                    proof {
                        lemma_run_prefix_fails(cfg, evs, start, i + 1);
                    }
                    return Err(e);
                },
                Ok(()) => {},
            }
            proof {
                out = out + res->Some_0.1;
            }
        } else {
            let ghost res = normal_step(cfg, cur.numbers, event);
            render_event(&event, ctx, w);
            proof {
                out = out + res.1;
                if ctx.mode == Mode::WithinHeader {
                    assert(evs.subrange(i + 1, i + 1) =~= ctx.header_queue@);
                }
            }
        }
        assert(w@ =~= w0 + out);
    }
    assert(evs.take(evs.len() as int) =~= evs);
    Ok(())
}

/// Renders `events` as HTML, appended to `w`. Footnotes are numbered from 0 in
/// order of first mention. Fails on a malformed sequence, and `w` then holds
/// no well-defined output.
pub fn render_events(config: Config, events: Vec<Event>, w: &mut String) -> (r: Result<
    (),
    MalformedEventSequence,
>)
    ensures
        match rendered(config, events@) {
            Some(out) => r is Ok && final(w)@ == old(w)@ + out,
            None => r is Err,
        },
{
    let mut context = Context {
        numbers: FootnoteNumbers::new(),
        mode: Mode::Normal,
        header_queue: Vec::new(),
        header_slug: String::new(),
        config: config,
    };
    assert(context.header_slug@ =~= header_slug(context.header_queue@));
    assert(context.state() == in_mode(Seq::empty(), Mode::Normal));
    match render_events_internal(&mut context, events, w) {
        Err(e) => Err(e),
        Ok(()) => {
            if context.mode == Mode::Normal {
                Ok(())
            } else {
                Err(MalformedEventSequence)
            }
        },
    }
}

// ---------------------------------------------------------------------------
// Laws
// ---------------------------------------------------------------------------

proof fn lemma_run_two(cfg: Config, e1: Event, e2: Event, start: RenderState)
    requires
        start.mode == Mode::Normal,
    ensures
        run(cfg, seq![e1, e2], start) == match step(cfg, start, e1) {
            None => None,
            Some((mid, out1)) => if mid.mode == Mode::WithinHeader {
                if mid.held <= 1 {
                    match header_step(cfg, mid, seq![e1].subrange(1 - mid.held, 1), e2) {
                        None => None,
                        Some((last, out2)) => Some((last, seq![] + out1 + out2)),
                    }
                } else {
                    None
                }
            } else {
                match step(cfg, mid, e2) {
                    None => None,
                    Some((last, out2)) => Some((last, seq![] + out1 + out2)),
                }
            },
        },
{
    let one = seq![e1];
    let two = seq![e1, e2];
    assert(two.drop_last() =~= one);
    assert(one.drop_last() =~= Seq::<Event>::empty());
    assert(two.last() == e2);
    assert(one.last() == e1);
    assert(run(cfg, Seq::<Event>::empty(), start) == Some((start, Seq::<char>::empty())));
    assert(run(cfg, one, start) == match step(cfg, start, e1) {
        None => None,
        Some((mid, out1)) => Some((mid, seq![] + out1)),
    });
}

/// Footnote numbers do not depend on whether a name is first met as a
/// reference or as a definition: a reference followed by a definition of the
/// same name, or a definition followed by a reference, both show the number
/// that the name's first mention gave it. Two distinct names mentioned in turn
/// from an empty table are numbered 0 and 1.
pub proof fn lemma_footnote_numbers_agree(
    cfg: Config,
    numbers: Seq<Seq<char>>,
    a: String,
    b: String,
)
    requires
        numbers.no_duplicates(),
    ensures
        ({
            let n = footnote_number(numbers, a@) as nat;
            let after = in_mode(mention(numbers, a@), Mode::Normal);
            &&& run(
                cfg,
                seq![Event::FootnoteReference(a), Event::Start(Tag::FootnoteDefinition(a))],
                in_mode(numbers, Mode::Normal),
            ) == Some((after, footnote_reference(a@, n) + footnote_definition_open(a@, n)))
            &&& run(
                cfg,
                seq![Event::Start(Tag::FootnoteDefinition(a)), Event::FootnoteReference(a)],
                in_mode(numbers, Mode::Normal),
            ) == Some((after, footnote_definition_open(a@, n) + footnote_reference(a@, n)))
        }),
        a@ != b@ ==> run(
            cfg,
            seq![Event::FootnoteReference(a), Event::FootnoteReference(b)],
            in_mode(Seq::empty(), Mode::Normal),
        ) == Some(
            (
                in_mode(seq![a@, b@], Mode::Normal),
                footnote_reference(a@, 0) + footnote_reference(b@, 1),
            ),
        ),
{
    let start = in_mode(numbers, Mode::Normal);
    let r = Event::FootnoteReference(a);
    let d = Event::Start(Tag::FootnoteDefinition(a));
    crate::numbering::lemma_numbering_stable(numbers, a@, b@);
    lemma_run_two(cfg, r, d, start);
    lemma_run_two(cfg, d, r, start);
    let n = footnote_number(numbers, a@) as nat;
    assert(seq![] + footnote_reference(a@, n) + footnote_definition_open(a@, n) =~= footnote_reference(
        a@,
        n,
    ) + footnote_definition_open(a@, n));
    assert(seq![] + footnote_definition_open(a@, n) + footnote_reference(a@, n) =~= footnote_definition_open(
        a@,
        n,
    ) + footnote_reference(a@, n));
    if a@ != b@ {
        let empty = Seq::<Seq<char>>::empty();
        let rb = Event::FootnoteReference(b);
        crate::numbering::lemma_numbering_stable(empty, a@, b@);
        lemma_run_two(cfg, r, rb, in_mode(empty, Mode::Normal));
        assert(!empty.contains(a@));
        assert(mention(empty, a@) =~= seq![a@]);
        assert(!seq![a@].contains(b@)) by {
            if seq![a@].contains(b@) {
                let k = choose|k: int| 0 <= k < 1 && seq![a@][k] == b@;
            }
        }
        assert(mention(seq![a@], b@) =~= seq![a@, b@]);
        assert(seq![] + footnote_reference(a@, 0) + footnote_reference(b@, 1) =~= footnote_reference(
            a@,
            0,
        ) + footnote_reference(b@, 1));
    }
}

/// A header's id is the slug of its text, one character for each: ASCII
/// letters lower-cased, other ASCII characters kept, and `-` for whitespace
/// and for every non-ASCII character. With header ids on, a header holding
/// the text `t` renders as `<hN id="slug(t)">` + escaped `t` + `</hN>`.
pub proof fn lemma_header_slug(cfg: Config, numbers: Seq<Seq<char>>, level: u8, t: String)
    requires
        cfg.header_ids,
    ensures
        slugged(t@).len() == t@.len(),
        forall|i: int| 0 <= i < t@.len() ==> #[trigger] slugged(t@)[i] == slug_char(t@[i]),
        forall|i: int|
            0 <= i < t@.len() && t@[i] >= '\u{80}' ==> #[trigger] slugged(t@)[i] == '-',
        run(
            cfg,
            seq![Event::Start(Tag::Header(level)), Event::Text(t), Event::End(Tag::Header(level))],
            in_mode(numbers, Mode::Normal),
        ) == Some(
            (
                in_mode(numbers, Mode::Normal),
                header_open_with_id(level, slugged(t@)) + html_escaped(t@) + header_close(level),
            ),
        ),
{
    lemma_slugged_chars(t@);
    let start = in_mode(numbers, Mode::Normal);
    let h = Event::Start(Tag::Header(level));
    let x = Event::Text(t);
    let e = Event::End(Tag::Header(level));
    let evs = seq![h, x, e];
    assert(evs.drop_last() =~= seq![h, x]);
    lemma_run_two(cfg, h, x, start);
    let mid = in_mode(numbers, Mode::WithinHeader);
    assert(seq![h].subrange(1, 1) =~= Seq::<Event>::empty());
    let cur = RenderState { held: 1, ..mid };
    assert(run(cfg, seq![h, x], start) == Some((cur, seq![] + Seq::<char>::empty() + Seq::<char>::empty())));
    assert(seq![] + Seq::<char>::empty() + Seq::<char>::empty() =~= Seq::<char>::empty());
    assert(evs.last() == e);
    let held = seq![h, x].subrange(1, 2);
    assert(held =~= seq![x]);
    assert(seq![x].drop_last() =~= Seq::<Event>::empty());
    assert(seq![x].last() == x);
    assert(header_slug(Seq::<Event>::empty()) == Seq::<char>::empty());
    assert(header_slug(seq![x]) =~= slugged(t@));
    assert(run(cfg, Seq::<Event>::empty(), start) == Some((start, Seq::<char>::empty())));
    assert(run(cfg, seq![x], start) == Some((start, seq![] + html_escaped(t@))));
    assert(seq![] + html_escaped(t@) =~= html_escaped(t@));
    let piece = header_open_with_id(level, slugged(t@)) + html_escaped(t@) + header_close(level);
    assert(header_step(cfg, cur, held, e) == Some((start, piece)));
    assert(run(cfg, evs, start) == Some((start, Seq::<char>::empty() + piece)));
    assert(Seq::<char>::empty() + piece =~= piece);
}

proof fn lemma_slugged_chars(t: Seq<char>)
    ensures
        slugged(t).len() == t.len(),
        forall|i: int| 0 <= i < t.len() ==> #[trigger] slugged(t)[i] == slug_char(t[i]),
    decreases t.len(),
{
    if t.len() > 0 {
        lemma_slugged_chars(t.drop_last());
        assert forall|i: int| 0 <= i < t.len() implies #[trigger] slugged(t)[i] == slug_char(t[i]) by {
            if i < t.len() - 1 {
                assert(slugged(t)[i] == slugged(t.drop_last())[i]);
            }
        }
    }
}

} // verus!
