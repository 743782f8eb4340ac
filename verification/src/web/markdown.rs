//! Markdown as note rendering sees it: pulldown-cmark's events, each converted variant
//! for variant into a plain value, and the HTML it writes for a rebuilt list of events.
use vstd::prelude::*;
use pulldown_cmark::{html, Event, LinkType, Options, Parser, Tag, TagEnd};
use self::MarkdownEvent::{
    Code, DisplayMath, End, FootnoteReference, HardBreak, Html, InlineHtml, InlineMath, Rule, SoftBreak, Start,
    TaskListMarker, Text,
};
use self::MarkdownTag::{
    BlockQuote, CodeBlock, DefinitionList, DefinitionListDefinition, DefinitionListTitle, Emphasis, FootnoteDefinition,
    Heading, HtmlBlock, Image, Item, Link, List, MetadataBlock, Paragraph, Strikethrough, Strong, Table, TableCell,
    TableHead, TableRow,
};

verus! {

/// The element a start or end event opens or closes (`pulldown_cmark::TagEnd`, without
/// the heading level, quote kind, list kind or metadata kind).
#[derive(Debug, Clone, Copy, PartialEq, Eq, Structural)]
pub enum MarkdownTag {
    Paragraph,
    Heading,
    BlockQuote,
    CodeBlock,
    HtmlBlock,
    List,
    Item,
    FootnoteDefinition,
    DefinitionList,
    DefinitionListTitle,
    DefinitionListDefinition,
    Table,
    TableHead,
    TableRow,
    TableCell,
    Emphasis,
    Strong,
    Strikethrough,
    Link,
    Image,
    MetadataBlock,
}

/// One Markdown event (`pulldown_cmark::Event`). The element of a start or end event
/// is given beside it, as a `MarkdownTag`.
#[derive(Debug, Clone)]
pub enum MarkdownEvent {
    Start,
    End,
    Text(String),
    Code(String),
    InlineMath(String),
    DisplayMath(String),
    Html(String),
    InlineHtml(String),
    FootnoteReference(String),
    SoftBreak,
    HardBreak,
    Rule,
    TaskListMarker(bool),
}

pub enum MarkdownEventView {
    Start,
    End,
    Text(Seq<char>),
    Code(Seq<char>),
    InlineMath(Seq<char>),
    DisplayMath(Seq<char>),
    Html(Seq<char>),
    InlineHtml(Seq<char>),
    FootnoteReference(Seq<char>),
    SoftBreak,
    HardBreak,
    Rule,
    TaskListMarker(bool),
}

impl View for MarkdownEvent {
    type V = MarkdownEventView;

    open spec fn view(&self) -> MarkdownEventView {
        match self {
            MarkdownEvent::Start => MarkdownEventView::Start,
            MarkdownEvent::End => MarkdownEventView::End,
            MarkdownEvent::Text(t) => MarkdownEventView::Text(t@),
            MarkdownEvent::Code(t) => MarkdownEventView::Code(t@),
            MarkdownEvent::InlineMath(t) => MarkdownEventView::InlineMath(t@),
            MarkdownEvent::DisplayMath(t) => MarkdownEventView::DisplayMath(t@),
            MarkdownEvent::Html(t) => MarkdownEventView::Html(t@),
            MarkdownEvent::InlineHtml(t) => MarkdownEventView::InlineHtml(t@),
            MarkdownEvent::FootnoteReference(t) => MarkdownEventView::FootnoteReference(t@),
            MarkdownEvent::SoftBreak => MarkdownEventView::SoftBreak,
            MarkdownEvent::HardBreak => MarkdownEventView::HardBreak,
            MarkdownEvent::Rule => MarkdownEventView::Rule,
            MarkdownEvent::TaskListMarker(checked) => MarkdownEventView::TaskListMarker(*checked),
        }
    }
}

impl MarkdownEvent {
    /// A copy of this event.
    pub fn duplicate(&self) -> (r: MarkdownEvent)
        ensures
            r@ == self@,
    {
        match self {
            MarkdownEvent::Start => MarkdownEvent::Start,
            MarkdownEvent::End => MarkdownEvent::End,
            MarkdownEvent::Text(t) => MarkdownEvent::Text(t.clone()),
            MarkdownEvent::Code(t) => MarkdownEvent::Code(t.clone()),
            MarkdownEvent::InlineMath(t) => MarkdownEvent::InlineMath(t.clone()),
            MarkdownEvent::DisplayMath(t) => MarkdownEvent::DisplayMath(t.clone()),
            MarkdownEvent::Html(t) => MarkdownEvent::Html(t.clone()),
            MarkdownEvent::InlineHtml(t) => MarkdownEvent::InlineHtml(t.clone()),
            MarkdownEvent::FootnoteReference(t) => MarkdownEvent::FootnoteReference(t.clone()),
            MarkdownEvent::SoftBreak => MarkdownEvent::SoftBreak,
            MarkdownEvent::HardBreak => MarkdownEvent::HardBreak,
            MarkdownEvent::Rule => MarkdownEvent::Rule,
            MarkdownEvent::TaskListMarker(checked) => MarkdownEvent::TaskListMarker(*checked),
        }
    }
}

pub open spec fn events_view(s: Seq<MarkdownEvent>) -> Seq<MarkdownEventView> {
    s.map_values(|e: MarkdownEvent| e@)
}

/// Events with their elements, as plain values.
pub open spec fn tagged_view(s: Seq<(MarkdownEvent, Option<MarkdownTag>)>) -> Seq<(MarkdownEventView, Option<MarkdownTag>)> {
    s.map_values(|p: (MarkdownEvent, Option<MarkdownTag>)| (p.0@, p.1))
}

/// The events `pulldown_cmark::Parser::new_ext` reads in `body` with these option bits,
/// in order, each with the element it opens or closes when it is a start or end event.
pub uninterp spec fn markdown_events_of(body: Seq<char>, options: u32) -> Seq<(MarkdownEventView, Option<MarkdownTag>)>;

/// `pulldown_cmark::Parser::new_ext` with `options` as its option bits: each event,
/// variant for variant, a start or end event without its element.
#[verifier::external_body]
fn markdown_events(body: &str, options: u32) -> (r: Vec<MarkdownEvent>)
    ensures
        events_view(r@) == markdown_events_of(body@, options).map_values(
            |e: (MarkdownEventView, Option<MarkdownTag>)| e.0,
        ),
{
    Parser::new_ext(body, Options::from_bits_truncate(options)).map(|event| match event {
        Event::Start(_) => Start,
        Event::End(_) => End,
        Event::Text(t) => Text(t.into()),
        Event::Code(t) => Code(t.into()),
        Event::InlineMath(t) => InlineMath(t.into()),
        Event::DisplayMath(t) => DisplayMath(t.into()),
        Event::Html(t) => Html(t.into()),
        Event::InlineHtml(t) => InlineHtml(t.into()),
        Event::FootnoteReference(t) => FootnoteReference(t.into()),
        Event::SoftBreak => SoftBreak,
        Event::HardBreak => HardBreak,
        Event::Rule => Rule,
        Event::TaskListMarker(checked) => TaskListMarker(checked),
    }).collect()
}

/// `pulldown_cmark::Parser::new_ext` with `options` as its option bits: for each event,
/// the element a start event opens (`Tag::to_end`) or an end event closes, variant for
/// variant, and nothing for the other events.
#[verifier::external_body]
fn markdown_tags(body: &str, options: u32) -> (r: Vec<Option<MarkdownTag>>)
    ensures
        r@ == markdown_events_of(body@, options).map_values(|e: (MarkdownEventView, Option<MarkdownTag>)| e.1),
{
    Parser::new_ext(body, Options::from_bits_truncate(options)).map(|event| Some(match match event {
        Event::Start(tag) => tag.to_end(),
        Event::End(tag) => tag,
        _ => return None,
    } {
        TagEnd::Paragraph => Paragraph, TagEnd::Heading(_) => Heading, TagEnd::BlockQuote(_) => BlockQuote,
        TagEnd::CodeBlock => CodeBlock, TagEnd::HtmlBlock => HtmlBlock, TagEnd::List(_) => List, TagEnd::Item => Item,
        TagEnd::FootnoteDefinition => FootnoteDefinition, TagEnd::DefinitionList => DefinitionList,
        TagEnd::DefinitionListTitle => DefinitionListTitle, TagEnd::DefinitionListDefinition => DefinitionListDefinition,
        TagEnd::Table => Table, TagEnd::TableHead => TableHead, TagEnd::TableRow => TableRow, TagEnd::TableCell => TableCell,
        TagEnd::Emphasis => Emphasis, TagEnd::Strong => Strong, TagEnd::Strikethrough => Strikethrough,
        TagEnd::Link => Link, TagEnd::Image => Image, TagEnd::MetadataBlock(_) => MetadataBlock,
    })).collect()
}

/// The events of `body` read with `options`, each with the element it opens or closes.
pub fn parse_markdown(body: &str, options: u32) -> (r: Vec<(MarkdownEvent, Option<MarkdownTag>)>)
    ensures
        tagged_view(r@) == markdown_events_of(body@, options),
{
    let events = markdown_events(body, options);
    let tags = markdown_tags(body, options);
    let ghost parsed = markdown_events_of(body@, options);
    assert(events_view(events@).len() == parsed.len());
    let mut r: Vec<(MarkdownEvent, Option<MarkdownTag>)> = Vec::new();
    let mut i: usize = 0;
    while i < events.len()
        invariant
            i <= events@.len(),
            events@.len() == parsed.len(),
            tags@.len() == parsed.len(),
            events_view(events@) == parsed.map_values(|e: (MarkdownEventView, Option<MarkdownTag>)| e.0),
            tags@ == parsed.map_values(|e: (MarkdownEventView, Option<MarkdownTag>)| e.1),
            r@.len() == i,
            forall|k: int| 0 <= k < i ==> (#[trigger] r@[k]).0@ == parsed[k].0 && r@[k].1 == parsed[k].1,
        decreases events.len() - i,
    {
        assert(events_view(events@)[i as int] == events@[i as int]@);
        assert(events_view(events@)[i as int] == parsed[i as int].0);
        assert(tags@[i as int] == parsed[i as int].1);
        r.push((events[i].duplicate(), tags[i]));
        i = i + 1;
    }
    assert(tagged_view(r@) =~= parsed);
    r
}

/// A part of a page rebuilt from a note's events.
#[derive(Debug, Clone)]
pub enum Emit {
    /// The event at this index, unchanged.
    Same(usize),
    /// Text.
    Text(String),
    /// The start of an inline link to `url`, with its title and reference id.
    StartInlineLink { url: String, title: String, id: String },
    /// The end of a link.
    EndLink,
}

pub enum EmitView {
    Same(usize),
    Text(Seq<char>),
    StartInlineLink { url: Seq<char>, title: Seq<char>, id: Seq<char> },
    EndLink,
}

impl View for Emit {
    type V = EmitView;

    open spec fn view(&self) -> EmitView {
        match self {
            Emit::Same(i) => EmitView::Same(*i),
            Emit::Text(t) => EmitView::Text(t@),
            Emit::StartInlineLink { url, title, id } => EmitView::StartInlineLink { url: url@, title: title@, id: id@ },
            Emit::EndLink => EmitView::EndLink,
        }
    }
}

pub open spec fn emits_view(s: Seq<Emit>) -> Seq<EmitView> {
    s.map_values(|e: Emit| e@)
}

/// Whether a part refers only to events below `n`.
pub open spec fn fits(e: EmitView, n: int) -> bool {
    match e {
        EmitView::Same(i) => i < n,
        _ => true,
    }
}

/// What `pulldown_cmark::html::push_html` writes for the events of `body` (read with
/// `options`) rebuilt as `plan` says.
pub uninterp spec fn markdown_html_of(body: Seq<char>, options: u32, plan: Seq<EmitView>) -> Seq<char>;

/// `pulldown_cmark::html::push_html` of the events of `body` as `plan` rebuilds them,
/// each part converted to the event it names.
#[verifier::external_body]
pub(crate) fn markdown_html(body: &str, options: u32, plan: Vec<Emit>) -> (r: String)
    requires
        forall|k: int| 0 <= k < plan@.len() ==> fits(#[trigger] plan@[k]@, markdown_events_of(body@, options).len() as int),
    ensures
        r@ == markdown_html_of(body@, options, emits_view(plan@)),
{
    let events: Vec<Event> = Parser::new_ext(body, Options::from_bits_truncate(options)).collect();
    let parts = plan.into_iter().map(|part| match part {
        Emit::Same(i) => events[i].clone(),
        Emit::Text(text) => Event::Text(text.into()),
        Emit::StartInlineLink { url, title, id } => Event::Start(
            Tag::Link { link_type: LinkType::Inline, dest_url: url.into(), title: title.into(), id: id.into() },
        ),
        Emit::EndLink => Event::End(TagEnd::Link),
    });
    let mut page = String::new();
    html::push_html(&mut page, parts);
    page
}

} // verus!
