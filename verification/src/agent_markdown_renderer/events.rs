//! The events of the Markdown parser, as this library's own.

use std::borrow::Cow;

use pulldown_cmark::Alignment as ColumnAlignment;
use pulldown_cmark::BlockQuoteKind;
use pulldown_cmark::CodeBlockKind;
use pulldown_cmark::Event as Raw;
use pulldown_cmark::Parser;
use pulldown_cmark::Tag as RawTag;
use vstd::prelude::*;

use crate::agent_markdown_renderer::document::build_document;
use crate::agent_markdown_renderer::document::document_of;
use crate::agent_markdown_renderer::document::events_view;
use crate::agent_markdown_renderer::document::nodes_view;
use crate::agent_markdown_renderer::document::Alignment;
use crate::agent_markdown_renderer::document::Event;
use crate::agent_markdown_renderer::document::EventText;
use crate::agent_markdown_renderer::document::Node;
use crate::agent_markdown_renderer::document::QuoteKind;
use crate::agent_markdown_renderer::document::Tag;
use crate::agent_markdown_renderer::document::TagText;
use crate::markdown::normalize_cjk_emphasis;
use crate::markdown::normalized;
use crate::markdown::parser;
use crate::markdown::parser_events;
use crate::markdown::source_events;
use crate::markdown::EXTENSIONS;

verus! {

/// An event of the parser.
#[verifier::external_type_specification]
#[verifier::external_body]
pub struct ExEvent<'a>(Raw<'a>);

/// What `event` says.
pub uninterp spec fn event_content(event: Raw<'static>) -> EventText;

/// `Parser` as an iterator: the events that it finds, in order. `Event::into_static` makes each one
/// own its text and leaves what it says as it is.
#[verifier::external_body]
fn collect_events(parser: Parser<'_>) -> (r: Vec<Raw<'static>>)
    ensures
        r@.map_values(|event: Raw<'static>| event_content(event)) == parser_events(parser),
{
    parser.map(Raw::into_static).collect()
}

/// Whether `event` holds text.
pub open spec fn is_textual(event: EventText) -> bool {
    ||| event is Text
    ||| event is Code
    ||| event is InlineMath
    ||| event is DisplayMath
    ||| event is Html
    ||| event is InlineHtml
    ||| event is FootnoteReference
}

/// `pulldown_cmark::Event`, where it holds text: that text under the same name.
#[verifier::external_body]
fn textual_event(event: &Raw<'static>) -> (r: Option<Event>)
    ensures
        r is Some == is_textual(event_content(*event)),
        r matches Some(known) ==> known@ == event_content(*event),
{
    Some(match event {
        Raw::Text(text) => Event::Text(text.to_string()),
        Raw::Code(text) => Event::Code(text.to_string()),
        Raw::InlineMath(text) => Event::InlineMath(text.to_string()),
        Raw::DisplayMath(text) => Event::DisplayMath(text.to_string()),
        Raw::Html(text) => Event::Html(text.to_string()),
        Raw::InlineHtml(text) => Event::InlineHtml(text.to_string()),
        Raw::FootnoteReference(label) => Event::FootnoteReference(label.to_string()),
        _ => return None,
    })
}

/// `pulldown_cmark::Event`, where it neither holds text nor starts an element: its name.
#[verifier::external_body]
fn bare_event(event: &Raw<'static>) -> (r: Option<Event>)
    ensures
        r is Some == (!is_textual(event_content(*event)) && event_content(*event) !is Start),
        r matches Some(known) ==> known@ == event_content(*event),
{
    match event {
        Raw::End(_) => Some(Event::End),
        Raw::SoftBreak => Some(Event::SoftBreak),
        Raw::HardBreak => Some(Event::HardBreak),
        Raw::Rule => Some(Event::Rule),
        Raw::TaskListMarker(checked) => Some(Event::TaskListMarker(*checked)),
        _ => None,
    }
}

/// Whether `tag` is one of a block that holds blocks or lines.
pub open spec fn is_block_tag(tag: TagText) -> bool {
    ||| tag is Paragraph
    ||| tag is Heading
    ||| tag is IndentedCode
    ||| tag is FencedCode
    ||| tag is HtmlBlock
    ||| tag is List
    ||| tag is Item
    ||| tag is FootnoteDefinition
}

/// `pulldown_cmark::Tag`, where it is that of a paragraph, a heading, code, HTML, a list, an
/// item or a footnote: the same tag. The level of a heading is its number.
#[verifier::external_body]
fn block_tag(event: &Raw<'static>) -> (r: Option<Tag>)
    ensures
        r is Some == (event_content(*event) is Start && is_block_tag(
            event_content(*event)->Start_0,
        )),
        r matches Some(tag) ==> event_content(*event) == EventText::Start(tag@),
{
    match event {
        Raw::Start(RawTag::Paragraph) => Some(Tag::Paragraph),
        Raw::Start(RawTag::Heading { level, .. }) => Some(Tag::Heading(*level as u8)),
        Raw::Start(RawTag::CodeBlock(CodeBlockKind::Indented)) => Some(Tag::IndentedCode),
        Raw::Start(RawTag::CodeBlock(CodeBlockKind::Fenced(info))) => Some(Tag::FencedCode(info.to_string())),
        Raw::Start(RawTag::HtmlBlock) => Some(Tag::HtmlBlock),
        Raw::Start(RawTag::List(start)) => Some(Tag::List(*start)),
        Raw::Start(RawTag::Item) => Some(Tag::Item),
        Raw::Start(RawTag::FootnoteDefinition(label)) => Some(Tag::FootnoteDefinition(label.to_string())),
        _ => None,
    }
}

/// `pulldown_cmark::Tag`, where it is that of a block quote: the same tag, with the kind of alert
/// that it is.
#[verifier::external_body]
fn quote_tag(event: &Raw<'static>) -> (r: Option<Tag>)
    ensures
        r is Some == (event_content(*event) is Start && event_content(*event)->Start_0
            is BlockQuote),
        r matches Some(tag) ==> event_content(*event) == EventText::Start(tag@),
{
    let Raw::Start(RawTag::BlockQuote(kind)) = event else { return None };
    Some(Tag::BlockQuote(kind.map(|alert| match alert {
        BlockQuoteKind::Note => QuoteKind::Note,
        BlockQuoteKind::Tip => QuoteKind::Tip,
        BlockQuoteKind::Important => QuoteKind::Important,
        BlockQuoteKind::Warning => QuoteKind::Warning,
        BlockQuoteKind::Caution => QuoteKind::Caution,
    })))
}

/// `pulldown_cmark::Tag`, where it is that of a table: the same tag, with the alignment of each
/// column.
#[verifier::external_body]
fn table_tag(event: &Raw<'static>) -> (r: Option<Tag>)
    ensures
        r is Some == (event_content(*event) is Start && event_content(*event)->Start_0 is Table),
        r matches Some(tag) ==> event_content(*event) == EventText::Start(tag@),
{
    let Raw::Start(RawTag::Table(columns)) = event else { return None };
    Some(Tag::Table(columns.iter().map(|column| match column {
        ColumnAlignment::None => Alignment::Unset,
        ColumnAlignment::Left => Alignment::Left,
        ColumnAlignment::Center => Alignment::Center,
        ColumnAlignment::Right => Alignment::Right,
    }).collect()))
}

/// Whether `tag` is one of a part of a table or of a definition list.
pub open spec fn is_part_tag(tag: TagText) -> bool {
    ||| tag is DefinitionList
    ||| tag is DefinitionListTitle
    ||| tag is DefinitionListDefinition
    ||| tag is TableHead
    ||| tag is TableRow
    ||| tag is TableCell
    ||| tag is MetadataBlock
}

/// `pulldown_cmark::Tag`, where it is that of a definition list, of a part of one or of a table,
/// or of metadata: the same tag.
#[verifier::external_body]
fn part_tag(event: &Raw<'static>) -> (r: Option<Tag>)
    ensures
        r is Some == (event_content(*event) is Start && is_part_tag(
            event_content(*event)->Start_0,
        )),
        r matches Some(tag) ==> event_content(*event) == EventText::Start(tag@),
{
    match event {
        Raw::Start(RawTag::DefinitionList) => Some(Tag::DefinitionList),
        Raw::Start(RawTag::DefinitionListTitle) => Some(Tag::DefinitionListTitle),
        Raw::Start(RawTag::DefinitionListDefinition) => Some(Tag::DefinitionListDefinition),
        Raw::Start(RawTag::TableHead) => Some(Tag::TableHead),
        Raw::Start(RawTag::TableRow) => Some(Tag::TableRow),
        Raw::Start(RawTag::TableCell) => Some(Tag::TableCell),
        Raw::Start(RawTag::MetadataBlock(_)) => Some(Tag::MetadataBlock),
        _ => None,
    }
}

/// Whether `tag` is one of inline content.
pub open spec fn is_inline_tag(tag: TagText) -> bool {
    ||| tag is Emphasis
    ||| tag is Strong
    ||| tag is Strikethrough
    ||| tag is Superscript
    ||| tag is Subscript
    ||| tag is Link
    ||| tag is Image
}

/// `pulldown_cmark::Tag`, where it is that of inline content: the same tag, with the address of
/// an image.
#[verifier::external_body]
fn inline_tag(event: &Raw<'static>) -> (r: Option<Tag>)
    ensures
        r is Some == (event_content(*event) is Start && is_inline_tag(
            event_content(*event)->Start_0,
        )),
        r matches Some(tag) ==> event_content(*event) == EventText::Start(tag@),
{
    match event {
        Raw::Start(RawTag::Emphasis) => Some(Tag::Emphasis),
        Raw::Start(RawTag::Strong) => Some(Tag::Strong),
        Raw::Start(RawTag::Strikethrough) => Some(Tag::Strikethrough),
        Raw::Start(RawTag::Superscript) => Some(Tag::Superscript),
        Raw::Start(RawTag::Subscript) => Some(Tag::Subscript),
        Raw::Start(RawTag::Link { .. }) => Some(Tag::Link),
        Raw::Start(RawTag::Image { dest_url, .. }) => Some(Tag::Image(dest_url.to_string())),
        _ => None,
    }
}

/// The event as one of this library.
fn known_event(event: &Raw<'static>) -> (r: Event)
    ensures
        r@ == event_content(*event),
{
    if let Some(known) = textual_event(event) {
        known
    } else if let Some(known) = bare_event(event) {
        known
    } else if let Some(tag) = block_tag(event) {
        Event::Start(tag)
    } else if let Some(tag) = inline_tag(event) {
        Event::Start(tag)
    } else if let Some(tag) = quote_tag(event) {
        Event::Start(tag)
    } else if let Some(tag) = table_tag(event) {
        Event::Start(tag)
    } else if let Some(tag) = part_tag(event) {
        Event::Start(tag)
    } else {
        assert(false);
        Event::End
    }
}

/// The events of a Markdown source.
pub fn document_events(source: &str) -> (r: Vec<Event>)
    ensures
        events_view(r@) == source_events(source@, EXTENSIONS),
{
    let raw = collect_events(parser(source));
    let ghost all = source_events(source@, EXTENSIONS);
    let mut events: Vec<Event> = Vec::new();
    for i in 0..raw.len()
        invariant
            all == raw@.map_values(|event: Raw<'static>| event_content(event)),
            events_view(events@) == all.take(i as int),
    {
        let event = known_event(&raw[i]);
        let ghost before = events_view(events@);
        events.push(event);
        assert(events_view(events@) =~= before.push(event@));
        assert(before.push(event@) =~= all.take(i + 1));
    }
    assert(all.take(all.len() as int) =~= all);
    events
}

/// The document of a Markdown source.
pub fn parse_document(source: &str) -> (r: Vec<Node>)
    ensures
        nodes_view(r@) == document_of(source_events(normalized(source@), EXTENSIONS)),
{
    let events = match normalize_cjk_emphasis(source) {
        Cow::Borrowed(text) => document_events(text),
        Cow::Owned(text) => document_events(&text),
    };
    build_document(events)
}

} // verus!
