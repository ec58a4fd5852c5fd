//! The structural event source, backed by `pulldown_cmark`.
//!
//! Markdown tokenization is delegated to the outside parser; the items in
//! this module are the trusted boundary around it. The event sequence a
//! source string parses to is named by the uninterpreted function
//! `events_of`; everything the renderer proves about a render holds for
//! whatever sequence the parser produces.

use vstd::prelude::*;
use vstd::utf8::decode_utf8;
use vstd::utf8::valid_utf8;

use crate::events::styled_balanced;
use crate::events::RenderEvent;

use pulldown_cmark::Event;
use pulldown_cmark::HeadingLevel;
use pulldown_cmark::Options;
use pulldown_cmark::Parser;
use pulldown_cmark::Tag;
use pulldown_cmark::TagEnd;

verus! {

#[verifier::external_type_specification]
#[verifier::external_body]
pub struct ExEvent<'a>(Event<'a>);

#[verifier::external_type_specification]
#[verifier::external_body]
pub struct ExTag<'a>(Tag<'a>);

#[verifier::external_type_specification]
#[verifier::external_body]
pub struct ExTagEnd(TagEnd);

/// The event sequence that `pulldown_cmark` parses a source text to, under
/// the given extension switches (tables, strikethrough, task lists,
/// footnotes). The parser is deterministic: the sequence is a function of
/// the source text and the switches alone.
pub uninterp spec fn events_of(
    src: Seq<char>,
    tables: bool,
    strikethrough: bool,
    tasklists: bool,
    footnotes: bool,
) -> Seq<RenderEvent>;

/// Relies on `pulldown_cmark::Tag`: one arm per start tag the renderer
/// styles; every other construct is a no-op start.
#[verifier::external_body]
fn convert_start(t: Tag<'_>) -> RenderEvent {
    match t {
        Tag::Heading { level, .. } => RenderEvent::HeadingStart { top_level: level == HeadingLevel::H1 },
        Tag::CodeBlock(_) => RenderEvent::CodeBlockStart,
        Tag::Emphasis => RenderEvent::EmphasisStart,
        Tag::Strong => RenderEvent::StrongStart,
        Tag::Link { .. } => RenderEvent::LinkStart,
        Tag::List(start) => RenderEvent::ListStart { ordered: start.is_some() },
        Tag::Item => RenderEvent::ItemStart,
        Tag::BlockQuote(_) => RenderEvent::BlockQuoteStart,
        Tag::Table(_) => RenderEvent::TableStart,
        Tag::TableCell => RenderEvent::TableCellStart,
        Tag::Strikethrough => RenderEvent::StrikethroughStart,
        Tag::Paragraph => RenderEvent::ParagraphStart,
        _ => RenderEvent::OtherStart,
    }
}

/// Relies on `pulldown_cmark::TagEnd`: one arm per end tag the renderer
/// closes; every other construct is a no-op end.
#[verifier::external_body]
fn convert_end(t: TagEnd) -> RenderEvent {
    match t {
        TagEnd::Heading(_) => RenderEvent::HeadingEnd,
        TagEnd::CodeBlock => RenderEvent::CodeBlockEnd,
        TagEnd::Paragraph => RenderEvent::ParagraphEnd,
        TagEnd::Emphasis => RenderEvent::EmphasisEnd,
        TagEnd::Strong => RenderEvent::StrongEnd,
        TagEnd::Link => RenderEvent::LinkEnd,
        TagEnd::List(_) => RenderEvent::ListEnd,
        TagEnd::Item => RenderEvent::ItemEnd,
        TagEnd::BlockQuote(_) => RenderEvent::BlockQuoteEnd,
        TagEnd::Table => RenderEvent::TableEnd,
        TagEnd::TableRow => RenderEvent::TableRowEnd,
        TagEnd::Strikethrough => RenderEvent::StrikethroughEnd,
        _ => RenderEvent::OtherEnd,
    }
}

/// Relies on `pulldown_cmark::Event`: one arm per leaf event, moving the
/// literal content. Start and end events never reach the catch-all arm;
/// they are converted by the caller.
#[verifier::external_body]
fn convert_leaf(ev: Event<'_>) -> RenderEvent {
    match ev {
        Event::Text(s) => RenderEvent::Text { s: s.into_string() },
        Event::Code(s) => RenderEvent::InlineCode { s: s.into_string() },
        Event::Html(s) => RenderEvent::Html { s: s.into_string() },
        Event::InlineHtml(s) => RenderEvent::InlineHtml { s: s.into_string() },
        Event::InlineMath(s) => RenderEvent::InlineMath { s: s.into_string() },
        Event::DisplayMath(s) => RenderEvent::DisplayMath { s: s.into_string() },
        Event::SoftBreak => RenderEvent::SoftBreak,
        Event::HardBreak => RenderEvent::HardBreak,
        Event::Rule => RenderEvent::Rule,
        Event::TaskListMarker(checked) => RenderEvent::TaskMarker { checked },
        Event::FootnoteReference(_) => RenderEvent::FootnoteRef,
        _ => RenderEvent::FootnoteRef,
    }
}

/// Relies on `pulldown_cmark::Event`: the three groups of events are told
/// apart and converted by the helpers above.
#[verifier::external_body]
fn convert_event(ev: Event<'_>) -> RenderEvent {
    match ev {
        Event::Start(t) => convert_start(t),
        Event::End(t) => convert_end(t),
        other => convert_leaf(other),
    }
}

/// Relies on `pulldown_cmark::Parser::new_ext`: it walks the source once
/// and yields its structural events in document order; the parser is a pure
/// function of the text and the options, and start and end events are
/// guaranteed to be balanced (documented on `pulldown_cmark::Event::Start`),
/// so in particular the style-opening starts and style-resetting ends
/// balance out.
#[verifier::external_body]
pub(crate) fn parse_events(
    src: &str,
    tables: bool,
    strikethrough: bool,
    tasklists: bool,
    footnotes: bool,
) -> (events: Vec<RenderEvent>)
    ensures
        events@ == events_of(src@, tables, strikethrough, tasklists, footnotes),
        styled_balanced(events@, 0),
{
    let mut options = Options::empty();
    if tables { options.insert(Options::ENABLE_TABLES); }
    if strikethrough { options.insert(Options::ENABLE_STRIKETHROUGH); }
    if tasklists { options.insert(Options::ENABLE_TASKLISTS); }
    if footnotes { options.insert(Options::ENABLE_FOOTNOTES); }
    let mut events = Vec::new();
    for ev in Parser::new_ext(src, options) {
        events.push(convert_event(ev));
    }
    events
}

/// Relies on `core::str::from_utf8`: it returns `Ok` exactly when the bytes
/// are valid UTF-8, and the returned slice is their decoding.
#[verifier::external_body]
pub(crate) fn utf8_to_str(bytes: &[u8]) -> (r: Option<&str>)
    ensures
        (r is Some) <==> valid_utf8(bytes@),
        r matches Some(s) ==> s@ == decode_utf8(bytes@),
{
    core::str::from_utf8(bytes).ok()
}

} // verus!
