//! The structural event stream that the renderer consumes.
//!
//! A Markdown document is modelled as a flat, ordered sequence of events:
//! start/end markers for nestable constructs and leaf events carrying
//! literal content. The event source guarantees that start and end events
//! are balanced and properly nested; the well-formedness predicates below
//! state the parts of that guarantee that the proofs rely on.

use vstd::prelude::*;

verus! {

/// One structural event of a parsed Markdown document.
///
/// String payloads carry literal content exactly as it appears in the
/// source (text, inline code, raw HTML, math).
pub enum RenderEvent {
    /// Start of a heading; `top_level` is true for a rank-one heading.
    HeadingStart { top_level: bool },
    HeadingEnd,
    CodeBlockStart,
    CodeBlockEnd,
    EmphasisStart,
    EmphasisEnd,
    StrongStart,
    StrongEnd,
    LinkStart,
    LinkEnd,
    /// Start of a list; `ordered` is true for a numbered list.
    ListStart { ordered: bool },
    ListEnd,
    ItemStart,
    ItemEnd,
    BlockQuoteStart,
    BlockQuoteEnd,
    TableStart,
    TableEnd,
    TableRowEnd,
    TableCellStart,
    StrikethroughStart,
    StrikethroughEnd,
    ParagraphStart,
    ParagraphEnd,
    Text { s: String },
    InlineCode { s: String },
    SoftBreak,
    HardBreak,
    Rule,
    TaskMarker { checked: bool },
    FootnoteRef,
    Html { s: String },
    InlineHtml { s: String },
    InlineMath { s: String },
    DisplayMath { s: String },
    /// Start of a construct the renderer ignores.
    OtherStart,
    /// End of a construct the renderer ignores.
    OtherEnd,
}

/// True for the start events whose rendering opens a style that stays open
/// until the matching end event emits a reset.
pub open spec fn is_styled_start(e: RenderEvent) -> bool {
    match e {
        RenderEvent::HeadingStart { .. } => true,
        RenderEvent::CodeBlockStart => true,
        RenderEvent::EmphasisStart => true,
        RenderEvent::StrongStart => true,
        RenderEvent::LinkStart => true,
        RenderEvent::BlockQuoteStart => true,
        RenderEvent::TableStart => true,
        RenderEvent::StrikethroughStart => true,
        _ => false,
    }
}

/// The end events matching `is_styled_start`; each emits a style reset.
pub open spec fn is_styled_end(e: RenderEvent) -> bool {
    match e {
        RenderEvent::HeadingEnd => true,
        RenderEvent::CodeBlockEnd => true,
        RenderEvent::EmphasisEnd => true,
        RenderEvent::StrongEnd => true,
        RenderEvent::LinkEnd => true,
        RenderEvent::BlockQuoteEnd => true,
        RenderEvent::TableEnd => true,
        RenderEvent::StrikethroughEnd => true,
        _ => false,
    }
}

/// The style-opening starts and style-resetting ends are balanced:
/// scanning left to right from nesting depth `depth`, the depth never goes
/// negative and returns to zero at the end of the sequence.
pub open spec fn styled_balanced(events: Seq<RenderEvent>, depth: int) -> bool
    decreases events.len(),
{
    if events.len() == 0 {
        depth == 0
    } else if is_styled_start(events[0]) {
        styled_balanced(events.drop_first(), depth + 1)
    } else if is_styled_end(events[0]) {
        depth >= 1 && styled_balanced(events.drop_first(), depth - 1)
    } else {
        styled_balanced(events.drop_first(), depth)
    }
}

/// The literal payload carried by a leaf event, or the empty sequence for
/// events without one.
pub open spec fn payload(e: RenderEvent) -> Seq<char> {
    match e {
        RenderEvent::Text { s } => s@,
        RenderEvent::InlineCode { s } => s@,
        RenderEvent::Html { s } => s@,
        RenderEvent::InlineHtml { s } => s@,
        RenderEvent::InlineMath { s } => s@,
        RenderEvent::DisplayMath { s } => s@,
        _ => Seq::<char>::empty(),
    }
}

/// No event payload contains the escape character, so every escape
/// sequence in the rendered output is one the renderer emitted itself.
pub open spec fn esc_free_events(events: Seq<RenderEvent>) -> bool {
    forall|i: int|
        0 <= i < events.len() ==> !payload(events[i]).contains('\u{1b}')
}

} // verus!
