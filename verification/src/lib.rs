//! Markdown to ANSI terminal rendering.
//!
//! The library turns Markdown source text into plain text interleaved with
//! ANSI escape sequences, suitable for display in a 256-color terminal.
//! Parsing of the Markdown grammar is delegated to `pulldown_cmark`; the
//! stateful walk over the parsed event stream, the styling, the spacing and
//! the error reporting are implemented and verified here.
//!
//! The configuration is honored throughout: the extension switches select
//! which constructs the event source recognizes, and the heading, code and
//! link colors are spliced into the emitted escape sequences. The text
//! color is stored for completeness, but plain text is deliberately left
//! unstyled, so no escape sequence uses it.

use vstd::prelude::*;

pub mod events;
pub mod laws;
pub mod parse;
pub mod render;
pub mod settings;

verus! {

pub use events::RenderEvent;
pub use settings::MarkdownParser;

} // verus!
