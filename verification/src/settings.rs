//! The mutable configuration object and the render entry point.
//!
//! A `MarkdownParser` holds the color codes spliced into the emitted escape
//! sequences, the extension switches handed to the event source, and the
//! error message of the most recent render. `parse_to_ansi` is the render
//! entry point: it is all-or-nothing, and it reports failure both through
//! its return value and through the error field, which the next render
//! clears.

use vstd::prelude::*;
use vstd::utf8::decode_utf8;
use vstd::utf8::valid_utf8;

use crate::events::RenderEvent;
use crate::parse::events_of;
use crate::parse::parse_events;
use crate::parse::utf8_to_str;
use crate::render::contains_nul;
use crate::render::init_ctx;
use crate::render::render_events;
use crate::render::render_from;
use crate::render::trailing_nl;
use crate::render::trim_newlines;
use crate::render::trim_trailing;
use crate::render::Colors;
use crate::render::lemma_trim_bound;

verus! {

/// The renderer's configuration and last-error state.
///
/// The four color fields hold 256-color terminal color codes (one to three
/// decimal digits); they are never empty. The text color is stored for
/// completeness but is not spliced into any escape sequence: plain text is
/// deliberately left unstyled.
pub struct MarkdownParser {
    pub error_message: Option<String>,
    pub gfm_enabled: bool,
    pub table_enabled: bool,
    pub strikethrough_enabled: bool,
    pub tasklist_enabled: bool,
    pub heading_color: String,
    pub code_color: String,
    pub link_color: String,
    pub text_color: String,
}

/// The mathematical view of a `MarkdownParser`.
#[verifier::ext_equal]
pub struct ParserView {
    pub error_message: Option<Seq<char>>,
    pub gfm_enabled: bool,
    pub table_enabled: bool,
    pub strikethrough_enabled: bool,
    pub tasklist_enabled: bool,
    pub heading_color: Seq<char>,
    pub code_color: Seq<char>,
    pub link_color: Seq<char>,
    pub text_color: Seq<char>,
}

impl View for MarkdownParser {
    type V = ParserView;

    open spec fn view(&self) -> ParserView {
        ParserView {
            error_message: match self.error_message {
                Some(m) => Some(m@),
                None => None,
            },
            gfm_enabled: self.gfm_enabled,
            table_enabled: self.table_enabled,
            strikethrough_enabled: self.strikethrough_enabled,
            tasklist_enabled: self.tasklist_enabled,
            heading_color: self.heading_color@,
            code_color: self.code_color@,
            link_color: self.link_color@,
            text_color: self.text_color@,
        }
    }
}

/// A valid terminal color code: one to three decimal digits.
pub open spec fn valid_color(s: Seq<char>) -> bool {
    &&& 1 <= s.len() <= 3
    &&& forall|i: int| 0 <= i < s.len() ==> 48 <= #[trigger] (s[i] as int) <= 57
}

/// A parser whose color fields all hold valid color codes; established by
/// the constructor and preserved by every setter.
pub open spec fn wf(v: ParserView) -> bool {
    &&& valid_color(v.heading_color)
    &&& valid_color(v.code_color)
    &&& valid_color(v.link_color)
    &&& valid_color(v.text_color)
}

/// The configuration with defaults: all extensions on, cyan headings,
/// light-gray code, blue links, white text, no error.
pub open spec fn default_view() -> ParserView {
    ParserView {
        error_message: None,
        gfm_enabled: true,
        table_enabled: true,
        strikethrough_enabled: true,
        tasklist_enabled: true,
        heading_color: "86"@,
        code_color: "252"@,
        link_color: "39"@,
        text_color: "255"@,
    }
}

/// The effect of a color setter: the field is replaced when the new value
/// is a valid color code and kept otherwise.
pub open spec fn set_color_spec(prior: Seq<char>, c: Seq<char>) -> Seq<char> {
    if valid_color(c) {
        c
    } else {
        prior
    }
}

pub open spec fn with_heading_color(v: ParserView, c: Seq<char>) -> ParserView {
    ParserView { heading_color: set_color_spec(v.heading_color, c), ..v }
}

pub open spec fn with_code_color(v: ParserView, c: Seq<char>) -> ParserView {
    ParserView { code_color: set_color_spec(v.code_color, c), ..v }
}

pub open spec fn with_link_color(v: ParserView, c: Seq<char>) -> ParserView {
    ParserView { link_color: set_color_spec(v.link_color, c), ..v }
}

pub open spec fn with_text_color(v: ParserView, c: Seq<char>) -> ParserView {
    ParserView { text_color: set_color_spec(v.text_color, c), ..v }
}

/// The colors a render under this configuration splices into the output.
pub open spec fn render_cfg(v: ParserView) -> Colors {
    Colors { heading: v.heading_color, code: v.code_color, link: v.link_color }
}

/// The event sequence a render under this configuration consumes: the GFM
/// switch is the master switch for the extensions, each of which also has
/// its own switch; footnotes follow the GFM switch alone.
pub open spec fn source_events(v: ParserView, src: Seq<char>) -> Seq<RenderEvent> {
    events_of(
        src,
        v.gfm_enabled && v.table_enabled,
        v.gfm_enabled && v.strikethrough_enabled,
        v.gfm_enabled && v.tasklist_enabled,
        v.gfm_enabled,
    )
}

/// The result of a render under configuration `v` on the given input
/// bytes: `None` exactly when the input is not valid UTF-8 or the produced
/// buffer holds an embedded terminator character.
pub open spec fn rendered(v: ParserView, input: Seq<u8>) -> Option<Seq<char>> {
    if !valid_utf8(input) {
        None
    } else {
        let out = trim_newlines(
            render_from(render_cfg(v), init_ctx(), source_events(v, decode_utf8(input))).out,
        );
        if out.contains('\u{0}') {
            None
        } else {
            Some(out)
        }
    }
}

/// Whether every character of `s` is a decimal digit and the length is
/// that of a color code.
fn color_ok(s: &str) -> (b: bool)
    ensures
        b == valid_color(s@),
{
    let n = s.unicode_len();
    if n < 1 || n > 3 {
        return false;
    }
    let mut i: usize = 0;
    while i < n
        invariant
            i <= n,
            n == s@.len(),
            forall|k: int| 0 <= k < i ==> 48 <= #[trigger] (s@[k] as int) <= 57,
        decreases n - i,
    {
        let c = s.get_char(i);
        let u = c as u32;
        if u < 48 || u > 57 {
            return false;
        }
        i += 1;
    }
    true
}

/// Replace a color field when the new value is a valid color code; keep the
/// prior value otherwise, so the field never becomes empty.
fn set_color(field: &mut String, color: &str)
    ensures
        final(field)@ == set_color_spec(old(field)@, color@),
{
    if color_ok(color) {
        *field = String::from_str(color);
    }
}

impl MarkdownParser {
    /// A parser with the documented defaults.
    pub fn new() -> (p: MarkdownParser)
        ensures
            p@ == default_view(),
            wf(p@),
    {
        let p = MarkdownParser {
            error_message: None,
            gfm_enabled: true,
            table_enabled: true,
            strikethrough_enabled: true,
            tasklist_enabled: true,
            heading_color: String::from_str("86"),
            code_color: String::from_str("252"),
            link_color: String::from_str("39"),
            text_color: String::from_str("255"),
        };
        proof {
            reveal_strlit("86");
            reveal_strlit("252");
            reveal_strlit("39");
            reveal_strlit("255");
            assert(p@ =~= default_view());
        }
        p
    }

    /// Whether the most recent render left an error.
    pub fn has_error(&self) -> (b: bool)
        ensures
            b == (self@.error_message is Some),
    {
        match &self.error_message {
            Some(_) => true,
            None => false,
        }
    }

    /// The message of the most recent render error, if there was one.
    pub fn get_error(&self) -> (r: Option<String>)
        ensures
            (r is Some) == (self@.error_message is Some),
            r matches Some(m) ==> self@.error_message == Some(m@),
    {
        match &self.error_message {
            Some(m) => Some(m.clone()),
            None => None,
        }
    }

    pub fn set_gfm_enabled(&mut self, enabled: bool)
        ensures
            final(self)@ == (ParserView { gfm_enabled: enabled, ..old(self)@ }),
    {
        self.gfm_enabled = enabled;
    }

    pub fn set_table_enabled(&mut self, enabled: bool)
        ensures
            final(self)@ == (ParserView { table_enabled: enabled, ..old(self)@ }),
    {
        self.table_enabled = enabled;
    }

    pub fn set_strikethrough_enabled(&mut self, enabled: bool)
        ensures
            final(self)@ == (ParserView { strikethrough_enabled: enabled, ..old(self)@ }),
    {
        self.strikethrough_enabled = enabled;
    }

    pub fn set_tasklist_enabled(&mut self, enabled: bool)
        ensures
            final(self)@ == (ParserView { tasklist_enabled: enabled, ..old(self)@ }),
    {
        self.tasklist_enabled = enabled;
    }

    pub fn set_heading_color(&mut self, color: &str)
        ensures
            final(self)@ == with_heading_color(old(self)@, color@),
            wf(old(self)@) ==> wf(final(self)@),
    {
        set_color(&mut self.heading_color, color);
    }

    pub fn set_code_color(&mut self, color: &str)
        ensures
            final(self)@ == with_code_color(old(self)@, color@),
            wf(old(self)@) ==> wf(final(self)@),
    {
        set_color(&mut self.code_color, color);
    }

    pub fn set_link_color(&mut self, color: &str)
        ensures
            final(self)@ == with_link_color(old(self)@, color@),
            wf(old(self)@) ==> wf(final(self)@),
    {
        set_color(&mut self.link_color, color);
    }

    pub fn set_text_color(&mut self, color: &str)
        ensures
            final(self)@ == with_text_color(old(self)@, color@),
            wf(old(self)@) ==> wf(final(self)@),
    {
        set_color(&mut self.text_color, color);
    }

    /// Render Markdown input bytes to ANSI-styled text.
    ///
    /// All-or-nothing: either a complete styled string is returned and the
    /// error field is clear, or nothing is returned and the error field
    /// carries a non-empty message until the next render clears it.
    pub fn parse_to_ansi(&mut self, input: &[u8]) -> (r: Option<String>)
        ensures
            final(self)@ == (ParserView {
                error_message: final(self)@.error_message,
                ..old(self)@
            }),
            (r is Some) <==> (rendered(old(self)@, input@) is Some),
            r matches Some(s) ==> Some(s@) == rendered(old(self)@, input@),
            (r is Some) <==> (final(self)@.error_message is None),
            final(self)@.error_message matches Some(m) ==> m.len() > 0,
            r matches Some(s) ==> trailing_nl(s@) <= 2,
            !valid_utf8(input@) ==> final(self)@.error_message == Some("Invalid UTF-8 input"@),
            valid_utf8(input@) && rendered(old(self)@, input@) is None ==> final(self)@.error_message
                == Some("Failed to create result string"@),
    {
        self.error_message = None;
        match utf8_to_str(input) {
            None => {
                self.error_message = Some(String::from_str("Invalid UTF-8 input"));
                proof {
                    reveal_strlit("Invalid UTF-8 input");
                }
                None
            },
            Some(text) => {
                let tables = self.gfm_enabled && self.table_enabled;
                let strikethrough = self.gfm_enabled && self.strikethrough_enabled;
                let tasklists = self.gfm_enabled && self.tasklist_enabled;
                let events = parse_events(text, tables, strikethrough, tasklists, self.gfm_enabled);
                let raw = render_events(
                    &events,
                    &self.heading_color,
                    &self.code_color,
                    &self.link_color,
                );
                let out = trim_trailing(&raw);
                proof {
                    lemma_trim_bound(raw@);
                }
                if contains_nul(out.as_str()) {
                    self.error_message = Some(String::from_str("Failed to create result string"));
                    proof {
                        reveal_strlit("Failed to create result string");
                    }
                    None
                } else {
                    Some(out)
                }
            },
        }
    }
}

} // verus!
