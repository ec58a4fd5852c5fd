//! Laws of the rendering engine, stated and proved against the model in
//! `render`.
//!
//! The central one is reset completeness: a render of a balanced event
//! sequence leaves no style open at the end of the output. The scan
//! `dangling` counts the escape openings that are not followed by a style
//! reset; the law says the scan of a finished render finds none.

use vstd::prelude::*;

use crate::events::esc_free_events;
use crate::events::is_styled_end;
use crate::events::is_styled_start;
use crate::events::payload;
use crate::events::styled_balanced;
use crate::events::RenderEvent;
use crate::render::dec_str;
use crate::render::init_ctx;
use crate::render::item_indent;
use crate::render::item_marker;
use crate::render::render_from;
use crate::render::spaces;
use crate::render::step;
use crate::render::trailing_nl;
use crate::render::trim_newlines;
use crate::render::Colors;
use crate::render::RenderCtx;
use crate::settings::rendered;
use crate::settings::valid_color;
use crate::settings::with_code_color;
use crate::settings::with_heading_color;
use crate::settings::with_link_color;
use crate::settings::with_text_color;
use crate::settings::ParserView;

verus! {

/// The buffer ends with the style-reset escape sequence.
pub open spec fn ends_with_reset(s: Seq<char>) -> bool {
    &&& s.len() >= 4
    &&& s[s.len() - 4] == '\u{1b}'
    &&& s[s.len() - 3] == '['
    &&& s[s.len() - 2] == '0'
    &&& s[s.len() - 1] == 'm'
}

/// The number of escape openings after the last style reset: scanning from
/// the right, a style reset closes everything before it, and every other
/// occurrence of the escape character counts as an opening left dangling.
pub open spec fn dangling(s: Seq<char>) -> nat
    decreases s.len(),
{
    if s.len() == 0 {
        0
    } else if ends_with_reset(s) {
        0
    } else if s.last() == '\u{1b}' {
        dangling(s.drop_last()) + 1
    } else {
        dangling(s.drop_last())
    }
}

/// No escape character among the last three characters, so no style reset
/// can form across the boundary when more text is appended.
pub open spec fn clean(s: Seq<char>) -> bool {
    forall|i: int| 0 <= i < s.len() && i >= s.len() - 3 ==> s[i] != '\u{1b}'
}

/// A sequence without the escape character.
pub open spec fn esc_free(s: Seq<char>) -> bool {
    forall|i: int| 0 <= i < s.len() ==> s[i] != '\u{1b}'
}

/// Appending escape-free text neither opens nor closes a style.
proof fn lemma_dangling_esc_free(a: Seq<char>, b: Seq<char>)
    requires
        clean(a),
        esc_free(b),
    ensures
        dangling(a + b) == dangling(a),
        clean(a + b),
    decreases b.len(),
{
    if b.len() == 0 {
        assert(a + b =~= a);
    } else {
        let b2 = b.drop_last();
        assert(esc_free(b2));
        lemma_dangling_esc_free(a, b2);
        let s = a + b;
        assert(s.last() == b.last());
        assert(s.last() != '\u{1b}');
        assert(!ends_with_reset(s)) by {
            if s.len() >= 4 {
                let k = s.len() - 4;
                if k >= a.len() {
                    assert(s[k] == b[k - a.len()]);
                } else {
                    assert(s[k] == a[k]);
                }
            }
        }
        assert(s.drop_last() =~= a + b2);
        assert(dangling(s) == dangling(a + b2));
    }
}

/// A buffer ending with the style-reset sequence has nothing dangling.
proof fn lemma_ends_reset(s: Seq<char>)
    requires
        ends_with_reset(s),
    ensures
        dangling(s) == 0,
        clean(s),
{
}

/// A style reset followed by escape-free text closes everything.
proof fn lemma_reset_then(u: Seq<char>, t: Seq<char>)
    requires
        ends_with_reset(u),
        esc_free(t),
    ensures
        dangling(u + t) == 0,
        clean(u + t),
{
    lemma_ends_reset(u);
    lemma_dangling_esc_free(u, t);
}

/// Appending a chunk whose last three characters are not the escape
/// character leaves the buffer clean.
proof fn lemma_clean_tail(a: Seq<char>, b: Seq<char>)
    requires
        b.len() >= 3,
        b[b.len() - 1] != '\u{1b}',
        b[b.len() - 2] != '\u{1b}',
        b[b.len() - 3] != '\u{1b}',
    ensures
        clean(a + b),
{
    let s = a + b;
    assert forall|i: int| 0 <= i < s.len() && i >= s.len() - 3 implies s[i] != '\u{1b}' by {
        assert(s[i] == b[i - a.len()]);
    }
}

/// Appending a chunk that holds a style reset followed only by escape-free
/// text closes everything, whatever came before.
proof fn lemma_reset_mid(a: Seq<char>, b: Seq<char>, k: int)
    requires
        4 <= k <= b.len(),
        b[k - 4] == '\u{1b}',
        b[k - 3] == '[',
        b[k - 2] == '0',
        b[k - 1] == 'm',
        forall|i: int| k <= i < b.len() ==> b[i] != '\u{1b}',
    ensures
        dangling(a + b) == 0,
        clean(a + b),
{
    let s = a + b;
    let u = s.take(a.len() + k);
    let t = s.skip(a.len() + k);
    assert(s =~= u + t);
    assert(ends_with_reset(u)) by {
        assert(u[a.len() + k - 4] == b[k - 4]);
        assert(u[a.len() + k - 3] == b[k - 3]);
        assert(u[a.len() + k - 2] == b[k - 2]);
        assert(u[a.len() + k - 1] == b[k - 1]);
    }
    assert(esc_free(t)) by {
        assert forall|i: int| 0 <= i < t.len() implies t[i] != '\u{1b}' by {
            assert(t[i] == b[k + i]);
        }
    }
    lemma_reset_then(u, t);
}

/// An escape-free payload, from the event-level statement.
proof fn lemma_payload_esc_free(s: Seq<char>)
    requires
        !s.contains('\u{1b}'),
    ensures
        esc_free(s),
{
    assert forall|i: int| 0 <= i < s.len() implies s[i] != '\u{1b}' by {
        if s[i] == '\u{1b}' {
            assert(s.contains('\u{1b}'));
        }
    }
}

/// Indentation is escape-free.
proof fn lemma_spaces_esc_free(n: nat)
    ensures
        esc_free(spaces(n)),
    decreases n,
{
    if n > 0 {
        lemma_spaces_esc_free((n - 1) as nat);
    }
}

/// Decimal representations are escape-free.
proof fn lemma_dec_str_esc_free(n: nat)
    ensures
        esc_free(dec_str(n)),
    decreases n,
{
    if n >= 10 {
        lemma_dec_str_esc_free(n / 10);
    }
}

/// A colored style opening (`prefix`, then the color code, then `m`) ends
/// in three characters that are not the escape character.
proof fn lemma_colored_clean(a: Seq<char>, prefix: Seq<char>, color: Seq<char>)
    requires
        prefix.len() >= 1,
        prefix.last() != '\u{1b}',
        valid_color(color),
    ensures
        clean(a + (prefix + color + "m"@)),
{
    reveal_strlit("m");
    let b = prefix + color + "m"@;
    assert(b[b.len() - 1] == 'm');
    assert(b[b.len() - 2] == color.last());
    if color.len() >= 2 {
        assert(b[b.len() - 3] == color[color.len() - 2]);
    } else {
        assert(b[b.len() - 3] == prefix.last());
    }
    lemma_clean_tail(a, b);
}

/// Ensuring a leading or trailing newline neither opens nor closes a style.
proof fn lemma_ensure_nl(s: Seq<char>)
    requires
        clean(s),
    ensures
        dangling(crate::render::ensure_leading_nl(s)) == dangling(s),
        clean(crate::render::ensure_leading_nl(s)),
        dangling(crate::render::ensure_trailing_nl(s)) == dangling(s),
        clean(crate::render::ensure_trailing_nl(s)),
{
    reveal_strlit("\n");
    assert(esc_free("\n"@));
    lemma_dangling_esc_free(s, "\n"@);
}

/// One step of the induction behind reset completeness: processing one
/// event keeps the buffer clean, and anything left dangling is matched by a
/// style that is still open.
proof fn lemma_step_reset(cfg: Colors, st: RenderCtx, e: RenderEvent, depth: int)
    requires
        valid_color(cfg.heading),
        valid_color(cfg.code),
        valid_color(cfg.link),
        clean(st.out),
        dangling(st.out) > 0 ==> depth > 0,
        depth >= 0,
        is_styled_end(e) ==> depth >= 1,
        !payload(e).contains('\u{1b}'),
    ensures
        clean(step(cfg, st, e).out),
        dangling(step(cfg, st, e).out) > 0 ==> (if is_styled_start(e) {
            depth + 1
        } else if is_styled_end(e) {
            depth - 1
        } else {
            depth
        }) > 0,
{
    let st2 = step(cfg, st, e);
    lemma_ensure_nl(st.out);
    lemma_payload_esc_free(payload(e));
    match e {
        RenderEvent::HeadingStart { top_level } => {
            reveal_strlit("\x1b[1;38;5;");
            let open = "\x1b[1;38;5;"@ + cfg.heading + "m"@;
            if top_level {
                reveal_strlit("\x1b[4m");
                lemma_clean_tail(
                    crate::render::ensure_leading_nl(st.out) + open,
                    "\x1b[4m"@,
                );
                assert(st2.out =~= (crate::render::ensure_leading_nl(st.out) + open)
                    + "\x1b[4m"@);
            } else {
                lemma_colored_clean(
                    crate::render::ensure_leading_nl(st.out),
                    "\x1b[1;38;5;"@,
                    cfg.heading,
                );
                assert(st2.out =~= crate::render::ensure_leading_nl(st.out) + open);
            }
        },
        RenderEvent::HeadingEnd => {
            reveal_strlit("\x1b[0m\n\n");
            lemma_reset_mid(st.out, "\x1b[0m\n\n"@, 4);
        },
        RenderEvent::CodeBlockStart => {
            reveal_strlit("\x1b[48;5;236m\x1b[38;5;");
            lemma_colored_clean(
                crate::render::ensure_leading_nl(st.out),
                "\x1b[48;5;236m\x1b[38;5;"@,
                cfg.code,
            );
            assert(st2.out =~= crate::render::ensure_leading_nl(st.out) + (
            "\x1b[48;5;236m\x1b[38;5;"@ + cfg.code + "m"@));
        },
        RenderEvent::CodeBlockEnd => {
            reveal_strlit("\x1b[0m\n");
            lemma_reset_mid(crate::render::ensure_trailing_nl(st.out), "\x1b[0m\n"@, 4);
        },
        RenderEvent::EmphasisStart => {
            reveal_strlit("\x1b[3;38;5;204m");
            lemma_clean_tail(st.out, "\x1b[3;38;5;204m"@);
        },
        RenderEvent::StrongStart => {
            reveal_strlit("\x1b[1;38;5;203m");
            lemma_clean_tail(st.out, "\x1b[1;38;5;203m"@);
        },
        RenderEvent::LinkStart => {
            reveal_strlit("\x1b[4;38;5;");
            lemma_colored_clean(st.out, "\x1b[4;38;5;"@, cfg.link);
            assert(st2.out =~= st.out + ("\x1b[4;38;5;"@ + cfg.link + "m"@));
        },
        RenderEvent::EmphasisEnd | RenderEvent::StrongEnd | RenderEvent::LinkEnd
        | RenderEvent::StrikethroughEnd => {
            reveal_strlit("\x1b[0m");
            lemma_reset_mid(st.out, "\x1b[0m"@, 4);
        },
        RenderEvent::ListStart { .. } => {
        },
        RenderEvent::ListEnd => {
            reveal_strlit("\n");
            assert(esc_free("\n"@));
            lemma_dangling_esc_free(st.out, "\n"@);
        },
        RenderEvent::ItemStart => {
            let depth_l = st.lists.len();
            lemma_spaces_esc_free(if depth_l > 0 {
                (2 * (depth_l - 1)) as nat
            } else {
                0
            });
            lemma_dangling_esc_free(st.out, item_indent(depth_l));
            let base = st.out + item_indent(depth_l);
            if depth_l > 0 {
                if st.lists.last() {
                    reveal_strlit("\x1b[38;5;78m");
                    reveal_strlit(". \x1b[0m");
                    lemma_dec_str_esc_free(st.counters.last() as nat);
                    lemma_reset_mid(
                        base + "\x1b[38;5;78m"@ + dec_str(st.counters.last() as nat),
                        ". \x1b[0m"@,
                        6,
                    );
                    assert(st2.out =~= (base + "\x1b[38;5;78m"@ + dec_str(
                        st.counters.last() as nat,
                    )) + ". \x1b[0m"@);
                } else {
                    reveal_strlit("\x1b[38;5;78m\u{2022} \x1b[0m");
                    lemma_reset_mid(base, "\x1b[38;5;78m\u{2022} \x1b[0m"@, 16);
                }
            }
        },
        RenderEvent::ItemEnd => {
            reveal_strlit("\x1b[0m");
            lemma_reset_mid(crate::render::ensure_trailing_nl(st.out), "\x1b[0m"@, 4);
        },
        RenderEvent::BlockQuoteStart => {
            reveal_strlit("\x1b[3;38;5;245m\u{2502} ");
            lemma_clean_tail(
                crate::render::ensure_leading_nl(st.out),
                "\x1b[3;38;5;245m\u{2502} "@,
            );
        },
        RenderEvent::BlockQuoteEnd | RenderEvent::TableEnd => {
            reveal_strlit("\x1b[0m\n\n");
            lemma_reset_mid(st.out, "\x1b[0m\n\n"@, 4);
        },
        RenderEvent::TableStart => {
            reveal_strlit("\x1b[38;5;240m");
            lemma_clean_tail(st.out, "\x1b[38;5;240m"@);
        },
        RenderEvent::TableRowEnd => {
            reveal_strlit(" |\n");
            assert(esc_free(" |\n"@));
            lemma_dangling_esc_free(st.out, " |\n"@);
        },
        RenderEvent::TableCellStart => {
            reveal_strlit(" | ");
            assert(esc_free(" | "@));
            lemma_dangling_esc_free(st.out, " | "@);
        },
        RenderEvent::StrikethroughStart => {
            reveal_strlit("\x1b[9;38;5;240m");
            lemma_clean_tail(st.out, "\x1b[9;38;5;240m"@);
        },
        RenderEvent::ParagraphStart => {
        },
        RenderEvent::ParagraphEnd => {
            reveal_strlit("\n\n");
            reveal_strlit("\n");
            assert(esc_free("\n\n"@));
            assert(esc_free("\n"@));
            if st.lists.len() == 0 {
                lemma_dangling_esc_free(st.out, "\n\n"@);
            } else {
                lemma_dangling_esc_free(st.out, "\n"@);
            }
        },
        RenderEvent::Text { s } => {
            lemma_dangling_esc_free(st.out, s@);
        },
        RenderEvent::InlineCode { s } => {
            reveal_strlit("\x1b[0m");
            lemma_reset_mid(st.out + "\x1b[48;5;237m\x1b[38;5;220m"@ + s@, "\x1b[0m"@, 4);
            assert(st2.out =~= (st.out + "\x1b[48;5;237m\x1b[38;5;220m"@ + s@) + "\x1b[0m"@);
        },
        RenderEvent::SoftBreak | RenderEvent::HardBreak => {
            reveal_strlit("\n");
            reveal_strlit(" ");
            assert(esc_free("\n"@));
            assert(esc_free(" "@));
            if st.in_code || e is HardBreak {
                lemma_dangling_esc_free(st.out, "\n"@);
            } else {
                lemma_dangling_esc_free(st.out, " "@);
            }
        },
        RenderEvent::Rule => {
            reveal_strlit(
                "\n\u{2500}\u{2500}\u{2500}\u{2500}\u{2500}\u{2500}\u{2500}\u{2500}\u{2500}\u{2500}\u{2500}\u{2500}\u{2500}\u{2500}\u{2500}\u{2500}\u{2500}\u{2500}\u{2500}\u{2500}\n\n",
            );
            assert(esc_free(
                "\n\u{2500}\u{2500}\u{2500}\u{2500}\u{2500}\u{2500}\u{2500}\u{2500}\u{2500}\u{2500}\u{2500}\u{2500}\u{2500}\u{2500}\u{2500}\u{2500}\u{2500}\u{2500}\u{2500}\u{2500}\n\n"@,
            ));
            lemma_dangling_esc_free(
                st.out,
                "\n\u{2500}\u{2500}\u{2500}\u{2500}\u{2500}\u{2500}\u{2500}\u{2500}\u{2500}\u{2500}\u{2500}\u{2500}\u{2500}\u{2500}\u{2500}\u{2500}\u{2500}\u{2500}\u{2500}\u{2500}\n\n"@,
            );
        },
        RenderEvent::TaskMarker { checked } => {
            if checked {
                reveal_strlit("\x1b[38;5;78m[\u{2713}]\x1b[0m ");
                lemma_reset_mid(st.out, "\x1b[38;5;78m[\u{2713}]\x1b[0m "@, 17);
            } else {
                reveal_strlit("\x1b[38;5;240m[ ]\x1b[0m ");
                lemma_reset_mid(st.out, "\x1b[38;5;240m[ ]\x1b[0m "@, 18);
            }
        },
        RenderEvent::FootnoteRef => {
        },
        RenderEvent::Html { s } => {
            lemma_dangling_esc_free(st.out, s@);
        },
        RenderEvent::InlineHtml { s } => {
            lemma_dangling_esc_free(st.out, s@);
        },
        RenderEvent::InlineMath { s } => {
            reveal_strlit("$");
            assert(esc_free("$"@));
            lemma_dangling_esc_free(st.out, "$"@);
            lemma_dangling_esc_free(st.out + "$"@, s@);
            lemma_dangling_esc_free(st.out + "$"@ + s@, "$"@);
        },
        RenderEvent::DisplayMath { s } => {
            reveal_strlit("$$\n");
            reveal_strlit("\n$$");
            assert(esc_free("$$\n"@));
            assert(esc_free("\n$$"@));
            lemma_dangling_esc_free(st.out, "$$\n"@);
            lemma_dangling_esc_free(st.out + "$$\n"@, s@);
            lemma_dangling_esc_free(st.out + "$$\n"@ + s@, "\n$$"@);
        },
        RenderEvent::OtherStart => {
        },
        RenderEvent::OtherEnd => {
        },
    }
}

/// The induction behind reset completeness, from an arbitrary state: if
/// anything dangling in the buffer is matched by a style that the remaining
/// events still close, the finished buffer has nothing dangling.
proof fn lemma_reset_complete_from(
    cfg: Colors,
    st: RenderCtx,
    events: Seq<RenderEvent>,
    depth: int,
)
    requires
        styled_balanced(events, depth),
        esc_free_events(events),
        valid_color(cfg.heading),
        valid_color(cfg.code),
        valid_color(cfg.link),
        clean(st.out),
        dangling(st.out) > 0 ==> depth > 0,
        depth >= 0,
    ensures
        dangling(render_from(cfg, st, events).out) == 0,
    decreases events.len(),
{
    if events.len() == 0 {
    } else {
        let e = events[0];
        let depth2 = if is_styled_start(e) {
            depth + 1
        } else if is_styled_end(e) {
            depth - 1
        } else {
            depth
        };
        assert(!payload(e).contains('\u{1b}'));
        lemma_step_reset(cfg, st, e, depth);
        assert(esc_free_events(events.drop_first())) by {
            assert forall|i: int|
                0 <= i < events.drop_first().len() implies !payload(
                events.drop_first()[i],
            ).contains('\u{1b}') by {
                assert(events.drop_first()[i] == events[i + 1]);
            }
        }
        lemma_reset_complete_from(cfg, step(cfg, st, e), events.drop_first(), depth2);
    }
}

/// Removing characters from the trailing newline run does not change the
/// scan's result.
proof fn lemma_dangling_drop_nl(s: Seq<char>, k: nat)
    requires
        k <= trailing_nl(s),
    ensures
        dangling(s.take(s.len() - k)) == dangling(s),
    decreases k,
{
    crate::render::lemma_trailing_nl_props(s);
    if k == 0 {
        assert(s.take(s.len() - 0) =~= s);
    } else {
        lemma_dangling_drop_nl(s, (k - 1) as nat);
        let u = s.take(s.len() - (k - 1));
        assert(u.last() == s[s.len() - k]);
        assert(s[s.len() - k] == '\n');
        assert(!ends_with_reset(u));
        assert(u.drop_last() =~= s.take(s.len() - k));
        assert(dangling(u) == dangling(u.drop_last()));
    }
}

/// The post-processing pass keeps the scan's result.
proof fn lemma_dangling_trim(s: Seq<char>)
    ensures
        dangling(trim_newlines(s)) == dangling(s),
{
    let t = trailing_nl(s);
    if t >= 3 {
        lemma_dangling_drop_nl(s, (t - 2) as nat);
    }
}

/// Reset completeness: a render of a balanced event sequence whose
/// payloads carry no raw escape character leaves no style open. The scan
/// of the output, both before and after post-processing, finds no escape
/// opening without a style reset after it.
pub proof fn lemma_reset_completeness(cfg: Colors, events: Seq<RenderEvent>)
    requires
        styled_balanced(events, 0),
        esc_free_events(events),
        valid_color(cfg.heading),
        valid_color(cfg.code),
        valid_color(cfg.link),
    ensures
        dangling(render_from(cfg, init_ctx(), events).out) == 0,
        dangling(trim_newlines(render_from(cfg, init_ctx(), events).out)) == 0,
{
    assert(clean(init_ctx().out));
    assert(dangling(init_ctx().out) == 0);
    lemma_reset_complete_from(cfg, init_ctx(), events, 0);
    lemma_dangling_trim(render_from(cfg, init_ctx(), events).out);
}

/// The length of an indentation run.
proof fn lemma_spaces_len(n: nat)
    ensures
        spaces(n).len() == n,
    decreases n,
{
    if n > 0 {
        lemma_spaces_len((n - 1) as nat);
    }
}

/// Ordered-list counters restart at one: opening a list pushes a fresh
/// counter of one, whatever lists came before or beside it.
pub proof fn lemma_counter_restart(cfg: Colors, st: RenderCtx, ordered: bool)
    ensures
        step(cfg, st, RenderEvent::ListStart { ordered }).counters == st.counters.push(1u64),
        step(cfg, st, RenderEvent::ListStart { ordered }).counters.last() == 1u64,
{
}

/// Ordered-list counters increment monotonically: each item of an ordered
/// list prints the current counter and raises it by one (saturating at the
/// machine limit), touching no other list's counter.
pub proof fn lemma_counter_increment(cfg: Colors, st: RenderCtx)
    requires
        st.lists.len() > 0,
        st.lists.last(),
        st.counters.len() == st.lists.len(),
    ensures
        ({
            let st2 = step(cfg, st, RenderEvent::ItemStart);
            &&& st2.counters.last() == crate::render::inc_counter(st.counters.last())
            &&& st.counters.last() < u64::MAX ==> st2.counters.last() == st.counters.last() + 1
            &&& st2.counters.len() == st.counters.len()
            &&& forall|i: int|
                0 <= i < st.counters.len() - 1 ==> st2.counters[i] == st.counters[i]
            &&& st2.out == st.out + item_indent(st.lists.len()) + item_marker(
                true,
                st.counters.last(),
            )
        }),
{
}

/// Nested-list indentation: a list item at nesting depth `d` is indented by
/// exactly two spaces per level beyond the first, with its marker's escape
/// opening immediately after the indentation.
pub proof fn lemma_item_indentation(cfg: Colors, st: RenderCtx)
    requires
        st.lists.len() > 0,
    ensures
        ({
            let st2 = step(cfg, st, RenderEvent::ItemStart);
            let d = st.lists.len();
            &&& st2.out.subrange(
                st.out.len() as int,
                st.out.len() + 2 * (d - 1),
            ) == spaces((2 * (d - 1)) as nat)
            &&& st2.out[st.out.len() + 2 * (d - 1)] == '\u{1b}'
        }),
{
    let st2 = step(cfg, st, RenderEvent::ItemStart);
    let d = st.lists.len();
    let indent = item_indent(d);
    lemma_spaces_len((2 * (d - 1)) as nat);
    let marker = item_marker(st.lists.last(), st.counters.last());
    assert(st2.out == st.out + indent + marker);
    assert(st2.out.subrange(st.out.len() as int, st.out.len() + 2 * (d - 1)) =~= indent);
    if st.lists.last() {
        reveal_strlit("\x1b[38;5;78m");
        assert(marker[0] == '\u{1b}');
    } else {
        reveal_strlit("\x1b[38;5;78m\u{2022} \x1b[0m");
        assert(marker[0] == '\u{1b}');
    }
    assert(st2.out[st.out.len() + 2 * (d - 1)] == marker[0]);
}

/// Idempotent configuration: setting a color to the same value twice gives
/// the very configuration that setting it once gives, so any later render
/// produces identical output.
pub proof fn lemma_color_setter_idempotent(v: ParserView, c: Seq<char>, input: Seq<u8>)
    ensures
        with_heading_color(with_heading_color(v, c), c) == with_heading_color(v, c),
        with_code_color(with_code_color(v, c), c) == with_code_color(v, c),
        with_link_color(with_link_color(v, c), c) == with_link_color(v, c),
        with_text_color(with_text_color(v, c), c) == with_text_color(v, c),
        rendered(with_heading_color(with_heading_color(v, c), c), input) == rendered(
            with_heading_color(v, c),
            input,
        ),
{
    assert(with_heading_color(with_heading_color(v, c), c) =~= with_heading_color(v, c));
    assert(with_code_color(with_code_color(v, c), c) =~= with_code_color(v, c));
    assert(with_link_color(with_link_color(v, c), c) =~= with_link_color(v, c));
    assert(with_text_color(with_text_color(v, c), c) =~= with_text_color(v, c));
}

} // verus!

