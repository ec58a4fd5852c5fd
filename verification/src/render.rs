//! The event-to-ANSI rendering engine.
//!
//! The meaning of a render is fixed by a small mathematical model: a context
//! (`RenderCtx`) holding the output so far and the nesting state, a
//! transition function (`step`) giving the effect of one event, and a fold
//! (`render_from`) over the event sequence. The executable renderer
//! (`render_events`) is proved to compute exactly that fold, and the
//! post-processing pass (`trim_trailing`) is proved to collapse runs of
//! three or more trailing newlines down to exactly two.

use vstd::prelude::*;

use crate::events::RenderEvent;

verus! {

/// The color codes spliced into the emitted escape sequences.
pub struct Colors {
    pub heading: Seq<char>,
    pub code: Seq<char>,
    pub link: Seq<char>,
}

/// The renderer's state: the output accumulated so far, one stack entry per
/// open list (`true` = ordered) with the parallel stack of next item
/// numbers, and whether the walk is inside a code block.
#[verifier::ext_equal]
pub struct RenderCtx {
    pub out: Seq<char>,
    pub lists: Seq<bool>,
    pub counters: Seq<u64>,
    pub in_code: bool,
}

/// The state at the start of a render: empty output, no open lists.
pub open spec fn init_ctx() -> RenderCtx {
    RenderCtx { out: Seq::empty(), lists: Seq::empty(), counters: Seq::empty(), in_code: false }
}

pub open spec fn with_out(st: RenderCtx, out: Seq<char>) -> RenderCtx {
    RenderCtx { out, ..st }
}

/// Append a newline only if the buffer is non-empty and does not already
/// end with one (used before block constructs).
pub open spec fn ensure_leading_nl(s: Seq<char>) -> Seq<char> {
    if s.len() > 0 && s.last() != '\n' {
        s + "\n"@
    } else {
        s
    }
}

/// Append a newline unless the buffer already ends with one; an empty
/// buffer gets a newline (used after code blocks and list items).
pub open spec fn ensure_trailing_nl(s: Seq<char>) -> Seq<char> {
    if s.len() > 0 && s.last() == '\n' {
        s
    } else {
        s + "\n"@
    }
}

/// `n` spaces.
pub open spec fn spaces(n: nat) -> Seq<char>
    decreases n,
{
    if n == 0 {
        Seq::empty()
    } else {
        spaces((n - 1) as nat).push(' ')
    }
}

/// The decimal digit `d` as a character.
pub open spec fn digit_char(d: nat) -> char {
    if d == 0 { '0' }
    else if d == 1 { '1' }
    else if d == 2 { '2' }
    else if d == 3 { '3' }
    else if d == 4 { '4' }
    else if d == 5 { '5' }
    else if d == 6 { '6' }
    else if d == 7 { '7' }
    else if d == 8 { '8' }
    else { '9' }
}

/// The decimal representation of `n`, most significant digit first.
pub open spec fn dec_str(n: nat) -> Seq<char>
    decreases n,
{
    if n < 10 {
        seq![digit_char(n)]
    } else {
        dec_str(n / 10).push(digit_char(n % 10))
    }
}

/// The next value of an ordered-list counter: increment, saturating at the
/// machine limit.
pub open spec fn inc_counter(c: u64) -> u64 {
    if c < u64::MAX {
        (c + 1) as u64
    } else {
        c
    }
}

/// The escape sequence that opens heading styling: bold in the heading
/// color.
pub open spec fn heading_open(color: Seq<char>) -> Seq<char> {
    "\x1b[1;38;5;"@ + color + "m"@
}

/// The escape sequence that opens code-block styling: dark background, the
/// code color as foreground.
pub open spec fn code_block_open(color: Seq<char>) -> Seq<char> {
    "\x1b[48;5;236m\x1b[38;5;"@ + color + "m"@
}

/// The escape sequence that opens link styling: underlined in the link
/// color.
pub open spec fn link_open(color: Seq<char>) -> Seq<char> {
    "\x1b[4;38;5;"@ + color + "m"@
}

/// The marker of one list item: colored `"{n}. "` for an ordered list,
/// colored bullet for an unordered one.
pub open spec fn item_marker(ordered: bool, counter: u64) -> Seq<char> {
    if ordered {
        "\x1b[38;5;78m"@ + dec_str(counter as nat) + ". \x1b[0m"@
    } else {
        "\x1b[38;5;78m\u{2022} \x1b[0m"@
    }
}

/// The indentation of a list item at nesting depth `depth`: two spaces per
/// level beyond the first.
pub open spec fn item_indent(depth: nat) -> Seq<char> {
    if depth > 0 {
        spaces(2 * (depth - 1) as nat)
    } else {
        Seq::empty()
    }
}

/// The effect of one event on the renderer's state. This is the authority
/// for what each event emits and how it moves the nesting state.
pub open spec fn step(cfg: Colors, st: RenderCtx, e: RenderEvent) -> RenderCtx {
    match e {
        RenderEvent::HeadingStart { top_level } => with_out(
            st,
            ensure_leading_nl(st.out) + heading_open(cfg.heading) + (if top_level {
                "\x1b[4m"@
            } else {
                Seq::<char>::empty()
            }),
        ),
        RenderEvent::HeadingEnd => with_out(st, st.out + "\x1b[0m\n\n"@),
        RenderEvent::CodeBlockStart => RenderCtx {
            out: ensure_leading_nl(st.out) + code_block_open(cfg.code),
            in_code: true,
            ..st
        },
        RenderEvent::CodeBlockEnd => RenderCtx {
            out: ensure_trailing_nl(st.out) + "\x1b[0m\n"@,
            in_code: false,
            ..st
        },
        RenderEvent::EmphasisStart => with_out(st, st.out + "\x1b[3;38;5;204m"@),
        RenderEvent::EmphasisEnd => with_out(st, st.out + "\x1b[0m"@),
        RenderEvent::StrongStart => with_out(st, st.out + "\x1b[1;38;5;203m"@),
        RenderEvent::StrongEnd => with_out(st, st.out + "\x1b[0m"@),
        RenderEvent::LinkStart => with_out(st, st.out + link_open(cfg.link)),
        RenderEvent::LinkEnd => with_out(st, st.out + "\x1b[0m"@),
        RenderEvent::ListStart { ordered } => RenderCtx {
            out: ensure_leading_nl(st.out),
            lists: st.lists.push(ordered),
            counters: st.counters.push(1),
            in_code: st.in_code,
        },
        RenderEvent::ListEnd => {
            let lists = if st.lists.len() > 0 { st.lists.drop_last() } else { st.lists };
            let counters = if st.counters.len() > 0 { st.counters.drop_last() } else { st.counters };
            RenderCtx {
                out: if lists.len() == 0 { st.out + "\n"@ } else { st.out },
                lists,
                counters,
                in_code: st.in_code,
            }
        },
        RenderEvent::ItemStart => {
            let base = st.out + item_indent(st.lists.len());
            if st.lists.len() > 0 {
                if st.lists.last() {
                    RenderCtx {
                        out: base + item_marker(true, st.counters.last()),
                        counters: st.counters.update(
                            st.counters.len() - 1,
                            inc_counter(st.counters.last()),
                        ),
                        ..st
                    }
                } else {
                    with_out(st, base + item_marker(false, 0))
                }
            } else {
                with_out(st, base)
            }
        },
        RenderEvent::ItemEnd => with_out(st, ensure_trailing_nl(st.out) + "\x1b[0m"@),
        RenderEvent::BlockQuoteStart => with_out(
            st,
            ensure_leading_nl(st.out) + "\x1b[3;38;5;245m\u{2502} "@,
        ),
        RenderEvent::BlockQuoteEnd => with_out(st, st.out + "\x1b[0m\n\n"@),
        RenderEvent::TableStart => with_out(st, st.out + "\x1b[38;5;240m"@),
        RenderEvent::TableEnd => with_out(st, st.out + "\x1b[0m\n\n"@),
        RenderEvent::TableRowEnd => with_out(st, st.out + " |\n"@),
        RenderEvent::TableCellStart => with_out(st, st.out + " | "@),
        RenderEvent::StrikethroughStart => with_out(st, st.out + "\x1b[9;38;5;240m"@),
        RenderEvent::StrikethroughEnd => with_out(st, st.out + "\x1b[0m"@),
        RenderEvent::ParagraphStart => with_out(
            st,
            if st.lists.len() == 0 { ensure_leading_nl(st.out) } else { st.out },
        ),
        RenderEvent::ParagraphEnd => with_out(
            st,
            st.out + (if st.lists.len() == 0 { "\n\n"@ } else { "\n"@ }),
        ),
        RenderEvent::Text { s } => with_out(st, st.out + s@),
        RenderEvent::InlineCode { s } => with_out(
            st,
            st.out + "\x1b[48;5;237m\x1b[38;5;220m"@ + s@ + "\x1b[0m"@,
        ),
        RenderEvent::SoftBreak => with_out(
            st,
            st.out + (if st.in_code { "\n"@ } else { " "@ }),
        ),
        RenderEvent::HardBreak => with_out(st, st.out + "\n"@),
        RenderEvent::Rule => with_out(
            st,
            st.out + "\n\u{2500}\u{2500}\u{2500}\u{2500}\u{2500}\u{2500}\u{2500}\u{2500}\u{2500}\u{2500}\u{2500}\u{2500}\u{2500}\u{2500}\u{2500}\u{2500}\u{2500}\u{2500}\u{2500}\u{2500}\n\n"@,
        ),
        RenderEvent::TaskMarker { checked } => with_out(
            st,
            st.out + (if checked {
                "\x1b[38;5;78m[\u{2713}]\x1b[0m "@
            } else {
                "\x1b[38;5;240m[ ]\x1b[0m "@
            }),
        ),
        RenderEvent::FootnoteRef => st,
        RenderEvent::Html { s } => with_out(st, st.out + s@),
        RenderEvent::InlineHtml { s } => with_out(st, st.out + s@),
        RenderEvent::InlineMath { s } => with_out(st, st.out + "$"@ + s@ + "$"@),
        RenderEvent::DisplayMath { s } => with_out(st, st.out + "$$\n"@ + s@ + "\n$$"@),
        RenderEvent::OtherStart => st,
        RenderEvent::OtherEnd => st,
    }
}

/// The fold of `step` over an event sequence, starting from `st`.
pub open spec fn render_from(cfg: Colors, st: RenderCtx, events: Seq<RenderEvent>) -> RenderCtx
    decreases events.len(),
{
    if events.len() == 0 {
        st
    } else {
        render_from(cfg, step(cfg, st, events[0]), events.drop_first())
    }
}

/// Folding one more event at the end of the sequence applies `step` once to
/// the fold of the prefix.
pub proof fn lemma_render_from_snoc(
    cfg: Colors,
    st: RenderCtx,
    events: Seq<RenderEvent>,
    e: RenderEvent,
)
    ensures
        render_from(cfg, st, events.push(e)) == step(cfg, render_from(cfg, st, events), e),
    decreases events.len(),
{
    if events.len() == 0 {
        assert(events.push(e)[0] == e);
        assert(events.push(e).drop_first() =~= Seq::<RenderEvent>::empty());
        assert(render_from(cfg, st, events.push(e)) == render_from(
            cfg,
            step(cfg, st, e),
            Seq::<RenderEvent>::empty(),
        ));
        assert(render_from(cfg, st, events) == st);
    } else {
        assert(events.push(e)[0] == events[0]);
        assert(events.push(e).drop_first() =~= events.drop_first().push(e));
        assert(render_from(cfg, st, events.push(e)) == render_from(
            cfg,
            step(cfg, st, events[0]),
            events.drop_first().push(e),
        ));
        lemma_render_from_snoc(cfg, step(cfg, st, events[0]), events.drop_first(), e);
        assert(render_from(cfg, st, events) == render_from(
            cfg,
            step(cfg, st, events[0]),
            events.drop_first(),
        ));
    }
}

/// The number of newline characters at the end of the buffer.
pub open spec fn trailing_nl(s: Seq<char>) -> nat
    decreases s.len(),
{
    if s.len() > 0 && s.last() == '\n' {
        1 + trailing_nl(s.drop_last())
    } else {
        0
    }
}

/// The post-processing pass: a run of three or more trailing newlines is
/// collapsed to exactly two; anything shorter is kept as it is.
pub open spec fn trim_newlines(s: Seq<char>) -> Seq<char> {
    if trailing_nl(s) >= 3 {
        s.take(s.len() - (trailing_nl(s) - 2))
    } else {
        s
    }
}

/// `trailing_nl` counts exactly the maximal run of newlines at the end.
pub proof fn lemma_trailing_nl_count(s: Seq<char>, t: nat)
    requires
        t <= s.len(),
        forall|k: int| s.len() - t <= k < s.len() ==> s[k] == '\n',
        t < s.len() ==> s[s.len() - t - 1] != '\n',
    ensures
        trailing_nl(s) == t,
    decreases t,
{
    if t == 0 {
    } else {
        assert(s.last() == '\n');
        lemma_trailing_nl_count(s.drop_last(), (t - 1) as nat);
    }
}

/// The characters counted by `trailing_nl` are newlines, and the character
/// just before them (if any) is not.
pub proof fn lemma_trailing_nl_props(s: Seq<char>)
    ensures
        trailing_nl(s) <= s.len(),
        forall|k: int| s.len() - trailing_nl(s) <= k < s.len() ==> s[k] == '\n',
        trailing_nl(s) < s.len() ==> s[s.len() - trailing_nl(s) - 1] != '\n',
    decreases s.len(),
{
    if s.len() > 0 && s.last() == '\n' {
        lemma_trailing_nl_props(s.drop_last());
        assert forall|k: int| s.len() - trailing_nl(s) <= k < s.len() implies s[k] == '\n' by {
            if k < s.len() - 1 {
                assert(s.drop_last()[k] == s[k]);
            }
        }
    }
}

/// After the post-processing pass at most two newlines remain at the end of
/// the output.
pub proof fn lemma_trim_bound(s: Seq<char>)
    ensures
        trailing_nl(trim_newlines(s)) <= 2,
{
    lemma_trailing_nl_props(s);
    let t = trailing_nl(s);
    if t >= 3 {
        let r = s.take(s.len() - (t - 2));
        assert forall|k: int| r.len() - 2 <= k < r.len() implies r[k] == '\n' by {
            assert(r[k] == s[k]);
        }
        if 2 < r.len() {
            assert(r[r.len() - 3] == s[s.len() - t - 1]);
        }
        lemma_trailing_nl_count(r, 2);
    }
}

/// Append a newline to `out` unless it is empty or already ends with one.
fn push_leading_nl(out: &mut String)
    ensures
        final(out)@ == ensure_leading_nl(old(out)@),
{
    let n = out.as_str().unicode_len();
    if n > 0 {
        let c = out.as_str().get_char(n - 1);
        if c != '\n' {
            out.append("\n");
        }
    }
}

/// Append a newline to `out` unless it already ends with one; an empty
/// buffer gets one.
fn push_trailing_nl(out: &mut String)
    ensures
        final(out)@ == ensure_trailing_nl(old(out)@),
{
    let n = out.as_str().unicode_len();
    if n == 0 {
        out.append("\n");
    } else {
        let c = out.as_str().get_char(n - 1);
        if c != '\n' {
            out.append("\n");
        }
    }
}

/// Append the single decimal digit `d`.
fn push_digit(out: &mut String, d: u64)
    requires
        d < 10,
    ensures
        final(out)@ == old(out)@ + seq![digit_char(d as nat)],
{
    match d {
        0 => out.append("0"),
        1 => out.append("1"),
        2 => out.append("2"),
        3 => out.append("3"),
        4 => out.append("4"),
        5 => out.append("5"),
        6 => out.append("6"),
        7 => out.append("7"),
        8 => out.append("8"),
        _ => out.append("9"),
    }
    proof {
        reveal_strlit("0");
        reveal_strlit("1");
        reveal_strlit("2");
        reveal_strlit("3");
        reveal_strlit("4");
        reveal_strlit("5");
        reveal_strlit("6");
        reveal_strlit("7");
        reveal_strlit("8");
        reveal_strlit("9");
        assert(out@ =~= old(out)@ + seq![digit_char(d as nat)]);
    }
}

/// Append the decimal representation of `n`.
fn push_dec(out: &mut String, n: u64)
    ensures
        final(out)@ == old(out)@ + dec_str(n as nat),
    decreases n,
{
    if n < 10 {
        push_digit(out, n);
    } else {
        push_dec(out, n / 10);
        push_digit(out, n % 10);
        proof {
            assert(out@ =~= old(out)@ + dec_str(n as nat));
        }
    }
}

/// Two more spaces extend an indentation run by one level.
proof fn lemma_spaces_two(n: nat)
    ensures
        spaces(n + 2) == spaces(n) + "  "@,
{
    reveal_strlit("  ");
    assert(spaces(n + 1) == spaces(n).push(' '));
    assert(spaces(n + 2) == spaces(n + 1).push(' '));
    assert(spaces(n + 2) =~= spaces(n) + "  "@);
}

/// The configuration built from the three color strings.
pub open spec fn cfg_of(heading: Seq<char>, code: Seq<char>, link: Seq<char>) -> Colors {
    Colors { heading, code, link }
}

/// Walk the event sequence once, left to right, and build the styled
/// output. The result is exactly the fold of `step` over the events,
/// starting from the empty context.
pub fn render_events(
    events: &Vec<RenderEvent>,
    heading_color: &String,
    code_color: &String,
    link_color: &String,
) -> (out: String)
    ensures
        out@ == render_from(
            (cfg_of(heading_color@, code_color@, link_color@)),
            init_ctx(),
            events@,
        ).out,
{
    let ghost cfg = cfg_of(heading_color@, code_color@, link_color@);
    let mut out = String::new();
    let mut lists: Vec<bool> = Vec::new();
    let mut counters: Vec<u64> = Vec::new();
    let mut in_code = false;
    let mut i: usize = 0;
    proof {
        assert(events@.take(0) =~= Seq::<RenderEvent>::empty());
    }
    while i < events.len()
        invariant
            i <= events@.len(),
            lists@.len() == counters@.len(),
            ({
                let c = render_from(cfg, init_ctx(), events@.take(i as int));
                out@ == c.out && lists@ == c.lists && counters@ == c.counters && in_code
                    == c.in_code
            }),
            cfg == cfg_of(heading_color@, code_color@, link_color@),
        decreases events@.len() - i,
    {
        let ghost pre = render_from(cfg, init_ctx(), events@.take(i as int));
        let ghost ev_g = events@[i as int];
        proof {
            lemma_render_from_snoc(cfg, init_ctx(), events@.take(i as int), ev_g);
            assert(events@.take(i as int).push(ev_g) =~= events@.take(i as int + 1));
        }
        let ghost post = step(cfg, pre, ev_g);
        match &events[i] {
            RenderEvent::HeadingStart { top_level } => {
                push_leading_nl(&mut out);
                out.append("\x1b[1;38;5;");
                out.append(heading_color.as_str());
                out.append("m");
                if *top_level {
                    out.append("\x1b[4m");
                }
                proof {
                    assert(out@ =~= post.out);
                }
            },
            RenderEvent::HeadingEnd => {
                out.append("\x1b[0m\n\n");
            },
            RenderEvent::CodeBlockStart => {
                in_code = true;
                push_leading_nl(&mut out);
                out.append("\x1b[48;5;236m\x1b[38;5;");
                out.append(code_color.as_str());
                out.append("m");
                proof {
                    assert(out@ =~= post.out);
                }
            },
            RenderEvent::CodeBlockEnd => {
                in_code = false;
                push_trailing_nl(&mut out);
                out.append("\x1b[0m\n");
            },
            RenderEvent::EmphasisStart => {
                out.append("\x1b[3;38;5;204m");
            },
            RenderEvent::EmphasisEnd => {
                out.append("\x1b[0m");
            },
            RenderEvent::StrongStart => {
                out.append("\x1b[1;38;5;203m");
            },
            RenderEvent::StrongEnd => {
                out.append("\x1b[0m");
            },
            RenderEvent::LinkStart => {
                out.append("\x1b[4;38;5;");
                out.append(link_color.as_str());
                out.append("m");
                proof {
                    assert(out@ =~= post.out);
                }
            },
            RenderEvent::LinkEnd => {
                out.append("\x1b[0m");
            },
            RenderEvent::ListStart { ordered } => {
                push_leading_nl(&mut out);
                lists.push(*ordered);
                counters.push(1);
            },
            RenderEvent::ListEnd => {
                if lists.len() > 0 {
                    let _ = lists.pop();
                    let _ = counters.pop();
                }
                if lists.len() == 0 {
                    out.append("\n");
                }
                proof {
                    assert(lists@ =~= post.lists);
                    assert(counters@ =~= post.counters);
                }
            },
            RenderEvent::ItemStart => {
                let depth = lists.len();
                if depth > 1 {
                    let mut j: usize = 0;
                    while j < depth - 1
                        invariant
                            j <= depth - 1,
                            out@ == pre.out + spaces(2 * j as nat),
                        decreases depth - 1 - j,
                    {
                        out.append("  ");
                        proof {
                            lemma_spaces_two(2 * j as nat);
                            assert(out@ =~= pre.out + spaces(2 * (j + 1) as nat));
                        }
                        j += 1;
                    }
                }
                proof {
                    assert(out@ =~= pre.out + item_indent(pre.lists.len()));
                }
                if depth > 0 {
                    if lists[depth - 1] {
                        let c = counters[depth - 1];
                        out.append("\x1b[38;5;78m");
                        push_dec(&mut out, c);
                        out.append(". \x1b[0m");
                        let c2 = if c < u64::MAX {
                            c + 1
                        } else {
                            c
                        };
                        counters.set(depth - 1, c2);
                        proof {
                            assert(out@ =~= post.out);
                            assert(counters@ =~= post.counters);
                        }
                    } else {
                        out.append("\x1b[38;5;78m\u{2022} \x1b[0m");
                        proof {
                            assert(out@ =~= post.out);
                        }
                    }
                }
            },
            RenderEvent::ItemEnd => {
                push_trailing_nl(&mut out);
                out.append("\x1b[0m");
            },
            RenderEvent::BlockQuoteStart => {
                push_leading_nl(&mut out);
                out.append("\x1b[3;38;5;245m\u{2502} ");
            },
            RenderEvent::BlockQuoteEnd => {
                out.append("\x1b[0m\n\n");
            },
            RenderEvent::TableStart => {
                out.append("\x1b[38;5;240m");
            },
            RenderEvent::TableEnd => {
                out.append("\x1b[0m\n\n");
            },
            RenderEvent::TableRowEnd => {
                out.append(" |\n");
            },
            RenderEvent::TableCellStart => {
                out.append(" | ");
            },
            RenderEvent::StrikethroughStart => {
                out.append("\x1b[9;38;5;240m");
            },
            RenderEvent::StrikethroughEnd => {
                out.append("\x1b[0m");
            },
            RenderEvent::ParagraphStart => {
                if lists.len() == 0 {
                    push_leading_nl(&mut out);
                }
            },
            RenderEvent::ParagraphEnd => {
                if lists.len() == 0 {
                    out.append("\n\n");
                } else {
                    out.append("\n");
                }
            },
            RenderEvent::Text { s } => {
                out.append(s.as_str());
            },
            RenderEvent::InlineCode { s } => {
                out.append("\x1b[48;5;237m\x1b[38;5;220m");
                out.append(s.as_str());
                out.append("\x1b[0m");
                proof {
                    assert(out@ =~= post.out);
                }
            },
            RenderEvent::SoftBreak => {
                if in_code {
                    out.append("\n");
                } else {
                    out.append(" ");
                }
            },
            RenderEvent::HardBreak => {
                out.append("\n");
            },
            RenderEvent::Rule => {
                out.append(
                    "\n\u{2500}\u{2500}\u{2500}\u{2500}\u{2500}\u{2500}\u{2500}\u{2500}\u{2500}\u{2500}\u{2500}\u{2500}\u{2500}\u{2500}\u{2500}\u{2500}\u{2500}\u{2500}\u{2500}\u{2500}\n\n",
                );
            },
            RenderEvent::TaskMarker { checked } => {
                if *checked {
                    out.append("\x1b[38;5;78m[\u{2713}]\x1b[0m ");
                } else {
                    out.append("\x1b[38;5;240m[ ]\x1b[0m ");
                }
            },
            RenderEvent::FootnoteRef => {},
            RenderEvent::Html { s } => {
                out.append(s.as_str());
            },
            RenderEvent::InlineHtml { s } => {
                out.append(s.as_str());
            },
            RenderEvent::InlineMath { s } => {
                out.append("$");
                out.append(s.as_str());
                out.append("$");
                proof {
                    assert(out@ =~= post.out);
                }
            },
            RenderEvent::DisplayMath { s } => {
                out.append("$$\n");
                out.append(s.as_str());
                out.append("\n$$");
                proof {
                    assert(out@ =~= post.out);
                }
            },
            RenderEvent::OtherStart => {},
            RenderEvent::OtherEnd => {},
        }
        i += 1;
    }
    proof {
        assert(events@.take(events@.len() as int) =~= events@);
    }
    out
}

/// Whether the buffer holds an embedded terminator character, which the
/// output representation forbids.
pub fn contains_nul(s: &str) -> (b: bool)
    ensures
        b == s@.contains('\u{0}'),
{
    let n = s.unicode_len();
    let mut i: usize = 0;
    let mut found = false;
    while i < n
        invariant
            i <= n,
            n == s@.len(),
            found ==> s@.contains('\u{0}'),
            !found ==> forall|k: int| 0 <= k < i ==> s@[k] != '\u{0}',
        decreases n - i,
    {
        if s.get_char(i) == '\u{0}' {
            found = true;
        }
        i += 1;
    }
    if !found {
        assert(!s@.contains('\u{0}'));
    }
    found
}

/// The post-processing pass over the accumulated buffer: collapse three or
/// more trailing newlines to exactly two.
pub fn trim_trailing(out: &String) -> (r: String)
    ensures
        r@ == trim_newlines(out@),
{
    let n = out.as_str().unicode_len();
    let mut t: usize = 0;
    while t < n && out.as_str().get_char(n - 1 - t) == '\n'
        invariant
            t <= n,
            n == out@.len(),
            forall|k: int| n - t <= k < n ==> out@[k] == '\n',
        decreases n - t,
    {
        t += 1;
    }
    proof {
        lemma_trailing_nl_count(out@, t as nat);
    }
    if t >= 3 {
        let keep = n - (t - 2);
        let sub = out.as_str().substring_char(0, keep);
        let r = String::from_str(sub);
        proof {
            assert(r@ =~= trim_newlines(out@));
        }
        r
    } else {
        out.clone()
    }
}

} // verus!
