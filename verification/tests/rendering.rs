use markdown_ansi::MarkdownParser;

fn render(source: &str) -> String {
    let mut p = MarkdownParser::new();
    let r = p.parse_to_ansi(source.as_bytes());
    assert!(!p.has_error());
    r.expect("render should succeed")
}

#[test]
fn top_level_heading_is_bold_colored_underlined() {
    let out = render("# Title");
    assert_eq!(out, "\x1b[1;38;5;86m\x1b[4mTitle\x1b[0m\n\n");
    assert!(out.starts_with("\x1b[1;38;5;86m\x1b[4m"));
    assert!(out.contains("Title"));
    assert!(out.ends_with("\x1b[0m\n\n"));
}

#[test]
fn lower_heading_has_no_underline() {
    let out = render("## Sub");
    assert_eq!(out, "\x1b[1;38;5;86mSub\x1b[0m\n\n");
}

#[test]
fn unordered_list_two_items() {
    let out = render("- a\n- b");
    assert_eq!(
        out,
        "\x1b[38;5;78m\u{2022} \x1b[0ma\n\x1b[0m\x1b[38;5;78m\u{2022} \x1b[0mb\n\x1b[0m\n"
    );
}

#[test]
fn ordered_list_counts_up() {
    let out = render("1. a\n2. b");
    assert_eq!(
        out,
        "\x1b[38;5;78m1. \x1b[0ma\n\x1b[0m\x1b[38;5;78m2. \x1b[0mb\n\x1b[0m\n"
    );
}

#[test]
fn ordered_list_counter_restarts_at_one() {
    let out = render("1. a\n\nx\n\n1. b\n2. c");
    assert_eq!(
        out,
        "\x1b[38;5;78m1. \x1b[0ma\n\x1b[0m\nx\n\n\x1b[38;5;78m1. \x1b[0mb\n\x1b[0m\x1b[38;5;78m2. \x1b[0mc\n\x1b[0m\n"
    );
}

#[test]
fn ordered_list_ignores_start_number() {
    let out = render("3. a");
    assert_eq!(out, "\x1b[38;5;78m1. \x1b[0ma\n\x1b[0m\n");
}

#[test]
fn ordered_list_reaches_two_digit_counters() {
    let src = "1. a\n2. a\n3. a\n4. a\n5. a\n6. a\n7. a\n8. a\n9. a\n10. a\n11. a\n12. a";
    let out = render(src);
    assert!(out.contains("\x1b[38;5;78m9. \x1b[0m"));
    assert!(out.contains("\x1b[38;5;78m10. \x1b[0m"));
    assert!(out.contains("\x1b[38;5;78m12. \x1b[0m"));
    assert!(!out.contains("13. "));
}

#[test]
fn nested_list_indents_two_spaces_per_level() {
    let out = render("- a\n  - b");
    assert_eq!(
        out,
        "\x1b[38;5;78m\u{2022} \x1b[0ma\n  \x1b[38;5;78m\u{2022} \x1b[0mb\n\x1b[0m\n\x1b[0m\n"
    );
}

#[test]
fn emphasis_and_strong_open_and_reset() {
    let out = render("**bold** *it*");
    assert_eq!(
        out,
        "\x1b[1;38;5;203mbold\x1b[0m \x1b[3;38;5;204mit\x1b[0m\n\n"
    );
}

#[test]
fn inline_code_is_one_styled_unit() {
    let out = render("`code`");
    assert_eq!(out, "\x1b[48;5;237m\x1b[38;5;220mcode\x1b[0m\n\n");
}

#[test]
fn link_text_is_underlined_in_link_color() {
    let out = render("[x](http://example.com)");
    assert_eq!(out, "\x1b[4;38;5;39mx\x1b[0m\n\n");
}

#[test]
fn strikethrough_opens_and_resets() {
    let out = render("~~gone~~");
    assert_eq!(out, "\x1b[9;38;5;240mgone\x1b[0m\n\n");
}

#[test]
fn code_block_keeps_newlines_and_closes() {
    let out = render("```\nlet x = 1;\n```\n");
    assert_eq!(out, "\x1b[48;5;236m\x1b[38;5;252mlet x = 1;\n\x1b[0m\n");
}

#[test]
fn blockquote_is_italic_gray_with_bar() {
    let out = render("> q");
    assert_eq!(out, "\x1b[3;38;5;245m\u{2502} \nq\n\n\x1b[0m\n\n");
}

#[test]
fn horizontal_rule_is_twenty_dashes() {
    let out = render("---");
    assert_eq!(
        out,
        "\n\u{2500}\u{2500}\u{2500}\u{2500}\u{2500}\u{2500}\u{2500}\u{2500}\u{2500}\u{2500}\u{2500}\u{2500}\u{2500}\u{2500}\u{2500}\u{2500}\u{2500}\u{2500}\u{2500}\u{2500}\n\n"
    );
}

#[test]
fn task_list_markers() {
    let out = render("- [x] done\n- [ ] todo");
    assert_eq!(
        out,
        "\x1b[38;5;78m\u{2022} \x1b[0m\x1b[38;5;78m[\u{2713}]\x1b[0m done\n\x1b[0m\x1b[38;5;78m\u{2022} \x1b[0m\x1b[38;5;240m[ ]\x1b[0m todo\n\x1b[0m\n"
    );
}

#[test]
fn soft_break_becomes_space() {
    let out = render("a\nb");
    assert_eq!(out, "a b\n\n");
}

#[test]
fn hard_break_becomes_newline() {
    let out = render("a  \nb");
    assert_eq!(out, "a\nb\n\n");
}

#[test]
fn table_cells_and_rows() {
    let out = render("| a | b |\n| - | - |\n| c | d |");
    assert_eq!(out, "\x1b[38;5;240m | a | b | c | d |\n\x1b[0m\n\n");
}

#[test]
fn empty_input_renders_empty() {
    let mut p = MarkdownParser::new();
    let r = p.parse_to_ansi(b"");
    assert_eq!(r, Some(String::new()));
    assert!(!p.has_error());
}

#[test]
fn paragraphs_separated_by_blank_lines() {
    let out = render("a\n\nb");
    assert_eq!(out, "a\n\nb\n\n");
}

#[test]
fn trailing_newlines_collapse_to_two() {
    let out = render("<script>\na\n\n\n\n");
    assert!(out.ends_with("a\n\n"), "got {:?}", out);
    assert!(!out.ends_with("\n\n\n"));
}

#[test]
fn no_output_ends_with_three_newlines() {
    let inputs = ["# h\n\n\n\n", "a\n\n\n\nb\n\n\n", "- a\n\n\n", "<p>\nx\n\n\n\n\n"];
    for src in inputs.iter() {
        let mut p = MarkdownParser::new();
        let out = p.parse_to_ansi(src.as_bytes()).unwrap();
        assert!(!out.ends_with("\n\n\n"), "input {:?} gave {:?}", src, out);
    }
}

#[test]
fn every_escape_opening_is_reset_before_the_end() {
    let inputs = [
        "# h\n**b** *i* [l](http://x) `c`\n> q\n\n- a\n  - [x] b\n\n~~s~~\n\n| a |\n| - |\n| b |",
        "1. one\n2. two\n\n```\ncode\n```\n",
    ];
    for src in inputs.iter() {
        let mut p = MarkdownParser::new();
        let out = p.parse_to_ansi(src.as_bytes()).unwrap();
        let bytes = out.as_bytes();
        let mut open = 0u32;
        let mut i = 0;
        while i < bytes.len() {
            if bytes[i] == 0x1b {
                if i + 3 < bytes.len() && bytes[i + 1] == b'[' && bytes[i + 2] == b'0'
                    && bytes[i + 3] == b'm'
                {
                    open = 0;
                    i += 4;
                    continue;
                }
                open += 1;
            }
            i += 1;
        }
        assert_eq!(open, 0, "dangling style in {:?}", out);
    }
}

#[test]
fn html_passes_through_unstyled() {
    let out = render("a <b>x</b> c");
    assert_eq!(out, "a <b>x</b> c\n\n");
}

#[test]
fn footnote_reference_produces_no_output() {
    let out = render("a[^1]\n\n[^1]: n");
    assert_eq!(out, "a\n\nn\n\n");
}

#[test]
fn image_tag_is_ignored_but_alt_text_kept() {
    let out = render("![alt](http://example.com/i.png)");
    assert_eq!(out, "alt\n\n");
}
