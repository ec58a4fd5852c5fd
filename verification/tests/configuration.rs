use markdown_ansi::MarkdownParser;

#[test]
fn defaults_are_documented_values() {
    let p = MarkdownParser::new();
    assert!(!p.has_error());
    assert_eq!(p.get_error(), None);
    assert_eq!(p.heading_color, "86");
    assert_eq!(p.code_color, "252");
    assert_eq!(p.link_color, "39");
    assert_eq!(p.text_color, "255");
    assert!(p.gfm_enabled);
    assert!(p.table_enabled);
    assert!(p.strikethrough_enabled);
    assert!(p.tasklist_enabled);
}

#[test]
fn heading_color_is_interpolated() {
    let mut p = MarkdownParser::new();
    p.set_heading_color("123");
    let out = p.parse_to_ansi(b"# T").unwrap();
    assert_eq!(out, "\x1b[1;38;5;123m\x1b[4mT\x1b[0m\n\n");
}

#[test]
fn code_color_is_interpolated() {
    let mut p = MarkdownParser::new();
    p.set_code_color("17");
    let out = p.parse_to_ansi(b"```\nx\n```\n").unwrap();
    assert_eq!(out, "\x1b[48;5;236m\x1b[38;5;17mx\n\x1b[0m\n");
}

#[test]
fn link_color_is_interpolated() {
    let mut p = MarkdownParser::new();
    p.set_link_color("9");
    let out = p.parse_to_ansi(b"[x](http://example.com)").unwrap();
    assert_eq!(out, "\x1b[4;38;5;9mx\x1b[0m\n\n");
}

#[test]
fn setting_a_color_twice_renders_identically() {
    let mut once = MarkdownParser::new();
    once.set_heading_color("99");
    let mut twice = MarkdownParser::new();
    twice.set_heading_color("99");
    twice.set_heading_color("99");
    let a = once.parse_to_ansi(b"# T\n\n- x").unwrap();
    let b = twice.parse_to_ansi(b"# T\n\n- x").unwrap();
    assert_eq!(a, b);
}

#[test]
fn invalid_color_keeps_previous_value() {
    let mut p = MarkdownParser::new();
    p.set_heading_color("");
    assert_eq!(p.heading_color, "86");
    p.set_heading_color("abc");
    assert_eq!(p.heading_color, "86");
    p.set_heading_color("1234");
    assert_eq!(p.heading_color, "86");
    p.set_heading_color("7");
    assert_eq!(p.heading_color, "7");
    let out = p.parse_to_ansi(b"# T").unwrap();
    assert_eq!(out, "\x1b[1;38;5;7m\x1b[4mT\x1b[0m\n\n");
}

#[test]
fn invalid_utf8_reports_error_and_no_output() {
    let mut p = MarkdownParser::new();
    let r = p.parse_to_ansi(&[0xff, 0xfe, 0x20]);
    assert_eq!(r, None);
    assert!(p.has_error());
    let msg = p.get_error().unwrap();
    assert!(!msg.is_empty());
    assert_eq!(msg, "Invalid UTF-8 input");
}

#[test]
fn successful_render_clears_previous_error() {
    let mut p = MarkdownParser::new();
    assert_eq!(p.parse_to_ansi(&[0xc0]), None);
    assert!(p.has_error());
    let r = p.parse_to_ansi(b"ok");
    assert_eq!(r, Some(String::from("ok\n\n")));
    assert!(!p.has_error());
    assert_eq!(p.get_error(), None);
}

#[test]
fn result_or_error_never_both_absent() {
    let inputs: [&[u8]; 4] = [b"# x", b"", &[0xff], b"- [x] a"];
    for input in inputs.iter() {
        let mut p = MarkdownParser::new();
        let r = p.parse_to_ansi(input);
        match r {
            Some(_) => assert!(!p.has_error() && p.get_error().is_none()),
            None => {
                assert!(p.has_error());
                assert!(!p.get_error().unwrap().is_empty());
            }
        }
    }
}

#[test]
fn gfm_switch_disables_extensions() {
    let mut p = MarkdownParser::new();
    p.set_gfm_enabled(false);
    let out = p.parse_to_ansi(b"~~x~~").unwrap();
    assert_eq!(out, "~~x~~\n\n");
}

#[test]
fn strikethrough_switch_disables_strikethrough() {
    let mut p = MarkdownParser::new();
    p.set_strikethrough_enabled(false);
    let out = p.parse_to_ansi(b"~~x~~").unwrap();
    assert_eq!(out, "~~x~~\n\n");
}

#[test]
fn table_switch_disables_tables() {
    let mut p = MarkdownParser::new();
    p.set_table_enabled(false);
    let out = p.parse_to_ansi(b"| a |\n| - |").unwrap();
    assert!(!out.contains("\x1b[38;5;240m"), "got {:?}", out);
}

#[test]
fn tasklist_switch_disables_task_markers() {
    let mut p = MarkdownParser::new();
    p.set_tasklist_enabled(false);
    let out = p.parse_to_ansi(b"- [x] a").unwrap();
    assert!(!out.contains("\u{2713}"), "got {:?}", out);
    assert!(out.contains("[x] a"));
}
