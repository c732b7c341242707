use streamdown_render::events::Event;
use streamdown_render::inline::InlinePiece;
use streamdown_render::list::Bullet;
use streamdown_render::renderer::Renderer;
use streamdown_render::style::TagStyler;

fn tag_renderer(width: usize) -> Renderer<TagStyler> {
    Renderer::with_theme(width, TagStyler)
}

#[test]
fn test_pending_reset_resumed_by_item() {
    // item, list end, blank line, item: the list survives and numbering
    // continues with 2
    let mut r = tag_renderer(80);
    let o1 = r.render_event(&Event::ListItem {
        indent: 0,
        bullet: Bullet::Ordered(1),
        content: "a".to_string(),
    });
    assert_eq!(o1, "1. a\n");
    assert_eq!(r.render_event(&Event::ListEnd), "");
    assert_eq!(r.render_event(&Event::EmptyLine), "\n");
    let o2 = r.render_event(&Event::ListItem {
        indent: 0,
        bullet: Bullet::Ordered(1),
        content: "b".to_string(),
    });
    assert_eq!(o2, "2. b\n");
}

#[test]
fn test_pending_reset_forced_by_other_event() {
    // item, list end, heading, item: the heading resets the list and
    // numbering restarts at 1
    let mut r = tag_renderer(80);
    let o1 = r.render_event(&Event::ListItem {
        indent: 0,
        bullet: Bullet::Ordered(9),
        content: "a".to_string(),
    });
    assert_eq!(o1, "1. a\n");
    assert_eq!(r.render_event(&Event::ListEnd), "");
    let h = r.render_event(&Event::Heading { level: 2, content: "title".to_string() });
    assert_eq!(h, "title\n");
    let o2 = r.render_event(&Event::ListItem {
        indent: 0,
        bullet: Bullet::Ordered(9),
        content: "b".to_string(),
    });
    assert_eq!(o2, "1. b\n");
}

#[test]
fn test_inline_events_write_styled_text() {
    let mut r = tag_renderer(80);
    assert_eq!(r.render_event(&Event::Bold("b".to_string())), "<b>b</b>");
    assert_eq!(r.render_event(&Event::Italic("i".to_string())), "<i>i</i>");
    assert_eq!(r.render_event(&Event::InlineCode("c".to_string())), "<code>c</code>");
    assert_eq!(r.render_event(&Event::Text("t&amp;".to_string())), "t&");
    assert_eq!(
        r.render_event(&Event::Link { text: "l".to_string(), url: "u".to_string() }),
        "<a href=\"u\">l</a>"
    );
}

#[test]
fn test_table_events_buffer_until_end() {
    let mut r = tag_renderer(80);
    assert_eq!(
        r.render_event(&Event::TableHeader(vec!["A".to_string(), "BB".to_string()])),
        ""
    );
    assert_eq!(r.render_event(&Event::TableSeparator), "");
    assert_eq!(
        r.render_event(&Event::TableRow(vec!["C".to_string(), "D".to_string()])),
        ""
    );
    let out = r.render_event(&Event::TableEnd);
    let lines: Vec<&str> = out.lines().collect();
    assert_eq!(lines.len(), 5);
    assert_eq!(lines[0], "\u{250c}\u{2500}\u{2500}\u{2500}\u{252c}\u{2500}\u{2500}\u{2500}\u{2500}\u{2510}");
    assert_eq!(lines[1], "\u{2502} A \u{2502} BB \u{2502}");
    assert_eq!(lines[3], "\u{2502} C \u{2502} D  \u{2502}");
    // an immediately following table end has nothing buffered
    assert_eq!(r.render_event(&Event::TableEnd), "");
}

#[test]
fn test_blockquote_margin_and_width() {
    let mut r = tag_renderer(10);
    assert_eq!(r.render_event(&Event::BlockquoteStart { depth: 2 }), "");
    // margin is one bar and one space per level; width shrinks by three
    // columns per level
    let out = r.render_event(&Event::BlockquoteLine("aa bb".to_string()));
    assert_eq!(out, "\u{2502} \u{2502} aa\n\u{2502} \u{2502} bb\n");
    assert_eq!(r.render_event(&Event::BlockquoteEnd), "");
    let after = r.render_event(&Event::BlockquoteLine("aa".to_string()));
    assert_eq!(after, "aa\n");
}

#[test]
fn test_horizontal_rule_spans_width() {
    let mut r = tag_renderer(6);
    assert_eq!(r.render_event(&Event::HorizontalRule), format!("{}\n", "\u{2500}".repeat(6)));
}

#[test]
fn test_think_block_frame() {
    let mut r = tag_renderer(80);
    assert_eq!(
        r.render_event(&Event::ThinkBlockStart),
        "\u{250c}\u{2500} thinking \u{2500}\n"
    );
    assert_eq!(
        r.render_event(&Event::ThinkBlockLine("hm".to_string())),
        "\u{2502} hm\n"
    );
    assert_eq!(r.render_event(&Event::ThinkBlockEnd), "\u{2514}\n");
}

#[test]
fn test_code_block_lines_render_immediately() {
    let mut r = tag_renderer(80);
    assert_eq!(
        r.render_event(&Event::CodeBlockStart { language: None, indent: 0 }),
        ""
    );
    let out = r.render_event(&Event::CodeBlockLine("let x = 1;".to_string()));
    assert_eq!(out.lines().count(), 1);
    assert!(out.ends_with("\x1b[0m\n"));
    assert_eq!(r.render_event(&Event::CodeBlockEnd), "");
}

#[test]
fn test_newline_events() {
    let mut r = tag_renderer(80);
    assert_eq!(r.render_event(&Event::EmptyLine), "\n");
    assert_eq!(r.render_event(&Event::Newline), "\n");
}

#[test]
fn test_theme_swap() {
    let mut r = tag_renderer(80);
    r.set_theme(TagStyler);
    let _ = r.theme();
    assert_eq!(r.render_event(&Event::Prompt(">".to_string())), ">");
}

#[test]
fn test_remaining_inline_branches() {
    let mut r = tag_renderer(80);
    assert_eq!(r.render_event(&Event::BoldItalic("x".to_string())), "<b><i>x</i></b>");
    assert_eq!(r.render_event(&Event::Underline("u".to_string())), "<u>u</u>");
    assert_eq!(r.render_event(&Event::Strikeout("s".to_string())), "<s>s</s>");
    assert_eq!(
        r.render_event(&Event::Image { alt: "a".to_string(), url: "u".to_string() }),
        "<img alt=\"a\" src=\"u\"/>"
    );
    assert_eq!(r.render_event(&Event::Footnote("9".to_string())), "<footnote>9</footnote>");
}

#[test]
fn test_inline_elements_run() {
    let mut r = tag_renderer(80);
    let out = r.render_event(&Event::InlineElements(vec![
        InlinePiece::Text("a ".to_string()),
        InlinePiece::Bold("b".to_string()),
        InlinePiece::Code("c".to_string()),
    ]));
    assert_eq!(out, "a <b>b</b><code>c</code>");
}

#[test]
fn test_code_block_language_is_tracked() {
    let mut r = tag_renderer(80);
    assert_eq!(
        r.render_event(&Event::CodeBlockStart {
            language: Some("python".to_string()),
            indent: 0,
        }),
        ""
    );
    let out = r.render_event(&Event::CodeBlockLine("print(1)".to_string()));
    assert!(out.ends_with("\x1b[0m\n"));
    assert_eq!(r.render_event(&Event::CodeBlockEnd), "");
}

#[test]
fn test_nested_list_through_renderer() {
    let mut r = tag_renderer(80);
    let o1 = r.render_event(&Event::ListItem {
        indent: 0,
        bullet: Bullet::Dash,
        content: "top".to_string(),
    });
    assert_eq!(o1, "\u{2022} top\n");
    let o2 = r.render_event(&Event::ListItem {
        indent: 2,
        bullet: Bullet::Dash,
        content: "inner".to_string(),
    });
    assert_eq!(o2, "    \u{25e6} inner\n");
}
