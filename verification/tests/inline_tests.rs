use streamdown_render::inline::render_inline_content;
use streamdown_render::style::TagStyler;

fn render(content: &str) -> String {
    render_inline_content(content, &TagStyler)
}

#[test]
fn test_plain_text() {
    assert_eq!(render("hello world"), "hello world");
}

#[test]
fn test_html_entities() {
    assert_eq!(render("&amp; &lt; &gt; &quot;"), "& < > \"");
}

#[test]
fn test_bold() {
    assert_eq!(render("**bold**"), "<b>bold</b>");
}

#[test]
fn test_italic() {
    assert_eq!(render("*italic*"), "<i>italic</i>");
}

#[test]
fn test_bold_italic() {
    assert_eq!(render("***text***"), "<b><i>text</i></b>");
}

#[test]
fn test_strikethrough() {
    assert_eq!(render("~~struck~~"), "<s>struck</s>");
}

#[test]
fn test_code() {
    assert_eq!(render("`code`"), "<code>code</code>");
}

#[test]
fn test_underline() {
    assert_eq!(render("__underline__"), "<u>underline</u>");
}

#[test]
fn test_link() {
    assert_eq!(
        render("[click](https://example.com)"),
        "<a href=\"https://example.com\">click</a>"
    );
}

#[test]
fn test_image() {
    assert_eq!(render("![alt](image.png)"), "<img alt=\"alt\" src=\"image.png\"/>");
}

#[test]
fn test_mixed() {
    assert_eq!(
        render("hello **bold** and *italic*"),
        "hello <b>bold</b> and <i>italic</i>"
    );
}

#[test]
fn test_multiple_bold() {
    assert_eq!(render("**one** and **two**"), "<b>one</b> and <b>two</b>");
}

#[test]
fn test_entities_in_bold() {
    assert_eq!(render("**&amp;**"), "<b>&</b>");
}

#[test]
fn test_entities_in_link() {
    assert_eq!(
        render("[&lt;click&gt;](https://example.com)"),
        "<a href=\"https://example.com\"><click></a>"
    );
}

#[test]
fn test_code_content() {
    assert_eq!(render("`let x = 1;`"), "<code>let x = 1;</code>");
}

#[test]
fn test_link_special_url() {
    assert_eq!(
        render("[link](https://example.com/path?q=1&b=2)"),
        "<a href=\"https://example.com/path?q=1&b=2\">link</a>"
    );
}

#[test]
fn test_empty() {
    assert_eq!(render(""), "");
}

#[test]
fn test_whitespace() {
    assert_eq!(render("hello   world"), "hello   world");
}

#[test]
fn test_image_empty_alt() {
    assert_eq!(render("![](image.png)"), "<img alt=\"\" src=\"image.png\"/>");
}

// the end-to-end inline scenario: bold and italic through the ANSI theme,
// with the escape sequences stripped away, leave exactly the plain words
#[test]
fn test_ansi_render_strips_to_plain() {
    let styled = render_inline_content(
        "**bold** and *italic*",
        &streamdown_render::style::AnsiStyler,
    );
    let mut plain = String::new();
    let mut in_esc = false;
    for c in styled.chars() {
        if in_esc {
            if c == 'm' {
                in_esc = false;
            }
        } else if c == '\u{1b}' {
            in_esc = true;
        } else {
            plain.push(c);
        }
    }
    assert_eq!(plain, "bold and italic");
}
