use streamdown_render::code::{code_wrap, CodeHighlighter};

#[test]
fn test_code_wrap_short_line() {
    let (indent, lines) = code_wrap("let x = 1;", 80);
    assert_eq!(indent, 0);
    assert_eq!(lines.len(), 1);
    assert_eq!(lines[0], "let x = 1;");
}

#[test]
fn test_code_wrap_with_indent() {
    let (indent, lines) = code_wrap("    let x = 1;", 80);
    assert_eq!(indent, 4);
    assert_eq!(lines.len(), 1);
}

#[test]
fn test_code_wrap_long_line() {
    let long_line = "x".repeat(100);
    let (_, lines) = code_wrap(&long_line, 40);
    assert!(lines.len() > 1);
}

#[test]
fn test_code_wrap_empty() {
    let (indent, lines) = code_wrap("", 80);
    assert_eq!(indent, 0);
    assert_eq!(lines.len(), 1);
}

#[test]
fn test_code_wrap_indented_splits() {
    // the content splits into fixed-size chunks and the first chunk keeps
    // the original indent
    let (indent, lines) = code_wrap("    print(1)", 12);
    assert_eq!(indent, 4);
    assert_eq!(lines.len(), 2);
    assert_eq!(lines[0], "    prin");
    assert_eq!(lines[1], "t(1)");
}

#[test]
fn test_code_wrap_drops_trailing_blank_chunks() {
    // trailing all-whitespace chunks are dropped
    let (_, lines) = code_wrap("abcdef      ", 10);
    // width 10, indent 0, effective 6: chunks "abcdef", "      "
    assert_eq!(lines.len(), 1);
    assert_eq!(lines[0], "abcdef");
}

#[test]
fn test_render_code_line_shape() {
    let hl = CodeHighlighter::new();
    let lines = hl.render_code_line("let x = 1;", None, "", 80);
    assert_eq!(lines.len(), 1);
    assert!(lines[0].ends_with("\x1b[0m"));
}

#[test]
fn test_render_code_line_with_language() {
    let hl = CodeHighlighter::new();
    let lines = hl.render_code_line("print(1)", Some("python"), ">> ", 80);
    assert_eq!(lines.len(), 1);
    assert!(lines[0].starts_with(">> "));
    assert!(lines[0].ends_with("\x1b[0m"));
}
