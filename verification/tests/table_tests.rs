use streamdown_render::style::TagStyler;
use streamdown_render::table::render_table;

fn rows(data: &[&[&str]]) -> Vec<Vec<String>> {
    data.iter().map(|r| r.iter().map(|c| c.to_string()).collect()).collect()
}

#[test]
fn test_table_two_by_two() {
    // top border, header, separator, body, bottom border with the
    // box-drawing glyphs and column widths 1 and 2
    let lines = render_table(&rows(&[&["A", "BB"], &["C", "D"]]), "", &TagStyler, 80);
    assert_eq!(lines.len(), 5);
    assert_eq!(lines[0], "\u{250c}\u{2500}\u{2500}\u{2500}\u{252c}\u{2500}\u{2500}\u{2500}\u{2500}\u{2510}");
    assert_eq!(lines[1], "\u{2502} A \u{2502} BB \u{2502}");
    assert_eq!(lines[2], "\u{251c}\u{2500}\u{2500}\u{2500}\u{253c}\u{2500}\u{2500}\u{2500}\u{2500}\u{2524}");
    assert_eq!(lines[3], "\u{2502} C \u{2502} D  \u{2502}");
    assert_eq!(lines[4], "\u{2514}\u{2500}\u{2500}\u{2500}\u{2534}\u{2500}\u{2500}\u{2500}\u{2500}\u{2518}");
}

#[test]
fn test_table_border_count_per_row() {
    // border glyph count per content row equals column count + 1
    let lines = render_table(&rows(&[&["A", "BB", "CCC"], &["a", "b", "c"]]), "", &TagStyler, 80);
    let row_line = &lines[1];
    assert_eq!(row_line.chars().filter(|c| *c == '\u{2502}').count(), 4);
    let body_line = &lines[3];
    assert_eq!(body_line.chars().filter(|c| *c == '\u{2502}').count(), 4);
}

#[test]
fn test_table_empty_rows_render_nothing() {
    let lines = render_table(&rows(&[]), "", &TagStyler, 80);
    assert_eq!(lines.len(), 0);
}

#[test]
fn test_table_shrink_floor() {
    // both columns would like 10 columns; at max width 10 each is shrunk,
    // but never below five
    let lines = render_table(&rows(&[&["aaaaaaaaaa", "bbbbbbbbbb"]]), "", &TagStyler, 10);
    // dash runs of width + 2 = 7 per column
    assert_eq!(
        lines[0],
        format!(
            "\u{250c}{}\u{252c}{}\u{2510}",
            "\u{2500}".repeat(7),
            "\u{2500}".repeat(7)
        )
    );
    // cells wrap to the floor width of five
    assert_eq!(lines[1], "\u{2502} aaaaa\x1b[0m \u{2502} bbbbb\x1b[0m \u{2502}");
}

#[test]
fn test_table_ragged_rows_pad_missing_cells() {
    let lines = render_table(&rows(&[&["A", "B"], &["x"]]), "", &TagStyler, 80);
    assert_eq!(lines.len(), 5);
    assert_eq!(lines[3], "\u{2502} x \u{2502}   \u{2502}");
}

#[test]
fn test_table_cell_markdown_is_formatted() {
    // inline markdown inside a cell reaches the output styled, not raw
    let lines = render_table(&rows(&[&["**B**"]]), "", &TagStyler, 80);
    let all = lines.join("\n");
    assert!(all.contains('\u{1b}'));
    assert!(!all.contains("**"));
}

#[test]
fn test_table_margin_prefixes_every_line() {
    let lines = render_table(&rows(&[&["A"], &["b"]]), ">> ", &TagStyler, 80);
    for line in &lines {
        assert!(line.starts_with(">> "));
    }
}
