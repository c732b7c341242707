use streamdown_render::text::{simple_wrap, split_text, text_wrap, WrappedText};
use streamdown_render::width::visible_length;

#[test]
fn test_visible_length_plain() {
    assert_eq!(visible_length("hello"), 5);
}

#[test]
fn test_visible_length_ignores_escapes() {
    // a style start, visible text, and a full reset measure as the text
    assert_eq!(visible_length("\x1b[1mabc\x1b[0m"), 3);
}

#[test]
fn test_visible_length_wide_char() {
    assert_eq!(visible_length("\u{65e5}"), 2);
    assert_eq!(visible_length("a\u{65e5}b"), 4);
}

#[test]
fn test_visible_length_hyperlink_escape() {
    // an OSC sequence terminated by a backslash counts nothing
    assert_eq!(visible_length("\x1b]8;;x\x1b\\hi"), 2);
}

#[test]
fn test_split_text_plain() {
    let words = split_text("one two  three");
    assert_eq!(words, vec!["one", "two", "three"]);
}

#[test]
fn test_split_text_keeps_escapes_attached() {
    let words = split_text("a \x1b[1mb\x1b[0m c");
    assert_eq!(words, vec!["a", "\x1b[1mb\x1b[0m", "c"]);
}

#[test]
fn test_split_text_empty() {
    let words = split_text("   ");
    assert_eq!(words.len(), 0);
}

#[test]
fn test_split_text_unfinished_escape_attaches() {
    // an escape sequence still open at the end joins the last word
    let words = split_text("ab \x1b[3");
    assert_eq!(words, vec!["ab", "\x1b[3"]);
}

#[test]
fn test_simple_wrap_all_whitespace() {
    assert_eq!(simple_wrap("   ", 5), vec![""]);
}

#[test]
fn test_simple_wrap_packs_greedily() {
    assert_eq!(simple_wrap("aaa bbb ccc", 7), vec!["aaa bbb", "ccc"]);
}

#[test]
fn test_simple_wrap_zero_width_echoes() {
    assert_eq!(simple_wrap("abc def", 0), vec!["abc def"]);
}

#[test]
fn test_simple_wrap_empty() {
    assert_eq!(simple_wrap("", 10), vec![""]);
}

#[test]
fn test_text_wrap_empty_input_gives_no_lines() {
    let w = text_wrap("", 10, "", "");
    assert!(w.is_empty());
    let e = WrappedText::empty();
    assert!(e.is_empty());
}

#[test]
fn test_text_wrap_zero_width_gives_no_lines() {
    let w = text_wrap("hello", 0, "", "");
    assert!(w.is_empty());
}

#[test]
fn test_text_wrap_prefixes() {
    let w = text_wrap("aa bb cc dd", 8, "* ", "  ");
    assert_eq!(w.lines, vec!["* aa bb", "  cc dd"]);
}

#[test]
fn test_text_wrap_overlong_word_kept_whole() {
    let w = text_wrap("abcdefghij kl", 4, "", "");
    assert_eq!(w.lines, vec!["abcdefghij", "kl"]);
}

#[test]
fn test_text_wrap_width_bound() {
    // every produced line fits the width, except a single overlong word
    let words = "the quick brown fox jumps over the lazy dog extraordinarily";
    let w = text_wrap(words, 12, "", "");
    for line in &w.lines {
        let fits = visible_length(line) <= 12;
        let single = !line.trim().contains(' ');
        assert!(fits || single, "bad line: {:?}", line);
    }
}

#[test]
fn test_text_wrap_idempotent() {
    // re-wrapping the joined output reproduces the same lines
    let w1 = text_wrap("the quick brown fox jumps over the lazy dog", 13, "", "");
    let joined = w1.lines.join(" ");
    let w2 = text_wrap(&joined, 13, "", "");
    assert_eq!(w1.lines, w2.lines);
}

#[test]
fn test_text_wrap_idempotent_with_prefixes() {
    let w1 = text_wrap("alpha beta gamma delta epsilon", 12, "  ", " ");
    let joined = w1.lines.join(" ");
    let w2 = text_wrap(&joined, 12, "  ", " ");
    assert_eq!(w1.lines, w2.lines);
}

#[test]
fn test_text_wrap_styled_words() {
    let w = text_wrap("\x1b[1mbold\x1b[0m word", 9, "", "");
    assert_eq!(w.lines, vec!["\x1b[1mbold\x1b[0m word"]);
}
