use streamdown_render::list::{render_list_item, Bullet, ListState};
use streamdown_render::style::TagStyler;

#[test]
fn test_list_state_new_is_empty() {
    let mut s = ListState::new();
    assert_eq!(s.level(), 0);
    s.push(0, false);
    assert_eq!(s.level(), 1);
    s.pop();
    assert_eq!(s.level(), 0);
}

#[test]
fn test_next_number_counts_per_level() {
    let mut s = ListState::new();
    s.push(0, true);
    assert_eq!(s.next_number(), 1);
    assert_eq!(s.next_number(), 2);
    s.push(2, true);
    assert_eq!(s.next_number(), 1);
}

#[test]
fn test_next_number_without_frames() {
    let mut s = ListState::new();
    assert_eq!(s.next_number(), 1);
    assert_eq!(s.level(), 0);
}

#[test]
fn test_adjust_for_indent_pops_deeper_frames() {
    let mut s = ListState::new();
    s.adjust_for_indent(0, false);
    s.adjust_for_indent(2, false);
    s.adjust_for_indent(4, false);
    assert_eq!(s.level(), 3);
    s.adjust_for_indent(1, false);
    // frames at 2 and 4 popped, a new frame at 1 above the frame at 0
    assert_eq!(s.level(), 2);
    s.adjust_for_indent(0, false);
    assert_eq!(s.level(), 1);
}

#[test]
fn test_reset_clears_everything() {
    let mut s = ListState::new();
    s.adjust_for_indent(0, true);
    s.mark_pending_reset();
    s.reset();
    assert_eq!(s.level(), 0);
}

#[test]
fn test_ordinal_monotonic_sequence() {
    // ordered items at a constant indent are numbered 1, 2, 3 whatever
    // ordinal the events carried
    let mut s = ListState::new();
    let mut outputs: Vec<String> = Vec::new();
    for attached in [7usize, 7, 7] {
        let lines = render_list_item(
            0,
            &Bullet::Ordered(attached),
            "item",
            80,
            "",
            &TagStyler,
            &mut s,
        );
        outputs.push(lines[0].clone());
    }
    assert_eq!(outputs, vec!["1. item", "2. item", "3. item"]);
}

#[test]
fn test_unordered_bullet_cycles_by_level() {
    let mut s = ListState::new();
    let l0 = render_list_item(0, &Bullet::Dash, "a", 80, "", &TagStyler, &mut s);
    assert_eq!(l0[0], "\u{2022} a");
    let l1 = render_list_item(2, &Bullet::Asterisk, "b", 80, "", &TagStyler, &mut s);
    assert_eq!(l1[0], "    \u{25e6} b");
}

#[test]
fn test_plus_expand_glyph() {
    let mut s = ListState::new();
    let lines = render_list_item(0, &Bullet::PlusExpand, "more", 80, "", &TagStyler, &mut s);
    assert_eq!(lines[0], "\u{229e} more");
}

#[test]
fn test_list_item_wraps_under_text() {
    let mut s = ListState::new();
    let lines = render_list_item(0, &Bullet::Dash, "aaa bbb", 8, "", &TagStyler, &mut s);
    // marker and first word, continuation aligned under the text
    assert_eq!(lines, vec!["\u{2022} aaa", "  bbb"]);
}
