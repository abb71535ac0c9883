use watchbind::state::Line;
use watchbind::state::LineStyle;
use watchbind::state::State;

fn texts(ts: &[&str]) -> Vec<String> {
    ts.iter().map(|t| t.to_string()).collect()
}

fn line_texts(s: &State) -> Vec<String> {
    s.lines().iter().map(|l| l.get()).collect()
}

#[test]
fn test_new_list_is_empty_without_cursor() {
    let s = State::new();
    assert_eq!(s.lines().len(), 0);
    assert_eq!(s.selected().len(), 0);
    assert_eq!(s.cursor_position(), None);
    assert_eq!(s.get_selected_lines(), None);
}

#[test]
fn test_set_lines_places_cursor_on_first_line() {
    let mut s = State::new();
    s.set_lines(texts(&["a", "b", "c"]));
    assert_eq!(s.cursor_position(), Some(0));
    assert_eq!(line_texts(&s), texts(&["a", "b", "c"]));
    assert_eq!(s.selected(), &vec![false, false, false]);
    assert_eq!(s.lines()[0].style, LineStyle::Cursor);
    assert_eq!(s.lines()[1].style, LineStyle::Normal);
    assert_eq!(s.lines()[2].style, LineStyle::Normal);
}

#[test]
fn test_set_lines_shrink_preserves_selection_by_index() {
    // select index 3 of a 5-line list, then replace by 3 lines: the
    // out-of-range selection is dropped, indices 0 to 2 keep their flags
    let mut s = State::new();
    s.set_lines(texts(&["a", "b", "c", "d", "e"]));
    s.down(3);
    s.select();
    s.first();
    s.select();
    assert_eq!(s.selected(), &vec![true, false, false, true, false]);
    s.set_lines(texts(&["x", "y", "z"]));
    assert_eq!(s.selected(), &vec![true, false, false]);
    assert_eq!(s.cursor_position(), Some(0));
}

#[test]
fn test_set_lines_grow_starts_new_lines_unselected() {
    let mut s = State::new();
    s.set_lines(texts(&["a", "b"]));
    s.select_all();
    s.set_lines(texts(&["a", "b", "c", "d"]));
    assert_eq!(s.selected(), &vec![true, true, false, false]);
}

#[test]
fn test_set_lines_shrink_clamps_cursor_to_last_line() {
    let mut s = State::new();
    s.set_lines(texts(&["a", "b", "c", "d", "e"]));
    s.last();
    assert_eq!(s.cursor_position(), Some(4));
    s.set_lines(texts(&["x", "y"]));
    assert_eq!(s.cursor_position(), Some(1));
    assert_eq!(s.lines()[1].style, LineStyle::Cursor);
}

#[test]
fn test_set_lines_empty_removes_cursor() {
    let mut s = State::new();
    s.set_lines(texts(&["a"]));
    assert_eq!(s.cursor_position(), Some(0));
    s.set_lines(Vec::new());
    assert_eq!(s.cursor_position(), None);
    assert_eq!(s.get_selected_lines(), None);
}

#[test]
fn test_cursor_clamps_and_never_wraps() {
    let mut s = State::new();
    s.set_lines(texts(&["a", "b", "c"]));
    // moving up from index 0 by any positive step keeps the cursor at 0
    s.up(1);
    assert_eq!(s.cursor_position(), Some(0));
    s.up(100);
    assert_eq!(s.cursor_position(), Some(0));
    // moving down from the last index by any positive step keeps it there
    s.last();
    s.down(1);
    assert_eq!(s.cursor_position(), Some(2));
    s.down(100);
    assert_eq!(s.cursor_position(), Some(2));
    // ordinary movement, clamped at the far end
    s.first();
    s.down(100);
    assert_eq!(s.cursor_position(), Some(2));
    s.up(2);
    assert_eq!(s.cursor_position(), Some(0));
}

#[test]
fn test_cursor_movement_restyles_both_lines() {
    let mut s = State::new();
    s.set_lines(texts(&["a", "b"]));
    s.down(1);
    assert_eq!(s.lines()[0].style, LineStyle::Normal);
    assert_eq!(s.lines()[1].style, LineStyle::Cursor);
    s.up(1);
    assert_eq!(s.lines()[0].style, LineStyle::Cursor);
    assert_eq!(s.lines()[1].style, LineStyle::Normal);
}

#[test]
fn test_movement_on_empty_list_is_a_no_op() {
    let mut s = State::new();
    s.down(3);
    s.up(2);
    s.first();
    s.last();
    s.select();
    s.unselect();
    s.select_toggle();
    assert_eq!(s.cursor_position(), None);
    assert_eq!(s.lines().len(), 0);
}

#[test]
fn test_select_toggle_and_unselect() {
    let mut s = State::new();
    s.set_lines(texts(&["a", "b"]));
    s.select_toggle();
    assert_eq!(s.selected(), &vec![true, false]);
    s.select_toggle();
    assert_eq!(s.selected(), &vec![false, false]);
    s.select();
    s.select();
    assert_eq!(s.selected(), &vec![true, false]);
    s.unselect();
    assert_eq!(s.selected(), &vec![false, false]);
}

#[test]
fn test_select_all_and_unselect_all() {
    let mut s = State::new();
    s.set_lines(texts(&["a", "b", "c"]));
    s.select_all();
    assert_eq!(s.selected(), &vec![true, true, true]);
    s.unselect_all();
    assert_eq!(s.selected(), &vec![false, false, false]);
}

#[test]
fn test_unselect_all_twice_equals_once() {
    let mut s = State::new();
    s.set_lines(texts(&["a", "b", "c"]));
    s.select_all();
    s.unselect_all();
    let flags_once = s.selected().clone();
    let cursor_once = s.cursor_position();
    s.unselect_all();
    assert_eq!(s.selected(), &flags_once);
    assert_eq!(s.cursor_position(), cursor_once);
}

#[test]
fn test_set_lines_same_content_twice_changes_nothing() {
    let mut s = State::new();
    s.set_lines(texts(&["a", "b", "c"]));
    s.down(2);
    s.select();
    s.set_lines(texts(&["a", "b", "c"]));
    let flags_once = s.selected().clone();
    let cursor_once = s.cursor_position();
    let texts_once = line_texts(&s);
    s.set_lines(texts(&["a", "b", "c"]));
    assert_eq!(s.selected(), &flags_once);
    assert_eq!(s.cursor_position(), cursor_once);
    assert_eq!(line_texts(&s), texts_once);
}

#[test]
fn test_get_selected_lines_falls_back_to_cursor_line() {
    let mut s = State::new();
    s.set_lines(texts(&["alpha", "beta", "gamma"]));
    s.down(1);
    assert_eq!(s.get_selected_lines(), Some("beta".to_string()));
}

#[test]
fn test_get_selected_lines_joins_in_order_regardless_of_cursor() {
    let mut s = State::new();
    s.set_lines(texts(&["a", "b", "c", "d"]));
    s.last();
    s.select();
    s.first();
    s.select();
    s.down(2);
    s.select();
    // cursor sits on "c"; the join still follows list order
    assert_eq!(s.get_selected_lines(), Some("a\nc\nd".to_string()));
}

#[test]
fn test_get_selected_lines_with_selected_empty_line() {
    let mut s = State::new();
    s.set_lines(texts(&["", "b"]));
    s.select();
    s.down(1);
    assert_eq!(s.get_selected_lines(), Some(String::new()));
}

#[test]
fn test_line_new_and_get() {
    let l = Line::new("text".to_string());
    assert_eq!(l.get(), "text");
    assert_eq!(l.style, LineStyle::Normal);
}
