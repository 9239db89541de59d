use edit_core::document::Document;
use ropey::Rope;

fn doc(text: &str) -> Document {
    Document::new(Rope::from_str(text))
}

const TEN_LINES: &str = "0\n1\n2\n3\n4\n5\n6\n7\n8\n9";

#[test]
fn scroll_up_stops_at_first_line() {
    let mut doc = doc(TEN_LINES);
    doc.scroll_up();
    assert_eq!(doc.scroll_top_line(), 0);
    doc.scroll_down();
    doc.scroll_down();
    doc.scroll_up();
    assert_eq!(doc.scroll_top_line(), 1);
}

#[test]
fn scroll_down_stops_at_last_line() {
    let mut doc = doc("a\nb\nc");
    for expected in [1, 2, 2, 2] {
        doc.scroll_down();
        assert_eq!(doc.scroll_top_line(), expected);
    }
    let mut empty = Document::default();
    empty.scroll_down();
    assert_eq!(empty.scroll_top_line(), 0);
}

#[test]
fn scrolling_leaves_cursor_alone() {
    let mut doc = doc(TEN_LINES);
    doc.move_to(3, 1);
    doc.scroll_down();
    assert_eq!(doc.position(), (1, 3));
}

#[test]
fn scroll_policies_do_nothing_before_first_render() {
    let mut doc = doc(TEN_LINES);
    doc.move_to(8, 0);
    doc.scroll_to_cursor();
    assert_eq!(doc.scroll_top_line(), 0);
    for _ in 0..5 {
        doc.scroll_down();
    }
    doc.move_to_view();
    assert_eq!(doc.position(), (0, 8));
    assert_eq!(doc.scroll_top_line(), 5);
}

#[test]
fn scroll_to_cursor_moves_window_down_as_little_as_needed() {
    let mut doc = doc(TEN_LINES);
    doc.compose(&[], 4, 10);
    assert_eq!(doc.last_view_extent(), Some((4, 10)));
    doc.move_to(2, 0);
    doc.scroll_to_cursor();
    assert_eq!(doc.scroll_top_line(), 0);
    doc.move_to(3, 0);
    doc.scroll_to_cursor();
    assert_eq!(doc.scroll_top_line(), 0);
    doc.move_to(4, 0);
    doc.scroll_to_cursor();
    assert_eq!(doc.scroll_top_line(), 1);
    doc.move_to(9, 0);
    doc.scroll_to_cursor();
    assert_eq!(doc.scroll_top_line(), 6);
}

#[test]
fn scroll_to_cursor_moves_window_up_to_cursor_line() {
    let mut doc = doc(TEN_LINES);
    doc.compose(&[], 4, 10);
    for _ in 0..7 {
        doc.scroll_down();
    }
    doc.move_to(2, 0);
    doc.scroll_to_cursor();
    assert_eq!(doc.scroll_top_line(), 2);
}

#[test]
fn scroll_to_cursor_with_no_rows() {
    let mut doc = doc(TEN_LINES);
    doc.compose(&[], 0, 10);
    doc.move_to(5, 0);
    doc.scroll_to_cursor();
    assert_eq!(doc.scroll_top_line(), 5);
}

#[test]
fn move_to_view_brings_cursor_into_window() {
    let mut doc = doc(TEN_LINES);
    doc.compose(&[], 3, 10);
    for _ in 0..4 {
        doc.scroll_down();
    }
    doc.move_to_view();
    assert_eq!(doc.position(), (0, 4));
    doc.move_to(9, 0);
    doc.move_to_view();
    assert_eq!(doc.position(), (0, 6));
    doc.move_to(5, 0);
    doc.move_to_view();
    assert_eq!(doc.position(), (0, 5));
}

#[test]
fn move_to_view_goes_to_sticky_column() {
    let mut doc = doc("abcd\nab\nabcdef\nabcdef");
    doc.compose(&[], 2, 10);
    doc.move_right();
    doc.move_right();
    doc.move_right();
    assert_eq!(doc.sticky_column(), 3);
    doc.scroll_down();
    doc.move_to_view();
    assert_eq!(doc.position(), (2, 1));
    doc.scroll_down();
    doc.move_to_view();
    assert_eq!(doc.position(), (3, 2));
    assert_eq!(doc.sticky_column(), 3);
}

#[test]
fn move_to_view_with_no_rows() {
    let mut doc = doc(TEN_LINES);
    doc.compose(&[], 0, 10);
    doc.move_to(5, 0);
    doc.move_to_view();
    assert_eq!(doc.position(), (0, 0));
    doc.scroll_down();
    doc.scroll_down();
    doc.move_to(5, 0);
    doc.move_to_view();
    assert_eq!(doc.position(), (0, 1));
    doc.move_to(0, 0);
    doc.move_to_view();
    assert_eq!(doc.position(), (0, 2));
}
