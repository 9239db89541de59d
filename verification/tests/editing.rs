use edit_core::document::{tab_fill, Document};
use edit_core::edit::{EditDescriptor, Point};
use edit_core::mode::Mode;
use ropey::Rope;

fn doc(text: &str) -> Document {
    Document::new(Rope::from_str(text))
}

fn point(row: usize, column: usize) -> Point {
    Point { row, column }
}

#[test]
fn insert_puts_character_before_cursor_and_advances() {
    let mut doc = doc("ac");
    doc.move_right();
    let edit = doc.insert('b');
    assert_eq!(doc.rope().to_string(), "abc");
    assert_eq!(doc.cursor_byte(), 2);
    assert_eq!(doc.sticky_column(), 2);
    assert_eq!(
        edit,
        EditDescriptor {
            start_byte: 1,
            old_end_byte: 1,
            new_end_byte: 2,
            start_point: point(0, 1),
            old_end_point: point(0, 1),
            new_end_point: point(0, 2),
        }
    );
}

#[test]
fn insert_wide_character_advances_by_its_bytes() {
    let mut doc = doc("");
    let edit = doc.insert('€');
    assert_eq!(doc.rope().to_string(), "€");
    assert_eq!(doc.cursor_byte(), 3);
    assert_eq!(edit.new_end_byte, 3);
    assert_eq!(edit.new_end_point, point(0, 3));
    let edit = doc.insert('𝄞');
    assert_eq!(doc.cursor_byte(), 7);
    assert_eq!(edit.start_byte, 3);
    assert_eq!(edit.new_end_byte, 7);
    let edit = doc.insert('é');
    assert_eq!(doc.cursor_byte(), 9);
    assert_eq!(edit.new_end_byte - edit.old_end_byte, 2);
    assert_eq!(doc.rope().to_string(), "€𝄞é");
}

#[test]
fn insert_line_break_moves_to_next_line() {
    let mut doc = doc("ab");
    doc.move_right();
    let edit = doc.insert('\n');
    assert_eq!(doc.rope().to_string(), "a\nb");
    assert_eq!(doc.cursor_byte(), 2);
    assert_eq!(doc.position(), (0, 1));
    assert_eq!(doc.sticky_column(), 0);
    assert_eq!(edit.start_point, point(0, 1));
    assert_eq!(edit.new_end_point, point(1, 0));
}

#[test]
fn insert_between_carriage_return_and_line_feed() {
    let mut doc = doc("a\r\nb");
    doc.move_to(0, 2);
    assert_eq!(doc.cursor_byte(), 2);
    let edit = doc.insert('x');
    assert_eq!(doc.rope().to_string(), "a\rx\nb");
    assert_eq!(edit.start_byte, 2);
    assert_eq!(edit.start_point, point(0, 2));
    assert_eq!(edit.new_end_byte, 3);
    assert_eq!(edit.new_end_point, point(1, 1));
    assert_eq!(doc.position(), (1, 1));
}

#[test]
fn insert_keeps_mode_and_anchor() {
    let mut doc = doc("abc");
    doc.move_right();
    doc.enter_select();
    doc.insert('x');
    assert_eq!(doc.mode(), Mode::Select { start_byte: 1, line_mode: false });
    doc.enter_insert();
    doc.insert('y');
    assert_eq!(doc.mode(), Mode::Insert);
    assert_eq!(doc.rope().to_string(), "axybc");
}

#[test]
fn remove_before_deletes_preceding_character() {
    let mut doc = doc("abc");
    doc.move_to(0, 2);
    let edit = doc.remove_before();
    assert_eq!(doc.rope().to_string(), "ac");
    assert_eq!(doc.cursor_byte(), 1);
    assert_eq!(doc.sticky_column(), 1);
    assert_eq!(
        edit,
        Some(EditDescriptor {
            start_byte: 1,
            old_end_byte: 2,
            new_end_byte: 1,
            start_point: point(0, 1),
            old_end_point: point(0, 2),
            new_end_point: point(0, 1),
        })
    );
}

#[test]
fn remove_before_at_start_does_nothing() {
    let mut doc = doc("abc");
    doc.enter_insert();
    let edit = doc.remove_before();
    assert_eq!(edit, None);
    assert_eq!(doc.rope().to_string(), "abc");
    assert_eq!(doc.cursor_byte(), 0);
    assert_eq!(doc.mode(), Mode::Insert);
    let mut empty = Document::default();
    assert_eq!(empty.remove_before(), None);
    assert_eq!(empty.rope().len_bytes(), 0);
}

#[test]
fn remove_before_joins_lines() {
    let mut doc = doc("ab\ncd");
    doc.move_to(1, 0);
    let edit = doc.remove_before().unwrap();
    assert_eq!(doc.rope().to_string(), "abcd");
    assert_eq!(doc.cursor_byte(), 2);
    assert_eq!(doc.position(), (2, 0));
    assert_eq!(edit.start_point, point(0, 2));
    assert_eq!(edit.old_end_point, point(1, 0));
    assert_eq!(edit.new_end_point, point(0, 2));
}

#[test]
fn remove_before_deletes_a_wide_character_whole() {
    let mut doc = doc("a€b");
    doc.move_to(0, 4);
    let edit = doc.remove_before().unwrap();
    assert_eq!(doc.rope().to_string(), "ab");
    assert_eq!(doc.cursor_byte(), 1);
    assert_eq!(edit.start_byte, 1);
    assert_eq!(edit.old_end_byte, 4);
    assert_eq!(edit.new_end_byte, 1);
}

#[test]
fn remove_before_keeps_first_visible_line_in_text() {
    let mut doc = doc("a\n");
    doc.scroll_down();
    assert_eq!(doc.scroll_top_line(), 1);
    doc.move_to(1, 0);
    doc.remove_before();
    assert_eq!(doc.rope().to_string(), "a");
    assert_eq!(doc.scroll_top_line(), 0);
}

#[test]
fn insert_then_remove_before_restores_text_and_cursor() {
    for text in ["", "abc", "ab\ncd", "é€\n𝄞x", "a\r\nb"] {
        for ch in ['x', '\n', 'é', '€', '𝄞', '\r'] {
            let bytes = text.len();
            for cursor in (0..=bytes).filter(|b| text.is_char_boundary(*b)) {
                let rope = Rope::from_str(text);
                let line = rope.byte_to_line(cursor);
                let column = cursor - rope.line_to_byte(line);
                let mut doc = Document::new(rope);
                doc.move_to(line, column);
                if doc.cursor_byte() != cursor {
                    continue;
                }
                let inserted = doc.insert(ch);
                assert_eq!(doc.rope().len_bytes(), bytes + ch.len_utf8());
                assert_eq!(inserted.new_end_byte - inserted.old_end_byte, ch.len_utf8());
                let removed = doc.remove_before().unwrap();
                assert_eq!(removed.old_end_byte - removed.new_end_byte, ch.len_utf8());
                assert_eq!(doc.rope().to_string(), text);
                assert_eq!(doc.cursor_byte(), cursor);
            }
        }
    }
}

#[test]
fn remove_in_normal_mode_deletes_character_under_cursor() {
    let mut doc = doc("abc");
    doc.move_right();
    let edit = doc.remove();
    assert_eq!(doc.rope().to_string(), "ac");
    assert_eq!(doc.cursor_byte(), 1);
    assert_eq!(doc.mode(), Mode::Normal);
    assert_eq!(
        edit,
        Some(EditDescriptor {
            start_byte: 1,
            old_end_byte: 1,
            new_end_byte: 1,
            start_point: point(0, 1),
            old_end_point: point(0, 1),
            new_end_point: point(0, 1),
        })
    );
}

#[test]
fn remove_on_empty_document_does_nothing() {
    let mut doc = Document::default();
    assert_eq!(doc.remove(), None);
    assert_eq!(doc.rope().len_bytes(), 0);
    assert_eq!(doc.cursor_byte(), 0);
    assert_eq!(doc.mode(), Mode::Normal);
    doc.enter_select_line();
    assert_eq!(doc.remove(), None);
    assert_eq!(doc.mode(), Mode::Select { start_byte: 0, line_mode: true });
    doc.enter_insert();
    assert_eq!(doc.remove(), None);
    assert_eq!(doc.mode(), Mode::Insert);
    assert_eq!(doc.rope().len_chars(), 0);
}

#[test]
fn remove_at_end_of_text_deletes_nothing() {
    let mut doc = doc("ab");
    doc.move_to(0, 2);
    let edit = doc.remove().unwrap();
    assert_eq!(doc.rope().to_string(), "ab");
    assert_eq!(doc.cursor_byte(), 2);
    assert_eq!(edit.start_byte, 2);
    assert_eq!(edit.old_end_byte, 2);
}

#[test]
fn remove_selection_is_inclusive() {
    let mut doc = doc("abcdef");
    doc.move_right();
    doc.enter_select();
    doc.move_right();
    doc.move_right();
    let edit = doc.remove().unwrap();
    assert_eq!(doc.rope().to_string(), "aef");
    assert_eq!(doc.cursor_byte(), 1);
    assert_eq!(doc.mode(), Mode::Select { start_byte: 1, line_mode: false });
    assert_eq!(edit.start_byte, 1);
    assert_eq!(edit.old_end_byte, 3);
    assert_eq!(edit.new_end_byte, 1);
    assert_eq!(edit.old_end_point, point(0, 3));
}

#[test]
fn remove_backward_selection_puts_cursor_at_its_start() {
    let mut doc = doc("abcdef");
    doc.move_to(0, 4);
    doc.enter_select();
    doc.move_left();
    doc.move_left();
    doc.remove();
    assert_eq!(doc.rope().to_string(), "abf");
    assert_eq!(doc.cursor_byte(), 2);
    assert_eq!(doc.mode(), Mode::Select { start_byte: 2, line_mode: false });
    assert_eq!(doc.sticky_column(), 2);
}

#[test]
fn remove_selection_reaching_end_of_text() {
    let mut doc = doc("abc");
    doc.move_right();
    doc.enter_select();
    doc.move_to(0, 3);
    let edit = doc.remove().unwrap();
    assert_eq!(doc.rope().to_string(), "a");
    assert_eq!(doc.cursor_byte(), 1);
    assert_eq!(edit.old_end_byte - edit.new_end_byte, 2);
}

#[test]
fn select_lines_then_remove_deletes_both_lines() {
    let mut doc = doc("ab\ncd");
    doc.enter_select_line();
    doc.move_down();
    let edit = doc.remove().unwrap();
    assert_eq!(doc.rope().to_string(), "");
    assert_eq!(doc.cursor_byte(), 0);
    assert_eq!(doc.mode(), Mode::Select { start_byte: 0, line_mode: true });
    assert_eq!(edit.start_byte, 0);
    assert_eq!(edit.old_end_byte, 4);
    assert_eq!(edit.new_end_byte, 0);
    assert_eq!(edit.start_point, point(0, 0));
    assert_eq!(edit.old_end_point, point(1, 1));
}

#[test]
fn remove_line_selection_of_first_line() {
    let mut doc = doc("ab\ncd\nef");
    doc.move_right();
    doc.enter_select_line();
    doc.remove();
    assert_eq!(doc.rope().to_string(), "cd\nef");
    assert_eq!(doc.cursor_byte(), 0);
}

#[test]
fn remove_with_anchor_past_end_of_text() {
    let mut doc = doc("ab");
    doc.move_to(0, 2);
    doc.enter_select();
    doc.move_left();
    doc.remove_before();
    assert_eq!(doc.rope().to_string(), "b");
    assert_eq!(doc.mode(), Mode::Select { start_byte: 2, line_mode: false });
    assert_eq!(doc.selection(), (0, 1));
    doc.remove();
    assert_eq!(doc.rope().to_string(), "");
    assert_eq!(doc.cursor_byte(), 0);
    assert_eq!(doc.mode(), Mode::Select { start_byte: 0, line_mode: false });
}

#[test]
fn remove_from_inside_a_character_keeps_cursor_in_text() {
    let mut doc = doc("é");
    doc.move_right();
    assert_eq!(doc.cursor_byte(), 1);
    doc.remove();
    assert_eq!(doc.rope().to_string(), "");
    assert_eq!(doc.cursor_byte(), 0);
}

#[test]
fn remove_scrolls_to_cursor_after_rendering() {
    let mut doc = doc("a\nb\nc\nd\ne\nf");
    doc.compose(&[], 2, 10);
    for _ in 0..4 {
        doc.scroll_down();
    }
    assert_eq!(doc.scroll_top_line(), 4);
    doc.remove();
    assert_eq!(doc.rope().to_string(), "\nb\nc\nd\ne\nf");
    assert_eq!(doc.scroll_top_line(), 0);
}

#[test]
fn every_edit_accounts_for_the_change_of_length() {
    let mut doc = doc("ab\ncd");
    let before = doc.rope().len_bytes();
    let edit = doc.insert('€');
    assert_eq!(edit.start_byte, edit.old_end_byte);
    assert_eq!(edit.new_end_byte - edit.old_end_byte, doc.rope().len_bytes() - before);
    let before = doc.rope().len_bytes();
    let edit = doc.remove_before().unwrap();
    assert_eq!(edit.start_byte, edit.new_end_byte);
    assert_eq!(edit.old_end_byte - edit.new_end_byte, before - doc.rope().len_bytes());
    doc.enter_select();
    doc.move_to(1, 2);
    let before = doc.rope().len_bytes();
    let edit = doc.remove().unwrap();
    assert_eq!(edit.start_byte, edit.new_end_byte);
    assert_eq!(edit.old_end_byte - edit.new_end_byte, before - doc.rope().len_bytes());
    assert_eq!(doc.rope().len_bytes(), 0);
}

#[test]
fn removing_one_character_reports_an_empty_span() {
    let mut doc = doc("abc");
    let edit = doc.remove().unwrap();
    assert_eq!(doc.rope().to_string(), "bc");
    assert_eq!(edit.old_end_byte - edit.new_end_byte, 0);
}

#[test]
fn tab_fills_to_the_next_multiple_of_four() {
    assert_eq!(tab_fill(0), 4);
    assert_eq!(tab_fill(1), 3);
    assert_eq!(tab_fill(2), 2);
    assert_eq!(tab_fill(3), 1);
    assert_eq!(tab_fill(4), 4);
    assert_eq!(tab_fill(usize::MAX), 4 - usize::MAX % 4);
}
