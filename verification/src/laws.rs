//! Laws of the editor: what holds of its operations whatever the document.
//!
//! Each law is a statement about the functions of [`crate::model`], which the
//! executable operations are proved to follow.
use crate::edit::EditDescriptor;
use crate::mode::Mode;
use crate::model::{clamped, max_column, move_target, selection_span, DocView};
use crate::render::{
    lemma_kept_spans_are_in_order, lemma_span_from_finds, span_from, spans_in_order, token_at,
    TokenStyle,
};
use crate::syntax::captured_spans;
use crate::text::{
    byte_len, byte_of_char, char_of_byte, char_width, is_char_boundary, last_line,
    lemma_byte_of_char_bounded, lemma_byte_of_char_ends, lemma_byte_of_char_monotone,
    lemma_byte_of_char_step, lemma_char_of_byte, lemma_char_of_byte_monotone,
    lemma_char_of_byte_of_char, lemma_char_of_byte_unique, lemma_insert_bytes,
    lemma_insert_keeps_lines, lemma_line_holds_byte, lemma_line_of_byte, lemma_line_start_byte,
    lemma_line_start, lemma_line_start_monotone, lemma_single_byte_run, lemma_single_byte_text,
    lemma_without_range_bytes, line_char_len, line_of_byte, line_start, line_start_byte,
    single_byte_line, single_byte_text, without_range,
};
use crate::words::{lemma_next_transition, lemma_prev_transition};
use vstd::math::{max, min};
use vstd::prelude::*;

verus! {

/// Where a move to a line and a column arrives: in that line, or the last if
/// there is no such line, at that column, or the largest of the line if it is
/// shorter. Wherever it arrives, the cursor is within the text.
pub proof fn law_move_arrives(v: DocView, line: int, column: int)
    requires
        v.wf(),
        0 <= line,
        0 <= column,
    ensures
        v.moved_to(line, column).wf(),
        v.moved_to(line, column).line() == min(line, last_line(v.text)),
        v.moved_to(line, column).column() == min(
            column,
            max_column(v.text, min(line, last_line(v.text))),
        ),
        0 <= max_column(v.text, min(line, last_line(v.text))),
{
    let l = min(line, last_line(v.text));
    lemma_line_start_byte(v.text, l);
    lemma_line_holds_byte(v.text, l, move_target(v.text, line, column));
}

/// The cursor's line is a line of the text and its column a column of that
/// line; off the last line, the column is in front of the line break.
pub proof fn law_position_in_text(v: DocView)
    requires
        v.wf(),
    ensures
        0 <= v.line() <= last_line(v.text),
        0 <= v.column() <= max_column(v.text, v.line()),
        v.refreshed().wf(),
{
    lemma_line_of_byte(v.text, v.cursor);
    lemma_line_start_byte(v.text, v.line());
}

/// Through every move by a line or a byte, the cursor stays within the text.
pub proof fn law_moves_stay_in_text(v: DocView)
    requires
        v.wf(),
    ensures
        v.moved_left().wf(),
        v.moved_right().wf(),
        v.moved_up().wf(),
        v.moved_down().wf(),
        v.moved_to_view().wf(),
{
    law_position_in_text(v);
    law_move_arrives(v, v.line(), max(v.column() - 1, 0));
    law_position_in_text(v.moved_to(v.line(), max(v.column() - 1, 0)));
    law_move_arrives(v, v.line(), v.column() + 1);
    law_position_in_text(v.moved_to(v.line(), v.column() + 1));
    law_move_arrives(v, max(v.line() - 1, 0), max(v.column(), v.sticky));
    law_move_arrives(v, v.line() + 1, max(v.column(), v.sticky));
    match v.extent {
        Some((rows, _)) => {
            let line = clamped(
                v.line(),
                v.scroll_top,
                max(v.scroll_top + rows - 1, 0),
            );
            law_move_arrives(v, line, v.sticky);
        },
        None => {},
    }
}

/// A move into a line of single-byte characters arrives on a character
/// boundary. (A move computes a byte offset; where a character of several
/// bytes lies across that offset, the cursor lands inside the character.)
pub proof fn law_move_into_single_byte_line(v: DocView, line: int, column: int)
    requires
        v.wf(),
        0 <= line,
        0 <= column,
        single_byte_line(v.text, min(line, last_line(v.text))),
    ensures
        v.moved_to(line, column).on_boundary(),
{
    let l = min(line, last_line(v.text));
    let c = min(column, max_column(v.text, l));
    law_move_arrives(v, line, column);
    lemma_line_start_byte(v.text, l);
    lemma_line_start(v.text, l);
    lemma_line_start(v.text, l + 1);
    lemma_line_start_monotone(v.text, l, l + 1);
    let first = line_start(v.text, l);
    lemma_single_byte_run(v.text, first, line_start(v.text, l + 1) - first);
    lemma_single_byte_run(v.text, first, c);
    lemma_char_of_byte_of_char(v.text, first + c);
}

/// In a text of single-byte characters every move by a line or a byte leaves
/// the cursor on a character boundary.
pub proof fn law_moves_keep_boundary_in_single_byte_text(v: DocView)
    requires
        v.wf(),
        single_byte_text(v.text),
    ensures
        v.moved_left().on_boundary(),
        v.moved_right().on_boundary(),
        v.moved_up().on_boundary(),
        v.moved_down().on_boundary(),
        v.moved_to_view().on_boundary(),
{
    law_moves_stay_in_text(v);
    lemma_single_byte_text(v.text, 0);
    lemma_single_byte_text(v.text, v.moved_left().cursor);
    lemma_single_byte_text(v.text, v.moved_right().cursor);
    lemma_single_byte_text(v.text, v.moved_up().cursor);
    lemma_single_byte_text(v.text, v.moved_down().cursor);
    lemma_single_byte_text(v.text, v.moved_to_view().cursor);
}

/// A move by one byte to the left, from a boundary and not from the start of
/// a line, lands on a boundary exactly if the character it passes is one byte
/// wide.
pub proof fn law_move_left_boundary(v: DocView)
    requires
        v.wf(),
        v.on_boundary(),
        v.column() > 0,
    ensures
        v.cursor_char() > 0,
        v.moved_left().cursor == v.cursor - 1,
        v.moved_left().on_boundary() <==> char_width(v.text[v.cursor_char() - 1]) == 1,
{
    law_position_in_text(v);
    law_move_arrives(v, v.line(), v.column() - 1);
    lemma_char_of_byte(v.text, v.cursor);
    lemma_byte_of_char_ends(v.text);
    let k = v.cursor_char();
    lemma_byte_of_char_step(v.text, k - 1);
    lemma_char_of_byte_unique(v.text, v.cursor - 1, k - 1);
}

/// A move by one byte to the right, from a boundary and not from the last
/// column of a line, lands on a boundary exactly if the character it passes
/// is one byte wide.
pub proof fn law_move_right_boundary(v: DocView)
    requires
        v.wf(),
        v.on_boundary(),
        v.column() < max_column(v.text, v.line()),
    ensures
        v.cursor_char() < v.text.len(),
        v.moved_right().cursor == v.cursor + 1,
        v.moved_right().on_boundary() <==> char_width(v.text[v.cursor_char()]) == 1,
{
    law_position_in_text(v);
    law_move_arrives(v, v.line(), v.column() + 1);
    lemma_line_start_byte(v.text, v.line());
    lemma_char_of_byte(v.text, v.cursor);
    lemma_byte_of_char_ends(v.text);
    let k = v.cursor_char();
    lemma_byte_of_char_step(v.text, k);
    if char_width(v.text[k]) == 1 {
        lemma_char_of_byte_of_char(v.text, k + 1);
    } else {
        lemma_char_of_byte_unique(v.text, v.cursor + 1, k);
    }
}

/// The sticky column: from a line that is not the last, or in a text of one
/// line, a move down and a move up bring the cursor back to where it was, if
/// the line below reaches to the cursor's column, or if the sticky column is
/// not to the left of the cursor and so remembers its column. It is asked
/// that the sticky column is within the cursor's reach, as it is after every
/// operation that sets it and after every move by a line. (From the last of
/// several lines the move down stays and the move up leaves the line.)
pub proof fn law_down_then_up_returns(v: DocView)
    requires
        v.wf(),
        v.sticky_in_reach(),
        v.line() < last_line(v.text) || last_line(v.text) == 0,
        v.line() < last_line(v.text) && v.sticky < v.column() ==> v.column() <= max_column(
            v.text,
            v.line() + 1,
        ),
    ensures
        v.moved_down().moved_up() == v,
        v.moved_down().line() == min(v.line() + 1, last_line(v.text)),
{
    law_position_in_text(v);
    let aim = max(v.column(), v.sticky);
    law_move_arrives(v, v.line() + 1, aim);
    let d = v.moved_down();
    law_move_arrives(d, max(d.line() - 1, 0), max(d.column(), d.sticky));
}

/// Setting the sticky column brings it into the cursor's reach, and a move by
/// a line keeps it there.
pub proof fn law_sticky_stays_in_reach(v: DocView)
    requires
        v.wf(),
    ensures
        v.refreshed().sticky_in_reach(),
        v.moved_up().sticky_in_reach(),
        v.moved_down().sticky_in_reach(),
        v.extent.is_some() || v.sticky_in_reach() ==> v.moved_to_view().sticky_in_reach(),
{
    law_position_in_text(v);
    law_move_arrives(v, max(v.line() - 1, 0), max(v.column(), v.sticky));
    law_move_arrives(v, v.line() + 1, max(v.column(), v.sticky));
    match v.extent {
        Some((rows, _)) => {
            let line = clamped(
                v.line(),
                v.scroll_top,
                max(v.scroll_top + rows - 1, 0),
            );
            law_move_arrives(v, line, v.sticky);
        },
        None => {},
    }
}

/// Typing a character and deleting it again with a backspace, with the cursor
/// on a character boundary, restores the text and the cursor. All that
/// changes is the sticky column, which is the cursor's column afterwards.
pub proof fn law_insert_then_remove_before(v: DocView, ch: char)
    requires
        v.wf(),
        v.on_boundary(),
    ensures
        v.inserted(ch).wf(),
        v.inserted(ch).can_remove_before(),
        v.inserted(ch).removed_before() == v.refreshed(),
        v.inserted(ch).removed_before().text == v.text,
        v.inserted(ch).removed_before().cursor == v.cursor,
{
    law_typing_stays_in_text(v, ch);
    let k = v.cursor_char();
    let t = v.text_inserted(ch);
    let w = v.inserted(ch);
    lemma_char_of_byte(v.text, v.cursor);
    lemma_insert_bytes(v.text, k, ch);
    lemma_char_of_byte_of_char(t, k + 1);
    assert(w.cursor_char() == k + 1);
    assert(t.remove(k) =~= v.text);
    law_position_in_text(v);
}

/// After a character was typed the cursor is within the text, and on a
/// character boundary if it was on one.
pub proof fn law_typing_stays_in_text(v: DocView, ch: char)
    requires
        v.wf(),
    ensures
        v.inserted(ch).wf(),
        v.on_boundary() ==> v.inserted(ch).on_boundary(),
        byte_len(v.inserted(ch).text) == byte_len(v.text) + char_width(ch),
{
    let k = v.cursor_char();
    lemma_char_of_byte(v.text, v.cursor);
    lemma_insert_bytes(v.text, k, ch);
    lemma_insert_keeps_lines(v.text, k, ch);
    let typed = DocView { text: v.text_inserted(ch), cursor: v.cursor + char_width(ch), ..v };
    law_position_in_text(typed);
    if v.on_boundary() {
        lemma_char_of_byte_of_char(v.text_inserted(ch), k + 1);
    }
}

/// After a backspace the cursor is within the text and on a character
/// boundary.
pub proof fn law_backspace_lands_on_boundary(v: DocView)
    requires
        v.wf(),
    ensures
        v.removed_before().wf(),
        v.can_remove_before() ==> v.removed_before().on_boundary(),
        v.can_remove_before() ==> byte_len(v.removed_before().text) == byte_len(v.text)
            - char_width(v.text[v.cursor_char() - 1]),
{
    if v.can_remove_before() {
        let k = v.cursor_char();
        lemma_char_of_byte(v.text, v.cursor);
        let t = v.text.remove(k - 1);
        assert(t =~= without_range(v.text, k - 1, k));
        lemma_without_range_bytes(v.text, k - 1, k);
        lemma_byte_of_char_step(v.text, k - 1);
        lemma_byte_of_char_bounded(t, k - 1);
        lemma_char_of_byte_of_char(t, k - 1);
        let cut = DocView { text: t, cursor: v.preceding_byte(), ..v }.scroll_kept_in_text();
        law_position_in_text(cut);
    }
}

/// The selection is a range of the text, smaller bound first.
pub proof fn law_selection_in_text(v: DocView)
    requires
        v.wf(),
    ensures
        0 <= v.selection().0 <= v.selection().1 <= byte_len(v.text),
{
    match v.mode {
        Mode::Select { start_byte, line_mode } => {
            let anchor = min(start_byte as int, byte_len(v.text) as int);
            lemma_line_of_byte(v.text, anchor);
            lemma_line_of_byte(v.text, v.cursor);
            lemma_line_start_byte(v.text, line_of_byte(v.text, anchor));
            lemma_line_start_byte(v.text, line_of_byte(v.text, v.cursor));
        },
        _ => {},
    }
}

/// After the selection was deleted the cursor is within the text, and on a
/// character boundary if the selection began on one.
pub proof fn law_removal_stays_in_text(v: DocView)
    requires
        v.wf(),
    ensures
        v.removed().wf(),
        0 <= v.removed_first() <= v.removed_last() + 1 <= v.text.len(),
        byte_len(v.text) > 0 ==> byte_len(v.removed().text) == byte_len(v.text) - (byte_of_char(
            v.text,
            v.removed_last() + 1,
        ) - byte_of_char(v.text, v.removed_first())),
        byte_len(v.text) > 0 && is_char_boundary(v.text, v.selection().0) ==> v.removed().cursor
            == v.selection().0 && v.removed().on_boundary(),
{
    law_selection_in_text(v);
    let range = v.selection();
    lemma_char_of_byte(v.text, range.0);
    lemma_char_of_byte(v.text, range.1);
    lemma_char_of_byte_monotone(v.text, range.0, range.1);
    lemma_byte_of_char_bounded(v.text, v.text.len() as int);
    if byte_len(v.text) > 0 {
        let first = v.removed_first();
        let last = v.removed_last();
        let t = v.text_removed();
        lemma_without_range_bytes(v.text, first, last + 1);
        lemma_byte_of_char_bounded(t, first);
        let cursor = min(range.0, byte_len(t) as int);
        let cut = DocView {
            text: t,
            cursor,
            mode: match v.mode {
                Mode::Select { start_byte, line_mode } => Mode::Select {
                    start_byte: cursor as usize,
                    line_mode,
                },
                m => m,
            },
            ..v
        }.scroll_kept_in_text();
        law_position_in_text(cut);
        let fresh = cut.refreshed();
        law_position_in_text(fresh);
        if is_char_boundary(v.text, range.0) {
            lemma_char_of_byte_of_char(t, first);
        }
    }
}

/// A selection covers the same bytes whichever of its two ends is the anchor
/// and whichever the cursor.
pub proof fn law_selection_symmetric(s: Seq<char>, a: int, b: int, line_mode: bool)
    ensures
        selection_span(s, a, b, line_mode) == selection_span(s, b, a, line_mode),
{
}

/// The same of two documents that differ only in which end of the selection
/// the cursor is at.
pub proof fn law_selection_order_independent(v: DocView, w: DocView)
    requires
        v.wf(),
        w.wf(),
        v.text == w.text,
        v.mode matches Mode::Select { start_byte: a, line_mode: l } && w.mode matches Mode::Select {
            start_byte: b,
            line_mode: m,
        } && l == m && w.cursor == a && v.cursor == b,
    ensures
        v.selection() == w.selection(),
{
}

/// A line-wise selection spans whole lines: it begins where a line begins and
/// ends within the last line that it touches, if that line is not empty.
/// (Only the last line of a text can be empty.)
pub proof fn law_line_selection_spans_lines(s: Seq<char>, anchor: int, cursor: int)
    requires
        0 <= anchor <= byte_len(s),
        0 <= cursor <= byte_len(s),
        line_char_len(s, max(line_of_byte(s, anchor), line_of_byte(s, cursor))) > 0,
    ensures
        ({
            let first = min(line_of_byte(s, anchor), line_of_byte(s, cursor));
            let last = max(line_of_byte(s, anchor), line_of_byte(s, cursor));
            let range = selection_span(s, anchor, cursor, true);
            &&& range.0 == line_start_byte(s, first)
            &&& line_start_byte(s, last) <= range.1 < line_start_byte(s, last + 1)
            &&& range.0 <= anchor && range.0 <= cursor
        }),
{
    lemma_line_of_byte(s, anchor);
    lemma_line_of_byte(s, cursor);
    let first = min(line_of_byte(s, anchor), line_of_byte(s, cursor));
    let last = max(line_of_byte(s, anchor), line_of_byte(s, cursor));
    lemma_line_start_byte(s, first);
    lemma_line_start_byte(s, last);
    if first < last {
        lemma_line_start(s, first);
        lemma_line_start(s, last);
        lemma_line_start_monotone(s, first, last);
        lemma_byte_of_char_monotone(
            s,
            line_start(s, first),
            line_start(s, last),
        );
    }
}

/// Word motion stops at the ends of the text: from the last character or
/// from the end of the text, the next word is at the end of the text; from
/// the first two characters, the previous word starts at the start of the
/// text.
pub proof fn law_word_motion_stops_at_ends(v: DocView)
    requires
        v.wf(),
    ensures
        v.cursor_char() >= v.text.len() - 1 ==> v.moved_next_word().cursor == byte_len(v.text),
        v.cursor_char() >= v.text.len() - 2 ==> v.moved_next_word_end().cursor == byte_len(
            v.text,
        ),
        v.cursor_char() <= 1 ==> v.moved_prev_word_start().cursor == 0,
        v.with_cursor(byte_len(v.text) as int).moved_next_word().cursor == byte_len(v.text),
        v.with_cursor(0).moved_prev_word_start().cursor == 0,
{
    lemma_byte_of_char_ends(v.text);
    lemma_char_of_byte(v.text, v.cursor);
    lemma_char_of_byte(v.text, byte_len(v.text) as int);
    lemma_char_of_byte(v.text, 0);
    if v.text.len() > 0 {
        lemma_byte_of_char_step(v.text, 0);
    }
    lemma_char_of_byte_unique(v.text, 0, 0);
}

/// Every word motion leaves the cursor within the text and on a character
/// boundary.
pub proof fn law_word_motions_land_on_boundaries(v: DocView)
    requires
        v.wf(),
    ensures
        v.moved_next_word().wf() && v.moved_next_word().on_boundary(),
        v.moved_next_word_end().wf() && v.moved_next_word_end().on_boundary(),
        v.moved_prev_word_start().wf() && v.moved_prev_word_start().on_boundary(),
        v.moved_next_word().cursor > v.cursor || v.moved_next_word().cursor == byte_len(v.text),
        v.moved_prev_word_start().cursor < v.cursor || v.moved_prev_word_start().cursor == 0,
{
    let k = v.cursor_char();
    lemma_char_of_byte(v.text, v.cursor);
    lemma_byte_of_char_ends(v.text);
    lemma_next_transition(v.text, k + 1);
    lemma_next_transition(v.text, k + 2);
    lemma_prev_transition(v.text, k - 1);
    let a = crate::words::next_word_char(v.text, k);
    let b = crate::words::next_word_end_char(v.text, k);
    let c = crate::words::prev_word_start_char(v.text, k);
    lemma_char_of_byte_of_char(v.text, a);
    lemma_char_of_byte_of_char(v.text, b);
    lemma_char_of_byte_of_char(v.text, c);
    law_position_in_text(v.with_cursor(v.next_word()));
    law_position_in_text(v.with_cursor(v.next_word_end()));
    law_position_in_text(v.with_cursor(v.prev_word_start()));
    if a < v.text.len() {
        lemma_byte_of_char_monotone(v.text, k + 1, a);
        lemma_byte_of_char_step(v.text, k);
    }
    if c > 0 {
        lemma_byte_of_char_monotone(v.text, c, k - 1);
        lemma_byte_of_char_step(v.text, k - 1);
    }
}

/// Deleting in an empty document changes nothing.
pub proof fn law_remove_on_empty(v: DocView)
    requires
        byte_len(v.text) == 0,
    ensures
        v.removed() == v,
{
}

/// The edit that typing amounts to accounts for the bytes that the text
/// gains.
pub proof fn law_insert_edit_matches_length(v: DocView, ch: char, edit: EditDescriptor)
    requires
        v.wf(),
        v.insert_edit(ch, edit),
    ensures
        edit.byte_delta() == byte_len(v.inserted(ch).text) - byte_len(v.text),
        edit.start_byte == edit.old_end_byte,
{
    law_typing_stays_in_text(v, ch);
}

/// The edit that a backspace amounts to accounts for the bytes that the text
/// loses, if the cursor was on a character boundary.
pub proof fn law_remove_before_edit_matches_length(v: DocView, edit: EditDescriptor)
    requires
        v.wf(),
        v.on_boundary(),
        v.can_remove_before(),
        v.remove_before_edit(edit),
    ensures
        edit.byte_delta() == byte_len(v.removed_before().text) - byte_len(v.text),
        edit.start_byte == edit.new_end_byte,
{
    law_backspace_lands_on_boundary(v);
    let k = v.cursor_char();
    lemma_char_of_byte(v.text, v.cursor);
    lemma_byte_of_char_step(v.text, k - 1);
}

/// The edit that deleting the selection amounts to names the selection's
/// first and last byte. Its ends are as far apart as the text loses bytes
/// exactly if the selection begins on a character boundary and reaches to the
/// end of the text: otherwise the last character's bytes, from the
/// selection's last byte on, are lost beyond the edit's old end.
pub proof fn law_remove_edit_matches_length(v: DocView, edit: EditDescriptor)
    requires
        v.wf(),
        byte_len(v.text) > 0,
        v.remove_edit(edit),
    ensures
        edit.start_byte == edit.new_end_byte,
        edit.byte_delta() == v.selection().0 - v.selection().1,
        edit.byte_delta() == byte_len(v.removed().text) - byte_len(v.text) <==> is_char_boundary(
            v.text,
            v.selection().0,
        ) && v.selection().1 == byte_len(v.text),
{
    law_selection_in_text(v);
    law_removal_stays_in_text(v);
    let range = v.selection();
    lemma_char_of_byte(v.text, range.0);
    lemma_char_of_byte(v.text, range.1);
    lemma_byte_of_char_ends(v.text);
    lemma_byte_of_char_bounded(v.text, v.text.len() as int);
    let first = v.removed_first();
    let last = v.removed_last();
    lemma_byte_of_char_bounded(v.text, last + 1);
    if char_of_byte(v.text, range.1) < v.text.len() {
        lemma_byte_of_char_step(v.text, last);
    }
}

/// Scrolling to the cursor brings the cursor's line into the window, if the
/// window has a row, and moves the window no further than that takes: not at
/// all if the line is in it, else until the line is its first or its last.
pub proof fn law_scroll_to_cursor_shows_cursor(v: DocView)
    requires
        v.wf(),
        v.extent matches Some(e) && e.0 >= 1,
    ensures
        ({
            let w = v.scrolled_to_cursor();
            let rows = v.extent.unwrap().0;
            &&& w.wf()
            &&& w.scroll_top <= w.line() < w.scroll_top + rows
            &&& v.scroll_top <= v.line() < v.scroll_top + rows ==> w == v
            &&& v.line() < v.scroll_top ==> w.scroll_top == v.line()
            &&& v.line() >= v.scroll_top + rows ==> w.scroll_top + rows - 1 == v.line()
        }),
{
    law_position_in_text(v);
}

/// Moving to the view brings the cursor into the window, if the window has a
/// row, and no further than that takes: its line stays if it is in the
/// window, else it becomes the first or the last line of the window.
pub proof fn law_move_to_view_enters_window(v: DocView)
    requires
        v.wf(),
        v.extent matches Some(e) && e.0 >= 1,
    ensures
        ({
            let w = v.moved_to_view();
            let rows = v.extent.unwrap().0;
            let bottom = min(v.scroll_top + rows - 1, last_line(v.text));
            &&& w.wf()
            &&& v.scroll_top <= w.line() <= bottom
            &&& v.scroll_top <= v.line() <= bottom ==> w.line() == v.line()
            &&& v.line() < v.scroll_top ==> w.line() == v.scroll_top
            &&& v.line() > bottom ==> w.line() == bottom
            &&& w.column() == min(v.sticky, max_column(v.text, w.line()))
        }),
{
    law_position_in_text(v);
    let rows = v.extent.unwrap().0;
    let line = clamped(v.line(), v.scroll_top, max(v.scroll_top + rows - 1, 0));
    law_move_arrives(v, line, v.sticky);
}

/// Scrolling keeps the first visible line a line of the text and leaves
/// everything else alone; at the first and at the last line it stops.
pub proof fn law_scrolling_stays_in_text(v: DocView)
    requires
        v.wf(),
    ensures
        v.scrolled_up().wf() && v.scrolled_down().wf(),
        v.scroll_top == 0 ==> v.scrolled_up() == v,
        v.scroll_top == last_line(v.text) ==> v.scrolled_down() == v,
        v.scroll_top > 0 ==> v.scrolled_up().scroll_top == v.scroll_top - 1,
        v.scroll_top < last_line(v.text) ==> v.scrolled_down().scroll_top == v.scroll_top + 1,
{
}

/// A character gets a syntax class only from a span that holds its byte.
pub proof fn law_token_comes_from_a_span(spans: Seq<TokenStyle>, b: int)
    ensures
        token_at(spans, b) matches Some(style) ==> exists|q: int|
            0 <= q < spans.len() && (#[trigger] spans[q]).holds(b) && spans[q].style == style,
{
    lemma_span_from_finds(spans, 0, b);
    let k = span_from(spans, 0, b);
    if token_at(spans, b).is_some() {
        assert(spans[k].holds(b));
    }
}

/// Of spans in order, one pass finds the span that holds a byte: the
/// character at the byte gets that span's class.
pub proof fn law_one_pass_finds_the_span(spans: Seq<TokenStyle>, q: int, b: int)
    requires
        spans_in_order(spans),
        0 <= q < spans.len(),
        spans[q].holds(b),
    ensures
        token_at(spans, b) == Some(spans[q].style),
{
    lemma_span_from_finds(spans, 0, b);
    let k = span_from(spans, 0, b);
    if k < q {
        assert(spans[k].end_byte <= spans[q].start_byte);
    }
}

/// The highlight spans that a rendering composes are in order, whatever the
/// query captures.
pub proof fn law_highlights_are_in_order(v: DocView, query: tree_sitter::Query)
    ensures
        spans_in_order(v.highlighted(query)),
{
    match v.tree {
        Some(tree) => {
            lemma_kept_spans_are_in_order(captured_spans(query, tree, v.text));
        },
        None => {},
    }
}

/// In a rendering, a character whose byte one of the highlight spans holds
/// gets that span's class.
pub proof fn law_highlighted_byte_gets_its_class(
    v: DocView,
    query: tree_sitter::Query,
    q: int,
    b: int,
)
    requires
        0 <= q < v.highlighted(query).len(),
        v.highlighted(query)[q].holds(b),
    ensures
        token_at(v.highlighted(query), b) == Some(v.highlighted(query)[q].style),
{
    law_highlights_are_in_order(v, query);
    law_one_pass_finds_the_span(v.highlighted(query), q, b);
}

} // verus!
