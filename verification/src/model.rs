//! The document as a mathematical value, and every operation of the editor
//! as a function from one such value to the next.
//!
//! The executable document promises, operation by operation, that its view
//! changes as the function of the same name says here, and that its syntax
//! tree was told of the edit where the text changed. The laws of the editor
//! are then statements about these functions alone.
use crate::edit::EditDescriptor;
use crate::mode::Mode;
use crate::syntax::edited_tree;
use crate::text::{
    byte_len, byte_of_char, char_of_byte, char_width, is_char_boundary, last_line, line_byte_len,
    line_char_len, line_count, line_of_byte, line_start_byte, without_range,
};
use crate::words::{next_word_char, next_word_end_char, prev_word_start_char};
use vstd::math::{max, min};
use vstd::prelude::*;

verus! {

/// The largest column that the cursor may take in line `l`: the line's length
/// in bytes in the last line, and one less in every other line, so that the
/// cursor stays in front of the line break.
pub open spec fn max_column(s: Seq<char>, l: int) -> int {
    if l == last_line(s) {
        line_byte_len(s, l)
    } else {
        line_byte_len(s, l) - 1
    }
}

/// The byte offset that a move to `line` and `column` reaches: the line is
/// clamped to the lines of the text, the column to the columns of that line.
pub open spec fn move_target(s: Seq<char>, line: int, column: int) -> int {
    let l = min(line, last_line(s));
    line_start_byte(s, l) + min(column, max_column(s, l))
}

/// `x` brought into the range from `lo` to `hi`. Where the range is empty the
/// lower bound wins for an `x` below it, the upper bound otherwise.
pub open spec fn clamped(x: int, lo: int, hi: int) -> int {
    if x < lo {
        lo
    } else if x > hi {
        hi
    } else {
        x
    }
}

/// The inclusive range of bytes that a selection from `anchor` to `cursor`
/// covers. A line-wise selection reaches from the start of the first line it
/// touches to the byte that lies as many bytes after the start of the last
/// line as that line has characters, less one.
pub open spec fn selection_span(s: Seq<char>, anchor: int, cursor: int, line_mode: bool) -> (
    int,
    int,
) {
    if line_mode {
        let first = min(line_of_byte(s, anchor), line_of_byte(s, cursor));
        let last = max(line_of_byte(s, anchor), line_of_byte(s, cursor));
        let start = line_start_byte(s, first);
        let end = max(line_start_byte(s, last) + line_char_len(s, last) - 1, 0);
        (min(start, end), max(start, end))
    } else {
        (min(cursor, anchor), max(cursor, anchor))
    }
}

/// A document as the editor's operations see it.
pub struct DocView {
    pub text: Seq<char>,
    /// Byte offset of the cursor.
    pub cursor: int,
    /// The column that vertical moves aim for.
    pub sticky: int,
    /// The mode, with the anchor of the selection if there is one.
    pub mode: Mode,
    /// Index of the first visible line.
    pub scroll_top: int,
    /// Rows and columns of the text area at the last rendering, if any.
    pub extent: Option<(int, int)>,
    /// The syntax tree, if the document holds one.
    pub tree: Option<tree_sitter::Tree>,
}

impl DocView {
    /// What holds of every document: the cursor lies within the text, and the
    /// first visible line is a line of the text.
    pub open spec fn wf(self) -> bool {
        &&& 0 <= self.cursor <= byte_len(self.text)
        &&& 0 <= self.sticky
        &&& 0 <= self.scroll_top < line_count(self.text)
        &&& self.extent matches Some(e) ==> 0 <= e.0 && 0 <= e.1
    }

    /// The cursor is on a character boundary.
    pub open spec fn on_boundary(self) -> bool {
        is_char_boundary(self.text, self.cursor)
    }

    /// The sticky column is at most the cursor's column, unless the cursor is
    /// in the last column of its line. Every operation that sets the sticky
    /// column or moves by a line leaves the document so.
    pub open spec fn sticky_in_reach(self) -> bool {
        self.sticky <= self.column() || self.column() == max_column(self.text, self.line())
    }

    /// Index of the line that holds the cursor.
    pub open spec fn line(self) -> int {
        line_of_byte(self.text, self.cursor)
    }

    /// Byte offset of the cursor within its line.
    pub open spec fn column(self) -> int {
        self.cursor - line_start_byte(self.text, self.line())
    }

    /// Index of the character that holds the cursor.
    pub open spec fn cursor_char(self) -> int {
        char_of_byte(self.text, self.cursor)
    }

    /// The same document with the cursor elsewhere.
    pub open spec fn with_cursor(self, cursor: int) -> DocView {
        DocView { cursor, ..self }
    }

    /// The same document in another mode.
    pub open spec fn with_mode(self, mode: Mode) -> DocView {
        DocView { mode, ..self }
    }

    /// The same document with another first visible line.
    pub open spec fn with_scroll_top(self, scroll_top: int) -> DocView {
        DocView { scroll_top, ..self }
    }

    /// Whether the document holds a syntax tree.
    pub open spec fn has_tree(self) -> bool {
        self.tree.is_some()
    }

    /// The same document with another syntax tree, or with none.
    pub open spec fn with_tree(self, tree: Option<tree_sitter::Tree>) -> DocView {
        DocView { tree, ..self }
    }

    /// The syntax tree of the document, if it holds one, was told of `edit`.
    pub open spec fn told(self, edit: EditDescriptor) -> DocView {
        self.with_tree(
            match self.tree {
                Some(tree) => Some(edited_tree(tree, edit)),
                None => None,
            },
        )
    }

    /// The sticky column is set to the cursor's column.
    pub open spec fn refreshed(self) -> DocView {
        DocView { sticky: self.column(), ..self }
    }

    /// The first visible line is brought back into the text.
    pub open spec fn scroll_kept_in_text(self) -> DocView {
        self.with_scroll_top(min(self.scroll_top, last_line(self.text)))
    }

    /// The cursor goes to `line` and `column`, as far as the text reaches.
    pub open spec fn moved_to(self, line: int, column: int) -> DocView {
        self.with_cursor(move_target(self.text, line, column))
    }

    /// One line up, to the cursor's column or the sticky column, whichever is
    /// further right.
    pub open spec fn moved_up(self) -> DocView {
        self.moved_to(max(self.line() - 1, 0), max(self.column(), self.sticky))
    }

    /// One line down, to the cursor's column or the sticky column, whichever
    /// is further right.
    pub open spec fn moved_down(self) -> DocView {
        self.moved_to(self.line() + 1, max(self.column(), self.sticky))
    }

    /// One byte to the left within the line; the sticky column follows.
    pub open spec fn moved_left(self) -> DocView {
        self.moved_to(self.line(), max(self.column() - 1, 0)).refreshed()
    }

    /// One byte to the right within the line; the sticky column follows.
    pub open spec fn moved_right(self) -> DocView {
        self.moved_to(self.line(), self.column() + 1).refreshed()
    }

    /// Byte offset of the start of the next word.
    pub open spec fn next_word(self) -> int {
        byte_of_char(self.text, next_word_char(self.text, self.cursor_char())) as int
    }

    /// Byte offset of the end of the next word.
    pub open spec fn next_word_end(self) -> int {
        byte_of_char(self.text, next_word_end_char(self.text, self.cursor_char())) as int
    }

    /// Byte offset of the start of the previous word.
    pub open spec fn prev_word_start(self) -> int {
        byte_of_char(self.text, prev_word_start_char(self.text, self.cursor_char())) as int
    }

    /// To the start of the next word; the sticky column follows.
    pub open spec fn moved_next_word(self) -> DocView {
        self.with_cursor(self.next_word()).refreshed()
    }

    /// To the end of the next word; the sticky column follows.
    pub open spec fn moved_next_word_end(self) -> DocView {
        self.with_cursor(self.next_word_end()).refreshed()
    }

    /// To the start of the previous word; the sticky column follows.
    pub open spec fn moved_prev_word_start(self) -> DocView {
        self.with_cursor(self.prev_word_start()).refreshed()
    }

    /// The inclusive range of bytes that is selected. An anchor past the end
    /// of the text counts as the end of the text. Outside a selection the
    /// range is the cursor's byte alone.
    pub open spec fn selection(self) -> (int, int) {
        match self.mode {
            Mode::Select { start_byte, line_mode } => selection_span(
                self.text,
                min(start_byte as int, byte_len(self.text) as int),
                self.cursor,
                line_mode,
            ),
            _ => (self.cursor, self.cursor),
        }
    }

    /// The window moves up by a line, if there is one above.
    pub open spec fn scrolled_up(self) -> DocView {
        self.with_scroll_top(max(self.scroll_top - 1, 0))
    }

    /// The window moves down by a line, as long as its first line is a line
    /// of the text.
    pub open spec fn scrolled_down(self) -> DocView {
        self.with_scroll_top(min(self.scroll_top + 1, last_line(self.text)))
    }

    /// The window is moved as little as brings the cursor's line into its
    /// rows. Nothing happens before the first rendering.
    pub open spec fn scrolled_to_cursor(self) -> DocView {
        match self.extent {
            Some((rows, _)) => self.with_scroll_top(
                clamped(self.scroll_top, max(self.line() - max(rows - 1, 0), 0), self.line()),
            ),
            None => self,
        }
    }

    /// The cursor is moved as little as brings its line into the window, and
    /// to the sticky column there. Nothing happens before the first rendering.
    pub open spec fn moved_to_view(self) -> DocView {
        match self.extent {
            Some((rows, _)) => self.moved_to(
                clamped(self.line(), self.scroll_top, max(self.scroll_top + rows - 1, 0)),
                self.sticky,
            ),
            None => self,
        }
    }

    /// The text after `ch` was typed.
    pub open spec fn text_inserted(self, ch: char) -> Seq<char> {
        self.text.insert(self.cursor_char(), ch)
    }

    /// `ch` is typed in front of the cursor's character, and the cursor goes
    /// by the width of `ch` to the right; the sticky column follows.
    pub open spec fn inserted(self, ch: char) -> DocView {
        DocView {
            text: self.text_inserted(ch),
            cursor: self.cursor + char_width(ch),
            ..self
        }.refreshed()
    }

    /// The edit that typing `ch` amounts to: nothing is replaced, and the new
    /// text reaches from the cursor to where the cursor goes.
    pub open spec fn insert_edit(self, ch: char, edit: EditDescriptor) -> bool {
        edit.describes(
            self.text,
            self.text_inserted(ch),
            self.cursor,
            self.cursor,
            self.cursor + char_width(ch),
        )
    }

    /// Whether a character stands in front of the cursor's character.
    pub open spec fn can_remove_before(self) -> bool {
        self.cursor_char() > 0
    }

    /// Byte offset of the character in front of the cursor's character.
    pub open spec fn preceding_byte(self) -> int {
        byte_of_char(self.text, self.cursor_char() - 1) as int
    }

    /// The character in front of the cursor's character is deleted, if there
    /// is one, and the cursor goes to where it stood. The first visible line
    /// stays a line of the text, and the sticky column follows the cursor.
    pub open spec fn removed_before(self) -> DocView {
        if self.can_remove_before() {
            DocView {
                text: self.text.remove(self.cursor_char() - 1),
                cursor: self.preceding_byte(),
                ..self
            }.scroll_kept_in_text().refreshed()
        } else {
            self
        }
    }

    /// The edit that a backspace amounts to: the bytes from the preceding
    /// character to the cursor give way to nothing.
    pub open spec fn remove_before_edit(self, edit: EditDescriptor) -> bool {
        edit.describes(
            self.text,
            self.text,
            self.preceding_byte(),
            self.cursor,
            self.preceding_byte(),
        )
    }

    /// Index of the first character that deleting the selection takes out.
    pub open spec fn removed_first(self) -> int {
        char_of_byte(self.text, self.selection().0)
    }

    /// Index of the last character that deleting the selection takes out.
    pub open spec fn removed_last(self) -> int {
        min(char_of_byte(self.text, self.selection().1), self.text.len() - 1)
    }

    /// The text after the selection was deleted.
    pub open spec fn text_removed(self) -> Seq<char> {
        without_range(self.text, self.removed_first(), self.removed_last() + 1)
    }

    /// The characters from the one that holds the first byte of the
    /// selection to the one that holds its last byte are deleted; where the
    /// selection ends at the end of the text, the last character stands for
    /// the one that holds its last byte. Nothing is deleted of an empty text.
    /// The cursor goes to the first byte of the selection, or to the end of
    /// the text if that lies before it, and the anchor of a selection goes
    /// with it. The first visible line stays a line of the
    /// text, the sticky column follows the cursor, and the window follows it
    /// as `scrolled_to_cursor` says.
    pub open spec fn removed(self) -> DocView {
        if byte_len(self.text) == 0 {
            self
        } else {
            let cursor = min(self.selection().0, byte_len(self.text_removed()) as int);
            DocView {
                text: self.text_removed(),
                cursor,
                mode: match self.mode {
                    Mode::Select { start_byte, line_mode } => Mode::Select {
                        start_byte: cursor as usize,
                        line_mode,
                    },
                    m => m,
                },
                ..self
            }.scroll_kept_in_text().refreshed().scrolled_to_cursor()
        }
    }

    /// The edit that deleting the selection amounts to: the bytes from the
    /// start of the selection to its end give way to nothing.
    pub open spec fn remove_edit(self, edit: EditDescriptor) -> bool {
        edit.describes(
            self.text,
            self.text,
            self.selection().0,
            self.selection().1,
            self.selection().0,
        )
    }
}

} // verus!
