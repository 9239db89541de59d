//! The document: a rope of text with a cursor, a mode, a selection and a
//! viewport, and the operations that an editor performs on it.
//!
//! Every operation is total: a move past the text is clamped, a deletion in an
//! empty text does nothing, and scrolling before the first rendering is
//! ignored. What an operation does is stated over the document's view, a
//! [`DocView`], by the function of the same name in [`crate::model`].
use crate::edit::{EditDescriptor, Point};
use crate::mode::{CharKind, Mode};
use crate::model::{clamped, DocView};
use crate::rope::{remove_chars, rope_text};
use crate::syntax::{apply_edit, parse_text};
use crate::text::{
    byte_len, lemma_byte_of_char_bounded, lemma_byte_of_char_ends, lemma_byte_of_char_monotone,
    lemma_char_of_byte, lemma_char_of_byte_monotone, lemma_insert_bytes,
    lemma_insert_keeps_lines, lemma_line_of_byte, lemma_line_start_byte,
    lemma_without_range_bytes, line_count, utf8_width, without_range,
};
use crate::words::{
    next_transition, next_word_char, prev_transition, prev_word_start_char,
};
use vstd::prelude::*;

verus! {

/// A text under edit. The cursor is a byte offset into the text and never
/// lies past its end; the first visible line is always a line of the text.
pub struct Document {
    content: ropey::Rope,
    tree: Option<tree_sitter::Tree>,
    mode: Mode,
    cursor_byte: usize,
    sticky_column: usize,
    scroll_top_line: usize,
    last_view_extent: Option<(u16, u16)>,
}

impl View for Document {
    type V = DocView;

    closed spec fn view(&self) -> DocView {
        DocView {
            text: rope_text(self.content),
            cursor: self.cursor_byte as int,
            sticky: self.sticky_column as int,
            mode: self.mode,
            scroll_top: self.scroll_top_line as int,
            extent: match self.last_view_extent {
                Some((rows, columns)) => Some((rows as int, columns as int)),
                None => None,
            },
            tree: self.tree,
        }
    }
}

/// `x` brought into the range from `lo` to `hi`.
fn clamp(x: usize, lo: usize, hi: usize) -> (r: usize)
    ensures
        r == clamped(x as int, lo as int, hi as int),
{
    if x < lo {
        lo
    } else if x > hi {
        hi
    } else {
        x
    }
}

/// Number of blanks that a tab types with the cursor in column `column`: as
/// many as bring the cursor to the next column that four divides.
pub fn tab_fill(column: usize) -> (blanks: usize)
    ensures
        blanks == 4 - column % 4,
        1 <= blanks <= 4,
{
    4 - column % 4
}

impl Default for Document {
    /// An empty document.
    fn default() -> (doc: Document)
        ensures
            doc@ == (DocView {
                text: Seq::<char>::empty(),
                cursor: 0,
                sticky: 0,
                mode: Mode::Normal,
                scroll_top: 0,
                extent: None,
                tree: None,
            }),
            doc@.wf(),
    {
        Document::new(ropey::Rope::new())
    }
}

impl Document {
    #[verifier::type_invariant]
    closed spec fn inv(&self) -> bool {
        &&& self.cursor_byte <= byte_len(rope_text(self.content))
        &&& self.scroll_top_line < line_count(rope_text(self.content))
    }

    /// A document of the given text, in normal mode, with the cursor at the
    /// start and no syntax tree yet.
    pub fn new(content: ropey::Rope) -> (doc: Document)
        ensures
            doc@ == (DocView {
                text: rope_text(content),
                cursor: 0,
                sticky: 0,
                mode: Mode::Normal,
                scroll_top: 0,
                extent: None,
                tree: None,
            }),
            doc@.wf(),
    {
        Document {
            content,
            tree: None,
            mode: Mode::Normal,
            cursor_byte: 0,
            sticky_column: 0,
            scroll_top_line: 0,
            last_view_extent: None,
        }
    }

    pub fn enter_normal(&mut self)
        ensures
            final(self)@ == old(self)@.with_mode(Mode::Normal),
            final(self)@.wf(),
    {
        proof {
            use_type_invariant(&*self);
        }
        self.mode = Mode::Normal;
    }

    pub fn enter_insert(&mut self)
        ensures
            final(self)@ == old(self)@.with_mode(Mode::Insert),
            final(self)@.wf(),
    {
        proof {
            use_type_invariant(&*self);
        }
        self.mode = Mode::Insert;
    }

    /// Begins a character-wise selection at the cursor.
    pub fn enter_select(&mut self)
        ensures
            final(self)@ == old(self)@.with_mode(
                Mode::Select { start_byte: old(self)@.cursor as usize, line_mode: false },
            ),
            final(self)@.wf(),
    {
        proof {
            use_type_invariant(&*self);
        }
        self.mode = Mode::Select { start_byte: self.cursor_byte, line_mode: false };
    }

    /// Begins a line-wise selection at the cursor.
    pub fn enter_select_line(&mut self)
        ensures
            final(self)@ == old(self)@.with_mode(
                Mode::Select { start_byte: old(self)@.cursor as usize, line_mode: true },
            ),
            final(self)@.wf(),
    {
        proof {
            use_type_invariant(&*self);
        }
        self.mode = Mode::Select { start_byte: self.cursor_byte, line_mode: true };
    }

    pub fn mode(&self) -> (mode: Mode)
        ensures
            mode == self@.mode,
    {
        self.mode
    }

    pub fn rope(&self) -> (rope: &ropey::Rope)
        ensures
            rope_text(*rope) == self@.text,
    {
        &self.content
    }

    pub fn cursor_byte(&self) -> (byte: usize)
        ensures
            byte == self@.cursor,
    {
        self.cursor_byte
    }

    /// The syntax tree, if the text was parsed.
    pub fn tree(&self) -> (tree: Option<&tree_sitter::Tree>)
        ensures
            tree.is_some() == self@.has_tree(),
            tree matches Some(held) ==> self@.tree == Some(*held),
    {
        self.tree.as_ref()
    }

    /// Parses the text, reusing what the edits since the last parse left
    /// alone of the tree, and keeps the new tree. Where the parser returns
    /// none, the tree stays as it was. Returns whether the parser returned a
    /// tree.
    pub fn parse(&mut self, parser: &mut tree_sitter::Parser) -> (parsed: bool)
        ensures
            final(self)@ == old(self)@.with_tree(final(self)@.tree),
            parsed ==> final(self)@.has_tree(),
            !parsed ==> final(self)@.tree == old(self)@.tree,
            final(self)@.wf(),
    {
        proof {
            use_type_invariant(&*self);
        }
        let mut held = None;
        core::mem::swap(&mut self.tree, &mut held);
        match parse_text(parser, &self.content, held.as_ref()) {
            Some(tree) => {
                self.tree = Some(tree);
                true
            },
            None => {
                self.tree = held;
                false
            },
        }
    }

    /// Index of the first visible line.
    pub fn scroll_top_line(&self) -> (line: usize)
        ensures
            line == self@.scroll_top,
    {
        self.scroll_top_line
    }

    /// The column that vertical moves aim for.
    pub fn sticky_column(&self) -> (column: usize)
        ensures
            column == self@.sticky,
    {
        self.sticky_column
    }

    /// Rows and columns of the text area at the last rendering, if any.
    pub fn last_view_extent(&self) -> (extent: Option<(u16, u16)>)
        ensures
            extent.is_some() == self@.extent.is_some(),
            extent matches Some(e) ==> self@.extent == Some((e.0 as int, e.1 as int)),
    {
        self.last_view_extent
    }

    /// Records the rows and columns of the text area.
    pub(crate) fn set_view_extent(&mut self, rows: u16, columns: u16)
        ensures
            final(self)@ == old(self)@.rendered(rows as int, columns as int),
            final(self)@.wf() == old(self)@.wf(),
    {
        proof {
            use_type_invariant(&*self);
        }
        self.last_view_extent = Some((rows, columns));
    }

    /// The cursor's byte offset within its line, and the index of that line.
    pub fn position(&self) -> (pos: (usize, usize))
        ensures
            pos.0 == self@.column(),
            pos.1 == self@.line(),
            self@.wf(),
    {
        proof {
            use_type_invariant(self);
            lemma_line_of_byte(self@.text, self@.cursor);
        }
        let line_idx = self.content.byte_to_line(self.cursor_byte);
        let line_start = self.content.line_to_byte(line_idx);
        (self.cursor_byte - line_start, line_idx)
    }

    /// Puts the cursor into `line_idx`, or into the last line if there is no
    /// such line, at byte `x_byte` of the line, or at the largest column that
    /// the line allows if it is shorter. The column is a byte offset: in a
    /// line with characters of several bytes the cursor can come to lie
    /// inside one.
    pub fn move_to(&mut self, line_idx: usize, x_byte: usize)
        ensures
            final(self)@ == old(self)@.moved_to(line_idx as int, x_byte as int),
            final(self)@.wf(),
    {
        proof {
            use_type_invariant(&*self);
        }
        let last_line_idx = self.content.len_lines() - 1;
        let line_idx = line_idx.min(last_line_idx);
        proof {
            lemma_line_start_byte(self@.text, line_idx as int);
        }
        let line_start = self.content.line_to_byte(line_idx);
        let line_end = self.content.line_to_byte(line_idx + 1);
        let line_len = line_end - line_start;
        let max_x_offset = if line_idx == last_line_idx {
            line_len
        } else {
            line_len - 1
        };
        let x_offset = x_byte.min(max_x_offset);
        self.cursor_byte = line_start + x_offset;
    }

    /// Sets the sticky column to the cursor's column.
    fn update_sticky_column(&mut self)
        ensures
            final(self)@ == old(self)@.refreshed(),
            final(self)@.wf(),
    {
        let (x, _) = self.position();
        self.sticky_column = x;
    }

    /// One line up, to the cursor's column or the sticky column, whichever is
    /// further right.
    pub fn move_up(&mut self)
        ensures
            final(self)@ == old(self)@.moved_up(),
            final(self)@.wf(),
    {
        let (x_offset, line_idx) = self.position();
        self.move_to(line_idx.saturating_sub(1), x_offset.max(self.sticky_column));
    }

    /// One line down, to the cursor's column or the sticky column, whichever
    /// is further right.
    pub fn move_down(&mut self)
        ensures
            final(self)@ == old(self)@.moved_down(),
            final(self)@.wf(),
    {
        let (x_offset, line_idx) = self.position();
        // The number of lines fits a `usize`, and so the index of the next line.
        let len_lines = self.content.len_lines();
        proof {
            lemma_line_of_byte(self@.text, self@.cursor);
        }
        self.move_to(line_idx + 1, x_offset.max(self.sticky_column));
    }

    /// One byte to the left within the line; the sticky column follows.
    pub fn move_left(&mut self)
        ensures
            final(self)@ == old(self)@.moved_left(),
            final(self)@.wf(),
    {
        let (x_offset, line_idx) = self.position();
        self.move_to(line_idx, x_offset.saturating_sub(1));
        self.update_sticky_column();
    }

    /// One byte to the right within the line; the sticky column follows.
    pub fn move_right(&mut self)
        ensures
            final(self)@ == old(self)@.moved_right(),
            final(self)@.wf(),
    {
        let (x_offset, line_idx) = self.position();
        // No column is larger than the text is long, so a column that
        // saturates is clamped to the same place as the next one would be.
        let len_bytes = self.content.len_bytes();
        proof {
            lemma_line_of_byte(self@.text, self@.cursor);
            lemma_line_start_byte(self@.text, line_idx as int);
        }
        self.move_to(line_idx, x_offset.saturating_add(1));
        self.update_sticky_column();
    }

    /// The inclusive range of bytes that is selected: from the smaller to the
    /// larger of anchor and cursor, or, line-wise, the lines from the one to
    /// the other. Outside a selection it is the cursor's byte alone.
    pub fn selection(&self) -> (range: (usize, usize))
        ensures
            range.0 == self@.selection().0,
            range.1 == self@.selection().1,
            range.0 <= range.1 <= byte_len(self@.text),
            self@.wf(),
    {
        proof {
            use_type_invariant(self);
        }
        let cursor = self.cursor_byte;
        match self.mode {
            Mode::Select { start_byte, line_mode } => {
                let anchor = start_byte.min(self.content.len_bytes());
                if line_mode {
                    let start_line_idx = self.content.byte_to_line(anchor);
                    let end_line_idx = self.content.byte_to_line(cursor);
                    let first_line_idx = start_line_idx.min(end_line_idx);
                    let last_line_idx = start_line_idx.max(end_line_idx);
                    proof {
                        lemma_line_of_byte(self@.text, anchor as int);
                        lemma_line_of_byte(self@.text, cursor as int);
                        lemma_line_start_byte(self@.text, first_line_idx as int);
                        lemma_line_start_byte(self@.text, last_line_idx as int);
                    }
                    // The number of lines fits a `usize`, and so does
                    // `last_line_idx + 1`.
                    let len_lines = self.content.len_lines();
                    let end_line_len = self.content.line_to_char(last_line_idx + 1)
                        - self.content.line_to_char(last_line_idx);
                    let start_byte = self.content.line_to_byte(first_line_idx);
                    let end_byte = (self.content.line_to_byte(last_line_idx)
                        + end_line_len).saturating_sub(1);
                    (start_byte.min(end_byte), start_byte.max(end_byte))
                } else {
                    (cursor.min(anchor), cursor.max(anchor))
                }
            },
            _ => (cursor, cursor),
        }
    }

    /// Line and column of a byte of the text.
    fn byte_to_point(&self, byte: usize) -> (point: Point)
        requires
            byte <= byte_len(self@.text),
        ensures
            point.is_at(self@.text, byte as int),
    {
        proof {
            lemma_line_of_byte(self@.text, byte as int);
        }
        let row = self.content.byte_to_line(byte);
        let column = byte - self.content.line_to_byte(row);
        Point { row, column }
    }

    /// Takes the text out of the document, which is left empty. The text is
    /// changed outside the document and put back with a cursor that fits it,
    /// so that the document is well formed at every step.
    fn take_content(&mut self) -> (content: ropey::Rope)
        ensures
            rope_text(content) == old(self)@.text,
            final(self)@ == (DocView {
                text: Seq::<char>::empty(),
                cursor: 0,
                scroll_top: 0,
                ..old(self)@
            }),
            final(self).cursor_byte == 0,
            final(self).scroll_top_line == 0,
    {
        proof {
            use_type_invariant(&*self);
        }
        let mut content = ropey::Rope::new();
        self.cursor_byte = 0;
        self.scroll_top_line = 0;
        core::mem::swap(&mut self.content, &mut content);
        content
    }

    /// Puts a text into the emptied document, with the cursor and the first
    /// visible line that go with it.
    fn put_content(&mut self, content: ropey::Rope, cursor_byte: usize, scroll_top_line: usize)
        requires
            old(self).cursor_byte == 0,
            old(self).scroll_top_line == 0,
            cursor_byte <= byte_len(rope_text(content)),
            scroll_top_line < line_count(rope_text(content)),
        ensures
            final(self)@ == (DocView {
                text: rope_text(content),
                cursor: cursor_byte as int,
                scroll_top: scroll_top_line as int,
                ..old(self)@
            }),
    {
        let mut content = content;
        core::mem::swap(&mut self.content, &mut content);
        self.cursor_byte = cursor_byte;
        self.scroll_top_line = scroll_top_line;
    }

    /// Tells the syntax tree, if there is one, of a change of the text.
    /// Nothing else of the document changes.
    fn notify_edit(&mut self, edit: &EditDescriptor)
        ensures
            final(self)@ == old(self)@.told(*edit),
    {
        proof {
            use_type_invariant(&*self);
        }
        let mut held = None;
        core::mem::swap(&mut self.tree, &mut held);
        match held {
            Some(mut tree) => {
                apply_edit(&mut tree, edit);
                self.tree = Some(tree);
            },
            None => {},
        }
    }

    /// Types `ch` in front of the cursor's character and puts the cursor
    /// behind it. Returns the edit that the syntax tree was told of.
    pub fn insert(&mut self, ch: char) -> (edit: EditDescriptor)
        ensures
            final(self)@ == old(self)@.inserted(ch).told(edit),
            old(self)@.insert_edit(ch, edit),
            final(self)@.wf(),
    {
        proof {
            use_type_invariant(&*self);
            lemma_char_of_byte(self@.text, self@.cursor);
            lemma_insert_bytes(self@.text, self@.cursor_char(), ch);
            lemma_insert_keeps_lines(self@.text, self@.cursor_char(), ch);
        }
        let start = self.cursor_byte;
        let scroll_top_line = self.scroll_top_line;
        let start_point = self.byte_to_point(start);
        let idx = self.content.byte_to_char(start);
        let mut content = self.take_content();
        content.insert_char(idx, ch);
        // The new length fits a `usize`, and so does the new end.
        let len_bytes = content.len_bytes();
        let new_end = start + utf8_width(ch);
        self.put_content(content, new_end, scroll_top_line);
        let new_end_point = self.byte_to_point(new_end);
        let edit = EditDescriptor {
            start_byte: start,
            old_end_byte: start,
            new_end_byte: new_end,
            start_point,
            old_end_point: start_point,
            new_end_point,
        };
        self.notify_edit(&edit);
        self.update_sticky_column();
        edit
    }

    /// Deletes the character in front of the cursor's character, if there is
    /// one, and puts the cursor where it stood. Returns the edit that the
    /// syntax tree was told of, or `None` where nothing was deleted.
    pub fn remove_before(&mut self) -> (edit: Option<EditDescriptor>)
        ensures
            edit.is_some() == old(self)@.can_remove_before(),
            edit matches Some(e) ==> old(self)@.remove_before_edit(e) && final(self)@ == old(
                self,
            )@.removed_before().told(e),
            edit.is_none() ==> final(self)@ == old(self)@,
            final(self)@.wf(),
    {
        proof {
            use_type_invariant(&*self);
            lemma_char_of_byte(self@.text, self@.cursor);
        }
        let at = self.content.byte_to_char(self.cursor_byte);
        if at == 0 {
            return None;
        }
        let idx = at - 1;
        proof {
            lemma_byte_of_char_monotone(self@.text, idx as int, at as int);
            lemma_without_range_bytes(self@.text, idx as int, at as int);
            lemma_byte_of_char_bounded(without_range(self@.text, idx as int, at as int), idx as int);
            assert(self@.text.remove(idx as int) =~= without_range(
                self@.text,
                idx as int,
                at as int,
            ));
        }
        let byte_idx = self.content.char_to_byte(idx);
        let point = self.byte_to_point(byte_idx);
        let end_point = self.byte_to_point(self.cursor_byte);
        let edit = EditDescriptor {
            start_byte: byte_idx,
            old_end_byte: self.cursor_byte,
            new_end_byte: byte_idx,
            start_point: point,
            old_end_point: end_point,
            new_end_point: point,
        };
        self.notify_edit(&edit);
        let scroll_top_line = self.scroll_top_line;
        let mut content = self.take_content();
        remove_chars(&mut content, idx, idx);
        let last_line_idx = content.len_lines() - 1;
        self.put_content(content, byte_idx, scroll_top_line.min(last_line_idx));
        self.update_sticky_column();
        Some(edit)
    }

    /// Deletes the selection; outside a selection, the cursor's character.
    /// The cursor goes to where the deleted range began, and so does the
    /// anchor of a selection. Nothing happens in an empty document. Returns
    /// the edit that the syntax tree was told of, or `None` where the document
    /// was empty.
    pub fn remove(&mut self) -> (edit: Option<EditDescriptor>)
        ensures
            edit.is_some() == (byte_len(old(self)@.text) > 0),
            edit matches Some(e) ==> old(self)@.remove_edit(e) && final(self)@ == old(
                self,
            )@.removed().told(e),
            edit.is_none() ==> final(self)@ == old(self)@,
            final(self)@.wf(),
    {
        proof {
            use_type_invariant(&*self);
        }
        if self.content.len_bytes() == 0 {
            return None;
        }
        let range = self.selection();
        let start_point = self.byte_to_point(range.0);
        let end_point = self.byte_to_point(range.1);
        let edit = EditDescriptor {
            start_byte: range.0,
            old_end_byte: range.1,
            new_end_byte: range.0,
            start_point,
            old_end_point: end_point,
            new_end_point: start_point,
        };
        self.notify_edit(&edit);
        proof {
            lemma_byte_of_char_bounded(self@.text, self@.text.len() as int);
            lemma_char_of_byte(self@.text, range.0 as int);
            lemma_char_of_byte(self@.text, range.1 as int);
            lemma_char_of_byte_monotone(self@.text, range.0 as int, range.1 as int);
        }
        let start_char = self.content.byte_to_char(range.0);
        let end_char = self.content.byte_to_char(range.1).min(self.content.len_chars() - 1);
        let scroll_top_line = self.scroll_top_line;
        let mut content = self.take_content();
        remove_chars(&mut content, start_char, end_char);
        let cursor_byte = range.0.min(content.len_bytes());
        let last_line_idx = content.len_lines() - 1;
        self.put_content(content, cursor_byte, scroll_top_line.min(last_line_idx));
        match self.mode {
            Mode::Select { start_byte: _, line_mode } => {
                self.mode = Mode::Select { start_byte: cursor_byte, line_mode };
            },
            _ => {},
        }
        self.update_sticky_column();
        self.scroll_to_cursor();
        Some(edit)
    }

    /// Byte offset of the first character after the cursor's that differs in
    /// class from the one before it, if there is one.
    fn find_next_word(&self) -> (found: Option<usize>)
        ensures
            found matches Some(byte) ==> byte == self@.next_word() && byte <= byte_len(
                self@.text,
            ),
            found.is_none() ==> self@.next_word() == byte_len(self@.text),
    {
        proof {
            use_type_invariant(self);
            lemma_char_of_byte(self@.text, self@.cursor);
            lemma_byte_of_char_ends(self@.text);
        }
        let len_chars = self.content.len_chars();
        let at = self.content.byte_to_char(self.cursor_byte);
        if at >= len_chars {
            return None;
        }
        let mut idx = at + 1;
        let mut before = CharKind::new(self.content.char(at));
        while idx < len_chars
            invariant
                at < idx <= len_chars,
                len_chars == self@.text.len(),
                at == self@.cursor_char(),
                before == CharKind::of(self@.text[idx - 1]),
                next_word_char(self@.text, at as int) == next_transition(self@.text, idx as int),
            decreases len_chars - idx,
        {
            let kind = CharKind::new(self.content.char(idx));
            if kind != before {
                proof {
                    lemma_byte_of_char_bounded(self@.text, idx as int);
                }
                return Some(self.content.char_to_byte(idx));
            }
            before = kind;
            idx += 1;
        }
        None
    }

    /// Byte offset of the last character of the first run that ends after the
    /// character following the cursor's, if a run ends there before the text
    /// does.
    fn find_next_word_end(&self) -> (found: Option<usize>)
        ensures
            found matches Some(byte) ==> byte == self@.next_word_end() && byte <= byte_len(
                self@.text,
            ),
            found.is_none() ==> self@.next_word_end() == byte_len(self@.text),
    {
        proof {
            use_type_invariant(self);
            lemma_char_of_byte(self@.text, self@.cursor);
            lemma_byte_of_char_ends(self@.text);
        }
        let len_chars = self.content.len_chars();
        let at = self.content.byte_to_char(self.cursor_byte);
        if len_chars - at < 2 {
            return None;
        }
        let mut idx = at + 2;
        let mut before = CharKind::new(self.content.char(at + 1));
        while idx < len_chars
            invariant
                at + 2 <= idx <= len_chars,
                len_chars == self@.text.len(),
                at == self@.cursor_char(),
                before == CharKind::of(self@.text[idx - 1]),
                next_transition(self@.text, at + 2) == next_transition(self@.text, idx as int),
            decreases len_chars - idx,
        {
            let kind = CharKind::new(self.content.char(idx));
            if kind != before {
                proof {
                    lemma_byte_of_char_bounded(self@.text, idx - 1);
                }
                return Some(self.content.char_to_byte(idx - 1));
            }
            before = kind;
            idx += 1;
        }
        None
    }

    /// Byte offset of the last character before the cursor's that differs in
    /// class from the one before it, if there is one.
    fn find_prev_word_start(&self) -> (found: Option<usize>)
        ensures
            found matches Some(byte) ==> byte == self@.prev_word_start() && byte <= byte_len(
                self@.text,
            ),
            found.is_none() ==> self@.prev_word_start() == 0,
    {
        proof {
            use_type_invariant(self);
            lemma_char_of_byte(self@.text, self@.cursor);
            lemma_byte_of_char_ends(self@.text);
        }
        let len_chars = self.content.len_chars();
        let at = self.content.byte_to_char(self.cursor_byte);
        if at < 2 {
            return None;
        }
        let mut idx = at - 1;
        let mut after = CharKind::new(self.content.char(idx));
        while idx > 0
            invariant
                idx < at <= len_chars,
                len_chars == self@.text.len(),
                at == self@.cursor_char(),
                after == CharKind::of(self@.text[idx as int]),
                prev_word_start_char(self@.text, at as int) == prev_transition(
                    self@.text,
                    idx as int,
                ),
            decreases idx,
        {
            let kind = CharKind::new(self.content.char(idx - 1));
            if kind != after {
                proof {
                    lemma_byte_of_char_bounded(self@.text, idx as int);
                }
                return Some(self.content.char_to_byte(idx));
            }
            after = kind;
            idx -= 1;
        }
        None
    }

    /// To the start of the next word, or to the end of the text; the sticky
    /// column follows.
    pub fn move_next_word(&mut self)
        ensures
            final(self)@ == old(self)@.moved_next_word(),
            final(self)@.wf(),
    {
        proof {
            use_type_invariant(&*self);
        }
        self.cursor_byte = match self.find_next_word() {
            Some(byte) => byte,
            None => self.content.len_bytes(),
        };
        self.update_sticky_column();
    }

    /// To the end of the next word, or to the end of the text; the sticky
    /// column follows.
    pub fn move_next_word_end(&mut self)
        ensures
            final(self)@ == old(self)@.moved_next_word_end(),
            final(self)@.wf(),
    {
        proof {
            use_type_invariant(&*self);
        }
        self.cursor_byte = match self.find_next_word_end() {
            Some(byte) => byte,
            None => self.content.len_bytes(),
        };
        self.update_sticky_column();
    }

    /// To the start of the previous word, or to the start of the text; the
    /// sticky column follows.
    pub fn move_prev_word_start(&mut self)
        ensures
            final(self)@ == old(self)@.moved_prev_word_start(),
            final(self)@.wf(),
    {
        proof {
            use_type_invariant(&*self);
        }
        self.cursor_byte = match self.find_prev_word_start() {
            Some(byte) => byte,
            None => 0,
        };
        self.update_sticky_column();
    }

    /// Shows one line more at the top, if there is one.
    pub fn scroll_up(&mut self)
        ensures
            final(self)@ == old(self)@.scrolled_up(),
            final(self)@.wf(),
    {
        proof {
            use_type_invariant(&*self);
        }
        self.scroll_top_line = self.scroll_top_line.saturating_sub(1);
    }

    /// Shows one line more at the bottom, as long as a line stays visible.
    pub fn scroll_down(&mut self)
        ensures
            final(self)@ == old(self)@.scrolled_down(),
            final(self)@.wf(),
    {
        proof {
            use_type_invariant(&*self);
        }
        let last_line_idx = self.content.len_lines() - 1;
        self.scroll_top_line = (self.scroll_top_line + 1).min(last_line_idx);
    }

    /// Moves the window as little as brings the cursor's line into it. Does
    /// nothing before the first rendering.
    pub fn scroll_to_cursor(&mut self)
        ensures
            final(self)@ == old(self)@.scrolled_to_cursor(),
            final(self)@.wf(),
    {
        let (_, y) = self.position();
        proof {
            lemma_line_of_byte(self@.text, self@.cursor);
        }
        match self.last_view_extent {
            Some((rows, _)) => {
                let top = y.saturating_sub(rows.saturating_sub(1) as usize);
                self.scroll_top_line = clamp(self.scroll_top_line, top, y);
            },
            None => {},
        }
    }

    /// Moves the cursor as little as brings its line into the window, and to
    /// the sticky column there. Does nothing before the first rendering.
    pub fn move_to_view(&mut self)
        ensures
            final(self)@ == old(self)@.moved_to_view(),
            final(self)@.wf(),
    {
        let (_, y) = self.position();
        proof {
            use_type_invariant(&*self);
            lemma_line_of_byte(self@.text, self@.cursor);
        }
        match self.last_view_extent {
            Some((rows, _)) => {
                // No line index is as large as `usize::MAX`, so a bottom that
                // saturates clamps the cursor's line as the true one would.
                let len_lines = self.content.len_lines();
                let bottom = self.scroll_top_line.saturating_add(rows as usize).saturating_sub(1);
                let y = clamp(y, self.scroll_top_line, bottom);
                self.move_to(y, self.sticky_column);
            },
            None => {},
        }
    }
}

} // verus!
