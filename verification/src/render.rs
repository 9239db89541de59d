//! The frame that a renderer paints: the visible characters of the document,
//! each with the style it is to have, and the cell of the cursor.
use crate::document::Document;
use crate::mode::Mode;
use crate::model::DocView;
use crate::rope::rope_text;
use crate::syntax::{captured_spans, highlight_captures, Language};
use crate::text::{
    byte_len, byte_of_char, lemma_byte_of_char_bounded, lemma_byte_of_char_monotone,
    lemma_byte_of_char_step,
    lemma_char_of_byte, lemma_line_of_byte, lemma_line_of_char, lemma_line_start, lemma_line_start_byte,
    lemma_line_start_monotone, line_char_len, line_count, line_start, utf8_width,
};
use vstd::math::min;
use vstd::prelude::*;

verus! {

/// A highlight span: the bytes from `start_byte` up to, not including,
/// `end_byte` belong to a token of the syntax class named `style`.
#[derive(Debug, Clone)]
pub struct TokenStyle<'style> {
    pub start_byte: usize,
    pub end_byte: usize,
    pub style: &'style str,
}

impl<'style> TokenStyle<'style> {
    pub fn new(start_byte: usize, end_byte: usize, style: &'style str) -> (span: Self)
        ensures
            span.start_byte == start_byte,
            span.end_byte == end_byte,
            span.style == style,
    {
        TokenStyle { start_byte, end_byte, style }
    }

    pub open spec fn holds(self, idx_byte: int) -> bool {
        self.start_byte <= idx_byte < self.end_byte
    }

    /// Whether the span holds the byte.
    pub fn contains(&self, idx_byte: usize) -> (b: bool)
        ensures
            b == self.holds(idx_byte as int),
    {
        self.start_byte <= idx_byte && idx_byte < self.end_byte
    }

    /// Whether the span ends before the byte, with at least one byte between.
    pub fn before(&self, idx_byte: usize) -> (b: bool)
        ensures
            b == (self.end_byte < idx_byte),
    {
        self.end_byte < idx_byte
    }

    /// Whether the span has ended at the byte: the byte and all after it lie
    /// behind the span.
    pub fn ended_at(&self, idx_byte: usize) -> (b: bool)
        ensures
            b == (self.end_byte <= idx_byte),
    {
        self.end_byte <= idx_byte
    }
}

/// The style that a cell is to have: that of its row, that of a syntax class,
/// or that of selected text.
#[derive(Debug, Clone, Copy, PartialEq, Eq)]
pub enum CellStyle<'style> {
    Line,
    Token(&'style str),
    Selection,
}

/// One character on the screen: what is shown for it, the syntax class that
/// its byte belongs to, if any, and whether it is selected.
#[derive(Debug, Clone, Copy, PartialEq, Eq)]
pub struct StyledCell<'style> {
    pub ch: char,
    pub token: Option<&'style str>,
    pub selected: bool,
}

impl<'style> StyledCell<'style> {
    /// The style that wins: that of the selection over that of the syntax
    /// class, and that of the syntax class over that of the row.
    pub open spec fn style_of(self) -> CellStyle<'style> {
        if self.selected {
            CellStyle::Selection
        } else {
            match self.token {
                Some(class) => CellStyle::Token(class),
                None => CellStyle::Line,
            }
        }
    }

    /// The style that the cell is to have.
    pub fn style(&self) -> (style: CellStyle<'style>)
        ensures
            style == self.style_of(),
    {
        if self.selected {
            CellStyle::Selection
        } else {
            match self.token {
                Some(class) => CellStyle::Token(class),
                None => CellStyle::Line,
            }
        }
    }
}

/// One row of the text area: the start of line `line`. The row is active when
/// the cursor is in its line.
#[derive(Debug, Clone)]
pub struct Row<'style> {
    pub line: usize,
    pub active: bool,
    pub cells: Vec<StyledCell<'style>>,
}

/// What a renderer needs to paint the document: the rows of the text area from
/// the top, the cell of the cursor as column and row if the cursor is to be
/// shown, a label for the mode, and the cursor's column and line for a status
/// line, both counted from zero.
#[derive(Debug, Clone)]
pub struct Frame<'style> {
    pub rows: Vec<Row<'style>>,
    pub cursor: Option<(u16, u16)>,
    pub mode_label: &'static str,
    pub column: usize,
    pub line: usize,
}

/// Index of the first span from index `k` on that ends after byte `b`, or the
/// number of spans when there is none.
pub open spec fn span_from(spans: Seq<TokenStyle>, k: int, b: int) -> int
    decreases spans.len() - k,
{
    if k >= spans.len() {
        spans.len() as int
    } else if spans[k].end_byte > b {
        k
    } else {
        span_from(spans, k + 1, b)
    }
}

/// The syntax class of the character at byte `b`: that of the first span that
/// ends after the byte, if that span holds the byte.
pub open spec fn token_at<'a>(spans: Seq<TokenStyle<'a>>, b: int) -> Option<&'a str> {
    let k = span_from(spans, 0, b);
    if k < spans.len() && spans[k].holds(b) {
        Some(spans[k].style)
    } else {
        None
    }
}

/// The spans are in order: each ends where it starts or later, and none
/// starts before the one in front of it has ended.
pub open spec fn spans_in_order(spans: Seq<TokenStyle>) -> bool {
    &&& forall|i: int|
        0 <= i < spans.len() ==> (#[trigger] spans[i]).start_byte <= spans[i].end_byte
    &&& forall|i: int, j: int|
        0 <= i < j < spans.len() ==> (#[trigger] spans[i]).end_byte <= (
        #[trigger] spans[j]).start_byte
}

/// The spans that are kept of `spans` so that what is kept is in order: going
/// through them from the first, each span that ends where it starts or later
/// and that starts where the last kept span ends or later.
pub open spec fn kept_in_order<'a>(spans: Seq<TokenStyle<'a>>) -> Seq<TokenStyle<'a>>
    decreases spans.len(),
{
    if spans.len() == 0 {
        spans
    } else {
        let kept = kept_in_order(spans.drop_last());
        if fits_behind(kept, spans.last()) {
            kept.push(spans.last())
        } else {
            kept
        }
    }
}

/// The span ends where it starts or later, and starts where the last of
/// `kept` ends or later.
pub open spec fn fits_behind(kept: Seq<TokenStyle>, span: TokenStyle) -> bool {
    &&& span.start_byte <= span.end_byte
    &&& kept.len() > 0 ==> kept.last().end_byte <= span.start_byte
}

/// What is shown for a character: a blank for a line feed, else the character.
pub open spec fn shown_char(c: char) -> char {
    if c == '\n' {
        ' '
    } else {
        c
    }
}

/// Number of cells in the row of line `l`: one for each character, as far as
/// the columns reach.
pub open spec fn row_len(s: Seq<char>, l: int, columns: int) -> int {
    min(line_char_len(s, l), columns)
}

/// The cells of the row of line `l`.
pub open spec fn row_cells<'a>(
    s: Seq<char>,
    spans: Seq<TokenStyle<'a>>,
    selection: (int, int),
    l: int,
    columns: int,
) -> Seq<StyledCell<'a>> {
    Seq::new(
        row_len(s, l, columns) as nat,
        |j: int|
            StyledCell {
                ch: shown_char(s[line_start(s, l) + j]),
                token: token_at(spans, byte_of_char(s, line_start(s, l) + j) as int),
                selected: selection.0 <= byte_of_char(s, line_start(s, l) + j) <= selection.1,
            },
    )
}

/// Number of decimal digits of `n`.
pub open spec fn decimal_digits(n: nat) -> nat
    decreases n,
{
    if n < 10 {
        1
    } else {
        1 + decimal_digits(n / 10)
    }
}

/// Ten to the power of `k`.
spec fn pow10(k: nat) -> nat
    decreases k,
{
    if k == 0 {
        1
    } else {
        10 * pow10((k - 1) as nat)
    }
}

/// Width of the column of line numbers before a text area of `rows` rows whose
/// first line has index `top`: the digits of the largest number that it may
/// have to show, and two blanks on either side.
pub open spec fn gutter_width_of(top: int, rows: int) -> int {
    (decimal_digits(min(top + rows, usize::MAX as int) as nat) + 4) as int
}

/// The label of a mode.
pub open spec fn mode_label_of(mode: Mode) -> Seq<char> {
    match mode {
        Mode::Normal => "NOR"@,
        Mode::Insert => "INS"@,
        Mode::Select { start_byte: _, line_mode: false } => "SEL"@,
        Mode::Select { start_byte: _, line_mode: true } => "LIN"@,
    }
}

impl DocView {
    /// Number of rows that show a line when the text area has `rows` rows.
    pub open spec fn visible_rows(self, rows: int) -> int {
        min(rows, line_count(self.text) - self.scroll_top)
    }

    /// The cell in which the cursor is shown, as column and row. A cursor on
    /// a character is shown on it. A cursor at the end of the text is shown
    /// behind the last character of its row. A cursor at the start of the line
    /// that follows the last visible row is shown behind that row's last
    /// character. In each case the cursor is shown only if the row reaches to
    /// it and the columns do.
    pub open spec fn cursor_cell(self, rows: int, columns: int) -> Option<(int, int)> {
        let line = self.line();
        let j = self.cursor_char() - line_start(self.text, line);
        let shown = self.visible_rows(rows);
        if !self.on_boundary() {
            None
        } else if self.scroll_top <= line < self.scroll_top + shown {
            if j <= row_len(self.text, line, columns) && j < columns {
                Some((j, line - self.scroll_top))
            } else {
                None
            }
        } else if shown > 0 && line == self.scroll_top + shown && j == 0 && line_char_len(
            self.text,
            line - 1,
        ) < columns {
            Some((line_char_len(self.text, line - 1), shown - 1))
        } else {
            None
        }
    }

    /// The frame shows this document in a text area of `rows` rows and
    /// `columns` columns, with the given highlight spans.
    pub open spec fn shown_in(self, frame: Frame, spans: Seq<TokenStyle>, rows: int, columns: int)
        -> bool {
        &&& frame.rows@.len() == self.visible_rows(rows)
        &&& forall|r: int|
            0 <= r < frame.rows@.len() ==> {
                &&& (#[trigger] frame.rows@[r]).line == self.scroll_top + r
                &&& frame.rows@[r].active == (self.scroll_top + r == self.line())
                &&& frame.rows@[r].cells@ == row_cells(
                    self.text,
                    spans,
                    self.selection(),
                    self.scroll_top + r,
                    columns,
                )
            }
        &&& match self.cursor_cell(rows, columns) {
            Some((x, y)) => frame.cursor == Some((x as u16, y as u16)),
            None => frame.cursor.is_none(),
        }
        &&& frame.mode_label@ == mode_label_of(self.mode)
        &&& frame.column == self.column()
        &&& frame.line == self.line()
    }

    /// The highlight spans of the document for a query: the captures of the
    /// query in the document's syntax tree, as far as they are in order, and
    /// none where the document has no tree.
    pub open spec fn highlighted(self, query: tree_sitter::Query) -> Seq<TokenStyle<'static>> {
        match self.tree {
            Some(tree) => kept_in_order(captured_spans(query, tree, self.text)),
            None => Seq::empty(),
        }
    }

    /// The document after a rendering into `rows` rows and `columns` columns.
    pub open spec fn rendered(self, rows: int, columns: int) -> DocView {
        DocView { extent: Some((rows, columns)), ..self }
    }
}

/// Spans that come before `k` and have ended at `b` do not matter to the
/// search for the first span that ends after `b`.
pub proof fn lemma_span_from_skips(spans: Seq<TokenStyle>, i: int, k: int, b: int)
    requires
        0 <= i <= k <= spans.len(),
        forall|q: int| i <= q < k ==> (#[trigger] spans[q]).end_byte <= b,
    ensures
        span_from(spans, i, b) == span_from(spans, k, b),
    decreases k - i,
{
    if i < k {
        lemma_span_from_skips(spans, i + 1, k, b);
    }
}

/// What `span_from` finds: the first span from `k` on that ends after `b`.
pub proof fn lemma_span_from_finds(spans: Seq<TokenStyle>, k: int, b: int)
    requires
        0 <= k,
    ensures
        k <= span_from(spans, k, b) || span_from(spans, k, b) == spans.len(),
        span_from(spans, k, b) <= spans.len(),
        span_from(spans, k, b) < spans.len() ==> spans[span_from(spans, k, b)].end_byte > b,
        forall|i: int| k <= i < span_from(spans, k, b) ==> (#[trigger] spans[i]).end_byte <= b,
    decreases spans.len() - k,
{
    if k < spans.len() && spans[k].end_byte <= b {
        lemma_span_from_finds(spans, k + 1, b);
    }
}

/// Whether the spans are in order: each ends where it starts or later, and
/// none starts before the one in front of it has ended.
pub fn spans_ordered(spans: &[TokenStyle]) -> (b: bool)
    ensures
        b == spans_in_order(spans@),
{
    let mut idx: usize = 0;
    while idx < spans.len()
        invariant
            idx <= spans@.len(),
            spans_in_order(spans@.take(idx as int)),
        decreases spans@.len() - idx,
    {
        if spans[idx].start_byte > spans[idx].end_byte {
            return false;
        }
        if idx > 0 && spans[idx - 1].end_byte > spans[idx].start_byte {
            return false;
        }
        proof {
            lemma_in_order_grows(spans@.take(idx + 1));
            assert(spans@.take(idx + 1).drop_last() =~= spans@.take(idx as int));
        }
        idx += 1;
    }
    assert(spans@.take(idx as int) =~= spans@);
    true
}

/// The spans that are kept of `spans` so that what is kept is in order. Spans
/// in order are all kept.
pub fn ordered_spans<'style>(spans: &[TokenStyle<'style>]) -> (kept: Vec<TokenStyle<'style>>)
    ensures
        kept@ == kept_in_order(spans@),
{
    let mut kept: Vec<TokenStyle<'style>> = Vec::new();
    let mut idx: usize = 0;
    while idx < spans.len()
        invariant
            idx <= spans@.len(),
            kept@ == kept_in_order(spans@.take(idx as int)),
        decreases spans@.len() - idx,
    {
        let span = &spans[idx];
        proof {
            assert(spans@.take(idx + 1).drop_last() =~= spans@.take(idx as int));
        }
        let fits = span.start_byte <= span.end_byte && (kept.len() == 0 || kept[kept.len()
            - 1].end_byte <= span.start_byte);
        if fits {
            kept.push(TokenStyle::new(span.start_byte, span.end_byte, span.style));
        }
        idx += 1;
    }
    assert(spans@.take(idx as int) =~= spans@);
    kept
}

/// Of spans in order all are kept.
pub proof fn lemma_ordered_spans_are_kept(spans: Seq<TokenStyle>)
    requires
        spans_in_order(spans),
    ensures
        kept_in_order(spans) == spans,
    decreases spans.len(),
{
    if spans.len() > 0 {
        let head = spans.drop_last();
        let n = head.len() as int;
        assert forall|i: int| 0 <= i < n implies head[i] == spans[i] by {}
        assert(spans_in_order(head)) by {
            assert forall|i: int| 0 <= i < n implies (#[trigger] head[i]).start_byte
                <= head[i].end_byte by {
                assert(head[i] == spans[i]);
            }
            assert forall|i: int, j: int| 0 <= i < j < n implies (#[trigger] head[i]).end_byte <= (
            #[trigger] head[j]).start_byte by {
                assert(head[i] == spans[i]);
                assert(head[j] == spans[j]);
            }
        }
        lemma_ordered_spans_are_kept(head);
        if n > 0 {
            assert(head[n - 1] == spans[n - 1]);
            assert(spans[n - 1].end_byte <= spans[n].start_byte);
        }
        assert(head.push(spans.last()) =~= spans);
    }
}

/// What is kept of spans is in order.
pub proof fn lemma_kept_spans_are_in_order(spans: Seq<TokenStyle>)
    ensures
        spans_in_order(kept_in_order(spans)),
    decreases spans.len(),
{
    if spans.len() > 0 {
        let kept = kept_in_order(spans.drop_last());
        lemma_kept_spans_are_in_order(spans.drop_last());
        if fits_behind(kept, spans.last()) {
            assert(kept.push(spans.last()).drop_last() =~= kept);
            lemma_in_order_grows(kept.push(spans.last()));
        }
    }
}

/// Spans are in order if all but the last are, the last ends where it starts
/// or later, and it starts where the one in front of it ends or later.
pub proof fn lemma_in_order_grows(spans: Seq<TokenStyle>)
    requires
        spans.len() > 0,
        spans_in_order(spans.drop_last()),
        fits_behind(spans.drop_last(), spans.last()),
    ensures
        spans_in_order(spans),
{
    let head = spans.drop_last();
    let n = head.len() as int;
    assert forall|i: int| 0 <= i < spans.len() implies (#[trigger] spans[i]).start_byte
        <= spans[i].end_byte by {
        if i < n {
            assert(head[i] == spans[i]);
        }
    }
    assert forall|i: int, j: int| 0 <= i < j < spans.len() implies (#[trigger] spans[i]).end_byte
        <= (#[trigger] spans[j]).start_byte by {
        assert(head[i] == spans[i]);
        if j < n {
            assert(head[j] == spans[j]);
        } else if i < n - 1 {
            assert(head[n - 1] == spans[n - 1]);
            assert(head[i].end_byte <= head[n - 1].start_byte);
        }
    }
}

/// Number of decimal digits of `n`.
pub fn decimal_width(n: usize) -> (digits: u16)
    ensures
        digits == decimal_digits(n as nat),
        1 <= digits <= 20,
{
    let mut rest = n;
    let mut digits: u16 = 1;
    proof {
        reveal_with_fuel(pow10, 21);
        assert(pow10(20) == 100000000000000000000);
    }
    while rest >= 10
        invariant
            1 <= digits <= 20,
            rest < pow10((21 - digits) as nat),
            decimal_digits(n as nat) == digits - 1 + decimal_digits(rest as nat),
        decreases rest,
    {
        proof {
            assert(pow10((21 - digits) as nat) == 10 * pow10((20 - digits) as nat));
            reveal_with_fuel(pow10, 2);
        }
        rest = rest / 10;
        digits += 1;
    }
    digits
}

/// The label of a mode: `NOR`, `INS`, `SEL` for a character-wise selection and
/// `LIN` for a line-wise one.
pub fn mode_label(mode: Mode) -> (label: &'static str)
    ensures
        label@ == mode_label_of(mode),
{
    match mode {
        Mode::Normal => "NOR",
        Mode::Insert => "INS",
        Mode::Select { start_byte: _, line_mode } => if line_mode {
            "LIN"
        } else {
            "SEL"
        },
    }
}

impl Document {
    /// Width of the column of line numbers before a text area of `rows` rows.
    pub fn gutter_width(&self, rows: u16) -> (width: u16)
        ensures
            width == gutter_width_of(self@.scroll_top, rows as int),
    {
        decimal_width(self.scroll_top_line().saturating_add(rows as usize)) + 4
    }

    /// The cell in which the cursor is shown in a text area of `rows` rows
    /// and `columns` columns, as column and row.
    pub fn cursor_cell(&self, rows: u16, columns: u16) -> (cell: Option<(u16, u16)>)
        ensures
            match self@.cursor_cell(rows as int, columns as int) {
                Some((x, y)) => cell == Some((x as u16, y as u16)),
                None => cell.is_none(),
            },
    {
        let rope = self.rope();
        let (_, line) = self.position();
        let cursor = self.cursor_byte();
        let top = self.scroll_top_line();
        proof {
            lemma_char_of_byte(self@.text, self@.cursor);
            lemma_line_of_byte(self@.text, self@.cursor);
            lemma_line_of_char(self@.text, self@.cursor_char());
            lemma_line_start_byte(self@.text, line as int);
        }
        let at = rope.byte_to_char(cursor);
        if rope.char_to_byte(at) != cursor {
            return None;
        }
        let j = at - rope.line_to_char(line);
        let len_lines = rope.len_lines();
        let width = columns as usize;
        let shown = (rows as usize).min(len_lines - top);
        if top <= line && line - top < shown {
            let row_len = (rope.line_to_char(line + 1) - rope.line_to_char(line)).min(width);
            if j <= row_len && j < width {
                Some((j as u16, (line - top) as u16))
            } else {
                None
            }
        } else if shown > 0 && line == top + shown && j == 0 {
            proof {
                lemma_line_start_byte(self@.text, line - 1);
            }
            let above = rope.line_to_char(line) - rope.line_to_char(line - 1);
            if above < width {
                Some((above as u16, (shown - 1) as u16))
            } else {
                None
            }
        } else {
            None
        }
    }

    /// Composes the frame that shows the document in a text area of `rows`
    /// rows and `columns` columns, with the given highlight spans, and records
    /// the size of the text area for the scrolling that follows.
    pub fn compose<'style>(&mut self, spans: &[TokenStyle<'style>], rows: u16, columns: u16) -> (frame:
        Frame<'style>)
        ensures
            final(self)@ == old(self)@.rendered(rows as int, columns as int),
            old(self)@.shown_in(frame, spans@, rows as int, columns as int),
            final(self)@.wf(),
    {
        let (x, y) = self.position();
        let selection = self.selection();
        let cursor = self.cursor_cell(rows, columns);
        let label = mode_label(self.mode());
        let top = self.scroll_top_line();
        let rope = self.rope();
        let len_lines = rope.len_lines();
        let len_bytes = rope.len_bytes();
        let len_chars = rope.len_chars();
        let width = columns as usize;
        let shown = (rows as usize).min(len_lines - top);
        let ghost text = self@.text;
        let ghost chosen = self@.selection();
        let mut out: Vec<Row<'style>> = Vec::new();
        let mut span_idx: usize = 0;
        let mut r: usize = 0;
        while r < shown
            invariant
                0 <= r <= shown,
                top + shown <= len_lines,
                len_lines == line_count(text),
                len_bytes == byte_len(text),
                len_chars == text.len(),
                text == rope_text(*rope),
                width == columns,
                chosen == (selection.0 as int, selection.1 as int),
                out@.len() == r,
                forall|i: int|
                    0 <= i < r ==> {
                        &&& (#[trigger] out@[i]).line == top + i
                        &&& out@[i].active == (top + i == y)
                        &&& out@[i].cells@ == row_cells(text, spans@, chosen, top + i, columns as int)
                    },
                span_idx <= spans@.len(),
                forall|q: int|
                    0 <= q < span_idx ==> (#[trigger] spans@[q]).end_byte <= byte_of_char(
                        text,
                        line_start(text, top + r),
                    ),
            decreases shown - r,
        {
            let line = top + r;
            proof {
                lemma_line_start(text, line as int);
                lemma_line_start(text, line + 1);
                lemma_line_start_monotone(text, line as int, line + 1);
            }
            let first = rope.line_to_char(line);
            let count = (rope.line_to_char(line + 1) - first).min(width);
            let mut byte = rope.line_to_byte(line);
            let mut cells: Vec<StyledCell<'style>> = Vec::new();
            let mut j: usize = 0;
            while j < count
                invariant
                    0 <= j <= count,
                    0 <= first,
                    first + count <= line_start(text, line + 1) <= text.len(),
                    first == line_start(text, line as int),
                    count == row_len(text, line as int, columns as int),
                    len_bytes == byte_len(text),
                    len_chars == text.len(),
                    text == rope_text(*rope),
                    chosen == (selection.0 as int, selection.1 as int),
                    byte == byte_of_char(text, first + j),
                    cells@.len() == j,
                    forall|i: int|
                        0 <= i < j ==> (#[trigger] cells@[i]) == row_cells(
                            text,
                            spans@,
                            chosen,
                            line as int,
                            columns as int,
                        )[i],
                    span_idx <= spans@.len(),
                    forall|q: int|
                        0 <= q < span_idx ==> (#[trigger] spans@[q]).end_byte <= byte_of_char(
                            text,
                            first + j,
                        ),
                decreases count - j,
            {
                let ch = rope.char(first + j);
                while span_idx < spans.len() && spans[span_idx].ended_at(byte)
                    invariant
                        span_idx <= spans@.len(),
                        forall|q: int| 0 <= q < span_idx ==> (#[trigger] spans@[q]).end_byte <= byte,
                    decreases spans@.len() - span_idx,
                {
                    span_idx += 1;
                }
                proof {
                    lemma_span_from_skips(spans@, 0, span_idx as int, byte as int);
                    lemma_byte_of_char_step(text, first + j);
                    lemma_byte_of_char_bounded(text, first + j + 1);
                }
                let token = if span_idx < spans.len() && spans[span_idx].contains(byte) {
                    Some(spans[span_idx].style)
                } else {
                    None
                };
                let selected = selection.0 <= byte && byte <= selection.1;
                let shown_ch = if ch == '\n' {
                    ' '
                } else {
                    ch
                };
                cells.push(StyledCell { ch: shown_ch, token, selected });
                byte += utf8_width(ch);
                j += 1;
            }
            proof {
                assert(cells@ =~= row_cells(text, spans@, chosen, line as int, columns as int));
                lemma_byte_of_char_monotone(text, first + count, line_start(text, line + 1));
            }
            out.push(Row { line, active: line == y, cells });
            r += 1;
        }
        self.set_view_extent(rows, columns);
        Frame { rows: out, cursor, mode_label: label, column: x, line: y }
    }

    /// Parses the text, asks the language's query for the highlight spans and
    /// composes the frame with those of them that are in order: a span that
    /// begins before the one kept in front of it has ended is turned away.
    /// The document has a syntax tree afterwards if the parser gave one or if
    /// it had one before.
    pub fn render<'style>(&mut self, language: &'style mut Language, rows: u16, columns: u16) -> (frame:
        Frame<'style>)
        ensures
            final(self)@ == old(self)@.rendered(rows as int, columns as int).with_tree(
                final(self)@.tree,
            ),
            old(self)@.has_tree() ==> final(self)@.has_tree(),
            old(self)@.shown_in(
                frame,
                final(self)@.highlighted(old(language).held_query()),
                rows as int,
                columns as int,
            ),
            final(language).held_query() == old(language).held_query(),
            final(self)@.wf(),
    {
        self.parse(language.parser());
        let query = language.highlights();
        let spans = match self.tree() {
            Some(tree) => highlight_captures(query, tree, self.rope()),
            None => Vec::new(),
        };
        let spans = if spans_ordered(spans.as_slice()) {
            proof {
                lemma_ordered_spans_are_kept(spans@);
            }
            spans
        } else {
            ordered_spans(spans.as_slice())
        };
        let ghost before = self@;
        let frame = self.compose(spans.as_slice(), rows, columns);
        proof {
            assert(spans@ == before.highlighted(old(language).held_query()));
            assert(before.shown_in(frame, spans@, rows as int, columns as int));
        }
        frame
    }
}

} // verus!
