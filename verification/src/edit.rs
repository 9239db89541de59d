//! The description of one change of the text, as an incremental parser needs
//! it to patch its syntax tree.
use crate::text::{line_of_byte, line_start_byte};
use vstd::prelude::*;

verus! {

/// A position in a text as a line and a byte offset within that line, both
/// counted from zero.
#[derive(Debug, Clone, Copy, PartialEq, Eq, Structural)]
pub struct Point {
    pub row: usize,
    pub column: usize,
}

/// One change of a text: the bytes from `start_byte` to `old_end_byte` of the
/// text before the change were replaced, and the replacement reaches to
/// `new_end_byte` in the text after it. Each offset comes with its point.
#[derive(Debug, Clone, Copy, PartialEq, Eq, Structural)]
pub struct EditDescriptor {
    pub start_byte: usize,
    pub old_end_byte: usize,
    pub new_end_byte: usize,
    pub start_point: Point,
    pub old_end_point: Point,
    pub new_end_point: Point,
}

/// Line and column of the byte at offset `b` in text `s`.
pub open spec fn point_at(s: Seq<char>, b: int) -> (int, int) {
    (line_of_byte(s, b), b - line_start_byte(s, line_of_byte(s, b)))
}

impl Point {
    /// This point is where offset `b` lies in text `s`.
    pub open spec fn is_at(self, s: Seq<char>, b: int) -> bool {
        self.row == point_at(s, b).0 && self.column == point_at(s, b).1
    }
}

impl EditDescriptor {
    /// Start and old end are offsets `start` and `old_end` of text `before`,
    /// with their points there; the new end is offset `new_end` of text
    /// `after`, with its point there.
    pub open spec fn describes(
        self,
        before: Seq<char>,
        after: Seq<char>,
        start: int,
        old_end: int,
        new_end: int,
    ) -> bool {
        &&& self.start_byte == start
        &&& self.old_end_byte == old_end
        &&& self.new_end_byte == new_end
        &&& self.start_point.is_at(before, start)
        &&& self.old_end_point.is_at(before, old_end)
        &&& self.new_end_point.is_at(after, new_end)
    }

    /// By how many bytes the described change makes the text longer; negative
    /// where it makes it shorter.
    pub open spec fn byte_delta(self) -> int {
        self.new_end_byte - self.old_end_byte
    }
}

} // verus!
