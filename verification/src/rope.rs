//! What the document takes on trust from the rope that stores its text.
//!
//! The rope is opaque to the verifier. Its contents are named by
//! [`rope_text`], and each of the rope's methods that the document calls is
//! given a contract over that name and the text model of [`crate::text`].
//! None of these contracts is proved: they restate the rope's documentation.
use crate::text::{
    byte_len, byte_of_char, char_of_byte, line_count, line_of_byte, line_start, line_start_byte,
    without_range,
};
use vstd::prelude::*;

verus! {

/// `ropey::Rope`, of which the verifier sees nothing but what the contracts
/// below say.
#[verifier::external_type_specification]
#[verifier::external_body]
pub struct ExRope(ropey::Rope);

/// The characters that a rope holds, in order.
pub uninterp spec fn rope_text(rope: ropey::Rope) -> Seq<char>;

/// `Rope::new`: a new rope holds no text.
pub assume_specification[ ropey::Rope::new ]() -> (rope: ropey::Rope)
    ensures
        rope_text(rope) == Seq::<char>::empty(),
;

/// `Rope::len_bytes`: the length of the text's UTF-8 encoding.
pub assume_specification[ ropey::Rope::len_bytes ](rope: &ropey::Rope) -> (n: usize)
    ensures
        n == byte_len(rope_text(*rope)),
;

/// `Rope::len_chars`: the number of characters.
pub assume_specification[ ropey::Rope::len_chars ](rope: &ropey::Rope) -> (n: usize)
    ensures
        n == rope_text(*rope).len(),
;

/// `Rope::len_lines`: one more than the number of line breaks, where each of
/// LF, VT, FF, CR, NEL, LS, PS is a line break and CR LF is a single one.
pub assume_specification[ ropey::Rope::len_lines ](rope: &ropey::Rope) -> (n: usize)
    ensures
        n == line_count(rope_text(*rope)),
;

/// `Rope::byte_to_char`: the index of the character that the byte belongs to,
/// also for a byte in the middle of a character; the number of characters for
/// the offset one past the end. It panics on a larger offset.
pub assume_specification[ ropey::Rope::byte_to_char ](rope: &ropey::Rope, byte_idx: usize) -> (n:
    usize)
    requires
        byte_idx <= byte_len(rope_text(*rope)),
    ensures
        n == char_of_byte(rope_text(*rope), byte_idx as int),
;

/// `Rope::byte_to_line`: the index of the line that holds the byte, which is
/// the number of line breaks that end before the character the byte belongs
/// to; the index of the last line for the offset one past the end. It panics
/// on a larger offset.
pub assume_specification[ ropey::Rope::byte_to_line ](rope: &ropey::Rope, byte_idx: usize) -> (n:
    usize)
    requires
        byte_idx <= byte_len(rope_text(*rope)),
    ensures
        n == line_of_byte(rope_text(*rope), byte_idx as int),
;

/// `Rope::char_to_byte`: the byte offset at which the character starts; the
/// length in bytes for the index one past the end. It panics on a larger
/// index.
pub assume_specification[ ropey::Rope::char_to_byte ](rope: &ropey::Rope, char_idx: usize) -> (n:
    usize)
    requires
        char_idx <= rope_text(*rope).len(),
    ensures
        n == byte_of_char(rope_text(*rope), char_idx as int),
;

/// `Rope::line_to_byte`: the byte offset at which the line starts; the length
/// in bytes for the index one past the last line. It panics on a larger index.
pub assume_specification[ ropey::Rope::line_to_byte ](rope: &ropey::Rope, line_idx: usize) -> (n:
    usize)
    requires
        line_idx <= line_count(rope_text(*rope)),
    ensures
        n == line_start_byte(rope_text(*rope), line_idx as int),
;

/// `Rope::line_to_char`: the index of the line's first character; the number
/// of characters for the index one past the last line. It panics on a larger
/// index.
pub assume_specification[ ropey::Rope::line_to_char ](rope: &ropey::Rope, line_idx: usize) -> (n:
    usize)
    requires
        line_idx <= line_count(rope_text(*rope)),
    ensures
        n == line_start(rope_text(*rope), line_idx as int),
;

/// `Rope::char`: the character with the given index. It panics on an index
/// that is not below the number of characters.
pub assume_specification[ ropey::Rope::char ](rope: &ropey::Rope, char_idx: usize) -> (c: char)
    requires
        char_idx < rope_text(*rope).len(),
    ensures
        c == rope_text(*rope)[char_idx as int],
;

/// `Rope::chunk_at_byte`: the piece of the text that the rope stores in one
/// run and that holds the byte, with the byte offset and the character index
/// at which the piece starts. A byte of the text lies inside its piece; the
/// offset one past the end gives the last piece. It panics on a larger offset.
pub assume_specification[ ropey::Rope::chunk_at_byte ](rope: &ropey::Rope, byte_idx: usize) -> (chunk:
    (&str, usize, usize, usize))
    requires
        byte_idx <= byte_len(rope_text(*rope)),
    ensures
        chunk.2 + chunk.0@.len() <= rope_text(*rope).len(),
        chunk.0@ == rope_text(*rope).subrange(chunk.2 as int, chunk.2 + chunk.0@.len()),
        chunk.1 == byte_of_char(rope_text(*rope), chunk.2 as int),
        chunk.1 <= byte_idx <= chunk.1 + byte_len(chunk.0@),
        byte_idx < byte_len(rope_text(*rope)) ==> byte_idx < chunk.1 + byte_len(chunk.0@),
;

/// `Rope::insert_char`: the character is put in front of the one that had the
/// given index. It panics on an index above the number of characters.
pub assume_specification[ ropey::Rope::insert_char ](
    rope: &mut ropey::Rope,
    char_idx: usize,
    ch: char,
)
    requires
        char_idx <= rope_text(*old(rope)).len(),
    ensures
        rope_text(*final(rope)) == rope_text(*old(rope)).insert(char_idx as int, ch),
;

/// `Rope::remove` with an inclusive range: the characters `first..=last` are
/// taken out. The rope turns the range into `first..last + 1` and panics
/// where that range is reversed or ends past the text.
#[verifier::external_body]
pub(crate) fn remove_chars(rope: &mut ropey::Rope, first: usize, last: usize)
    requires
        first <= last + 1 <= rope_text(*old(rope)).len(),
    ensures
        rope_text(*final(rope)) == without_range(rope_text(*old(rope)), first as int, last + 1),
{
    rope.remove(first..=last)
}

} // verus!
