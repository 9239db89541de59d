//! The mathematical model of a text buffer.
//!
//! A text is a `Seq<char>`. Everything the editor needs to know about a text
//! is defined here as a spec function on that sequence: how many bytes its
//! UTF-8 encoding takes, where each character starts, which byte offsets are
//! character boundaries, and how the text divides into lines.
use vstd::prelude::*;
use vstd::utf8::{encode_scalar, encode_utf8};

verus! {

/// Number of bytes that the UTF-8 encoding of `c` occupies.
pub open spec fn char_width(c: char) -> nat {
    if (c as u32) < 0x80 {
        1
    } else if (c as u32) < 0x800 {
        2
    } else if (c as u32) < 0x10000 {
        3
    } else {
        4
    }
}

/// Number of bytes that the UTF-8 encoding of `c` occupies.
pub fn utf8_width(c: char) -> (n: usize)
    ensures
        n == char_width(c),
{
    let v: u32 = c as u32;
    if v < 0x80 {
        1
    } else if v < 0x800 {
        2
    } else if v < 0x10000 {
        3
    } else {
        4
    }
}

/// Number of bytes that the UTF-8 encoding of `s` occupies.
pub open spec fn byte_len(s: Seq<char>) -> nat
    decreases s.len(),
{
    if s.len() == 0 {
        0
    } else {
        byte_len(s.drop_last()) + char_width(s.last())
    }
}

/// Byte offset at which the character with index `i` starts. For `i == s.len()`
/// this is the length of the text in bytes.
pub open spec fn byte_of_char(s: Seq<char>, i: int) -> nat {
    byte_len(s.take(i))
}

/// Index of the character that the byte at offset `b` belongs to: the largest
/// `i` with `byte_of_char(s, i) <= b`. An offset at or past the end of the text
/// gives `s.len()`.
pub open spec fn char_of_byte(s: Seq<char>, b: int) -> int
    decreases s.len(),
{
    if s.len() == 0 || b >= byte_len(s) {
        s.len() as int
    } else {
        char_of_byte(s.drop_last(), b)
    }
}

/// A byte offset is a character boundary when some character starts there, or
/// when it is the end of the text.
pub open spec fn is_char_boundary(s: Seq<char>, b: int) -> bool {
    0 <= b <= byte_len(s) && byte_of_char(s, char_of_byte(s, b)) == b
}

/// Every character of the text is encoded in a single byte.
pub open spec fn single_byte_text(s: Seq<char>) -> bool {
    forall|i: int| 0 <= i < s.len() ==> char_width(#[trigger] s[i]) == 1
}

/// Every character of line `l` is encoded in a single byte.
pub open spec fn single_byte_line(s: Seq<char>, l: int) -> bool {
    forall|i: int| line_start(s, l) <= i < line_start(s, l + 1) ==> char_width(#[trigger] s[i]) == 1
}

/// The characters that end a line: LF, VT, FF, CR, NEL, LS and PS.
pub open spec fn is_line_break(c: char) -> bool {
    c == '\u{000A}' || c == '\u{000B}' || c == '\u{000C}' || c == '\u{000D}' || c == '\u{0085}'
        || c == '\u{2028}' || c == '\u{2029}'
}

/// The character with index `i` is the last one of a line. A CR that is
/// directly followed by LF does not end the line: the pair is one line break,
/// which ends with the LF.
pub open spec fn ends_line(s: Seq<char>, i: int) -> bool {
    &&& 0 <= i < s.len()
    &&& is_line_break(s[i])
    &&& !(s[i] == '\u{000D}' && i + 1 < s.len() && s[i + 1] == '\u{000A}')
}

/// Number of lines that end before the character with index `n`.
pub open spec fn breaks_before(s: Seq<char>, n: int) -> nat
    decreases n,
{
    if n <= 0 {
        0
    } else {
        breaks_before(s, n - 1) + if ends_line(s, n - 1) {
            1nat
        } else {
            0nat
        }
    }
}

/// Number of lines of the text. A text always has at least one line; a text
/// that ends with a line break has an empty last line.
pub open spec fn line_count(s: Seq<char>) -> nat {
    breaks_before(s, s.len() as int) + 1
}

/// Index of the last line.
pub open spec fn last_line(s: Seq<char>) -> int {
    line_count(s) - 1
}

/// Index of the line that holds the character with index `c`.
pub open spec fn line_of_char(s: Seq<char>, c: int) -> int {
    breaks_before(s, c) as int
}

/// The first character index at or after `c` that has at least `l` line ends
/// before it, or `s.len()` when there is none.
pub open spec fn first_with_breaks(s: Seq<char>, l: int, c: int) -> int
    decreases s.len() - c,
{
    if c >= s.len() || breaks_before(s, c) >= l {
        c
    } else {
        first_with_breaks(s, l, c + 1)
    }
}

/// Index of the first character of line `l`. For `l == line_count(s)` this is
/// `s.len()`.
pub open spec fn line_start(s: Seq<char>, l: int) -> int {
    first_with_breaks(s, l, 0)
}

/// Number of characters of line `l`, its line break included.
pub open spec fn line_char_len(s: Seq<char>, l: int) -> int {
    line_start(s, l + 1) - line_start(s, l)
}

/// Index of the line that holds the byte at offset `b`.
pub open spec fn line_of_byte(s: Seq<char>, b: int) -> int {
    line_of_char(s, char_of_byte(s, b))
}

/// Byte offset at which line `l` starts.
pub open spec fn line_start_byte(s: Seq<char>, l: int) -> int {
    byte_of_char(s, line_start(s, l)) as int
}

/// Number of bytes of line `l`, its line break included.
pub open spec fn line_byte_len(s: Seq<char>, l: int) -> int {
    line_start_byte(s, l + 1) - line_start_byte(s, l)
}

/// The text with the characters in `[from, to)` taken out.
pub open spec fn without_range(s: Seq<char>, from: int, to: int) -> Seq<char> {
    s.subrange(0, from) + s.subrange(to, s.len() as int)
}

/// One more character adds its width to the length in bytes.
pub proof fn lemma_byte_len_push(s: Seq<char>, c: char)
    ensures
        byte_len(s.push(c)) == byte_len(s) + char_width(c),
{
    assert(s.push(c).drop_last() =~= s);
}

/// Two texts in a row take the bytes of the one and those of the other.
pub proof fn lemma_byte_len_concat(a: Seq<char>, b: Seq<char>)
    ensures
        byte_len(a + b) == byte_len(a) + byte_len(b),
    decreases b.len(),
{
    if b.len() == 0 {
        assert(a + b =~= a);
    } else {
        lemma_byte_len_concat(a, b.drop_last());
        assert((a + b).drop_last() =~= a + b.drop_last());
    }
}

/// The first character starts at byte 0, and the text ends at its length in
/// bytes.
pub proof fn lemma_byte_of_char_ends(s: Seq<char>)
    ensures
        byte_of_char(s, 0) == 0,
        byte_of_char(s, s.len() as int) == byte_len(s),
{
    assert(s.take(s.len() as int) =~= s);
}

/// A character starts where the one before it starts, plus that one's width.
pub proof fn lemma_byte_of_char_step(s: Seq<char>, i: int)
    requires
        0 <= i < s.len(),
    ensures
        byte_of_char(s, i + 1) == byte_of_char(s, i) + char_width(s[i]),
{
    assert(s.take(i + 1).drop_last() =~= s.take(i));
}

/// Characters further right start further right, by at least one byte each.
pub proof fn lemma_byte_of_char_monotone(s: Seq<char>, i: int, j: int)
    requires
        0 <= i <= j <= s.len(),
    ensures
        byte_of_char(s, i) + (j - i) <= byte_of_char(s, j),
        byte_of_char(s, j) <= byte_of_char(s, i) + 4 * (j - i),
    decreases j - i,
{
    if i < j {
        lemma_byte_of_char_monotone(s, i, j - 1);
        lemma_byte_of_char_step(s, j - 1);
    }
}

/// A character starts at or after the byte of its own index, and within the
/// text.
pub proof fn lemma_byte_of_char_bounded(s: Seq<char>, i: int)
    requires
        0 <= i <= s.len(),
    ensures
        i <= byte_of_char(s, i) <= byte_len(s),
{
    lemma_byte_of_char_ends(s);
    lemma_byte_of_char_monotone(s, 0, i);
    lemma_byte_of_char_monotone(s, i, s.len() as int);
}

/// What `char_of_byte` returns: the character whose bytes hold offset `b`.
pub proof fn lemma_char_of_byte(s: Seq<char>, b: int)
    requires
        0 <= b,
    ensures
        0 <= char_of_byte(s, b) <= s.len(),
        byte_of_char(s, char_of_byte(s, b)) <= b,
        char_of_byte(s, b) < s.len() ==> b < byte_of_char(s, char_of_byte(s, b) + 1),
        char_of_byte(s, b) == s.len() <==> b >= byte_len(s),
    decreases s.len(),
{
    lemma_byte_of_char_ends(s);
    if s.len() == 0 || b >= byte_len(s) {
    } else {
        let t = s.drop_last();
        lemma_char_of_byte(t, b);
        let k = char_of_byte(t, b);
        assert(s.take(k) =~= t.take(k));
        if k < t.len() {
            assert(s.take(k + 1) =~= t.take(k + 1));
        } else {
            lemma_byte_of_char_ends(t);
            assert(s.take(k + 1) =~= s);
        }
    }
}

/// The character whose bytes hold offset `b` is the only one that starts at or
/// before `b` while the next one starts after it.
pub proof fn lemma_char_of_byte_unique(s: Seq<char>, b: int, i: int)
    requires
        0 <= i <= s.len(),
        byte_of_char(s, i) <= b,
        i < s.len() ==> b < byte_of_char(s, i + 1),
    ensures
        char_of_byte(s, b) == i,
{
    lemma_char_of_byte(s, b);
    let k = char_of_byte(s, b);
    lemma_byte_of_char_ends(s);
    if k < i {
        lemma_byte_of_char_monotone(s, k + 1, i);
    } else if i < k {
        lemma_byte_of_char_monotone(s, i + 1, k);
    }
}

/// Where a character starts is a character boundary, and the byte there
/// belongs to that character.
pub proof fn lemma_char_of_byte_of_char(s: Seq<char>, i: int)
    requires
        0 <= i <= s.len(),
    ensures
        char_of_byte(s, byte_of_char(s, i) as int) == i,
        is_char_boundary(s, byte_of_char(s, i) as int),
{
    if i < s.len() {
        lemma_byte_of_char_step(s, i);
    }
    lemma_char_of_byte_unique(s, byte_of_char(s, i) as int, i);
    lemma_byte_of_char_bounded(s, i);
}

/// A byte further right belongs to the same character or to one further
/// right.
pub proof fn lemma_char_of_byte_monotone(s: Seq<char>, a: int, b: int)
    requires
        0 <= a <= b,
    ensures
        char_of_byte(s, a) <= char_of_byte(s, b),
{
    lemma_char_of_byte(s, a);
    lemma_char_of_byte(s, b);
    let i = char_of_byte(s, a);
    let j = char_of_byte(s, b);
    if j < i {
        lemma_byte_of_char_monotone(s, j + 1, i);
    }
}

/// Through a run of single-byte characters the byte offset grows as the
/// character index does.
pub proof fn lemma_single_byte_run(s: Seq<char>, from: int, n: int)
    requires
        0 <= from,
        0 <= n,
        from + n <= s.len(),
        forall|i: int| from <= i < from + n ==> char_width(#[trigger] s[i]) == 1,
    ensures
        byte_of_char(s, from + n) == byte_of_char(s, from) + n,
    decreases n,
{
    if n > 0 {
        lemma_single_byte_run(s, from, n - 1);
        lemma_byte_of_char_step(s, from + n - 1);
    }
}

/// In a text of single-byte characters a character's index is its byte offset,
/// so every offset up to the length is a character boundary.
pub proof fn lemma_single_byte_text(s: Seq<char>, i: int)
    requires
        single_byte_text(s),
        0 <= i <= s.len(),
    ensures
        byte_of_char(s, i) == i,
        byte_len(s) == s.len(),
        is_char_boundary(s, i),
{
    lemma_single_byte_prefix(s, i);
    lemma_single_byte_prefix(s, s.len() as int);
    lemma_byte_of_char_ends(s);
    lemma_char_of_byte_of_char(s, i);
}

/// In a text of single-byte characters a character's index is its byte offset.
proof fn lemma_single_byte_prefix(s: Seq<char>, i: int)
    requires
        single_byte_text(s),
        0 <= i <= s.len(),
    ensures
        byte_of_char(s, i) == i,
    decreases i,
{
    if i > 0 {
        lemma_single_byte_prefix(s, i - 1);
        lemma_byte_of_char_step(s, i - 1);
    }
}

/// Line ends accumulate: between two positions the count grows by at most one
/// for each character passed.
pub proof fn lemma_breaks_monotone(s: Seq<char>, i: int, j: int)
    requires
        0 <= i <= j,
    ensures
        breaks_before(s, i) <= breaks_before(s, j) <= breaks_before(s, i) + (j - i),
    decreases j - i,
{
    if i < j {
        lemma_breaks_monotone(s, i, j - 1);
    }
}

/// What the search for a line start finds.
proof fn lemma_first_with_breaks(s: Seq<char>, l: int, c: int)
    requires
        0 <= c <= s.len(),
        c > 0 ==> breaks_before(s, c - 1) < l,
        0 <= l,
    ensures
        c <= first_with_breaks(s, l, c) <= s.len(),
        first_with_breaks(s, l, c) > 0 ==> breaks_before(s, first_with_breaks(s, l, c) - 1) < l,
        l <= breaks_before(s, s.len() as int) ==> breaks_before(s, first_with_breaks(s, l, c))
            >= l,
        l > breaks_before(s, s.len() as int) ==> first_with_breaks(s, l, c) == s.len(),
    decreases s.len() - c,
{
    if c >= s.len() || breaks_before(s, c) >= l {
        lemma_breaks_monotone(s, c, s.len() as int);
    } else {
        lemma_first_with_breaks(s, l, c + 1);
    }
}

/// Where line `l` starts: at the first position that has `l` line ends before
/// it. Line 0 starts at 0, and the line after the last one at the end of the
/// text.
pub proof fn lemma_line_start(s: Seq<char>, l: int)
    requires
        0 <= l <= line_count(s),
    ensures
        0 <= line_start(s, l) <= s.len(),
        l < line_count(s) ==> breaks_before(s, line_start(s, l)) == l,
        l == line_count(s) ==> line_start(s, l) == s.len(),
        l == 0 ==> line_start(s, l) == 0,
        l > 0 ==> line_start(s, l) > 0 || s.len() == 0,
        line_start(s, l) > 0 ==> breaks_before(s, line_start(s, l) - 1) < l,
{
    lemma_first_with_breaks(s, l, 0);
    let c = line_start(s, l);
    if c > 0 {
        assert(breaks_before(s, c) <= breaks_before(s, c - 1) + 1);
    }
}

/// Later lines start later, and every line but the last holds at least its
/// line break.
pub proof fn lemma_line_start_monotone(s: Seq<char>, l: int, m: int)
    requires
        0 <= l <= m <= line_count(s),
    ensures
        line_start(s, l) <= line_start(s, m),
        l < m ==> line_start(s, l) < line_start(s, m) || (m == line_count(s) && line_start(s, l)
            == s.len()),
        l < m < line_count(s) ==> line_start(s, l) < line_start(s, m),
{
    lemma_line_start(s, l);
    lemma_line_start(s, m);
    let a = line_start(s, l);
    let b = line_start(s, m);
    if l < m {
        if m < line_count(s) {
            if b <= a {
                lemma_breaks_monotone(s, b, a);
            }
        }
    }
}

/// A character lies in the line that `line_of_char` names: at or after that
/// line's start and before the start of the next.
pub proof fn lemma_line_of_char(s: Seq<char>, c: int)
    requires
        0 <= c <= s.len(),
    ensures
        0 <= line_of_char(s, c) < line_count(s),
        line_start(s, line_of_char(s, c)) <= c,
        c <= line_start(s, line_of_char(s, c) + 1),
        line_of_char(s, c) < last_line(s) ==> c < line_start(s, line_of_char(s, c) + 1),
{
    let l = line_of_char(s, c);
    lemma_breaks_monotone(s, c, s.len() as int);
    lemma_line_start(s, l);
    lemma_line_start(s, l + 1);
    let a = line_start(s, l);
    if c < a {
        lemma_breaks_monotone(s, c, a - 1);
    }
    let b = line_start(s, l + 1);
    if l < last_line(s) {
        if b <= c {
            lemma_breaks_monotone(s, b, c);
        }
    }
}

/// A position between the start of line `l` and the start of the next line is
/// in line `l`; in the last line the end of the text counts too.
pub proof fn lemma_line_holds(s: Seq<char>, l: int, c: int)
    requires
        0 <= l < line_count(s),
        line_start(s, l) <= c <= s.len(),
        c < line_start(s, l + 1) || l == last_line(s),
    ensures
        line_of_char(s, c) == l,
{
    lemma_line_start(s, l);
    lemma_line_start(s, l + 1);
    lemma_breaks_monotone(s, line_start(s, l), c);
    if l == last_line(s) {
        lemma_breaks_monotone(s, c, s.len() as int);
    } else {
        let b = line_start(s, l + 1);
        lemma_breaks_monotone(s, c, b - 1);
    }
}

/// Byte offsets of line starts are ordered as the lines are, and a line takes
/// at least as many bytes as it has characters.
pub proof fn lemma_line_start_byte(s: Seq<char>, l: int)
    requires
        0 <= l < line_count(s),
    ensures
        0 <= line_start_byte(s, l) <= line_start_byte(s, l + 1) <= byte_len(s),
        0 <= line_char_len(s, l) <= line_byte_len(s, l),
        l < last_line(s) ==> 1 <= line_char_len(s, l),
        l == 0 ==> line_start_byte(s, l) == 0,
        l == last_line(s) ==> line_start_byte(s, l + 1) == byte_len(s),
        is_char_boundary(s, line_start_byte(s, l)),
{
    lemma_line_start(s, l);
    lemma_line_start(s, l + 1);
    lemma_line_start_monotone(s, l, l + 1);
    lemma_byte_of_char_monotone(s, line_start(s, l), line_start(s, l + 1));
    lemma_byte_of_char_bounded(s, line_start(s, l + 1));
    lemma_byte_of_char_ends(s);
    lemma_char_of_byte_of_char(s, line_start(s, l));
}

/// A byte lies in the line that `line_of_byte` names.
pub proof fn lemma_line_of_byte(s: Seq<char>, b: int)
    requires
        0 <= b <= byte_len(s),
    ensures
        0 <= line_of_byte(s, b) < line_count(s),
        line_start_byte(s, line_of_byte(s, b)) <= b,
        b <= line_start_byte(s, line_of_byte(s, b) + 1),
        line_of_byte(s, b) < last_line(s) ==> b < line_start_byte(s, line_of_byte(s, b) + 1),
{
    lemma_char_of_byte(s, b);
    let k = char_of_byte(s, b);
    lemma_line_of_char(s, k);
    let l = line_of_char(s, k);
    lemma_line_start(s, l);
    lemma_line_start(s, l + 1);
    lemma_byte_of_char_monotone(s, line_start(s, l), k);
    lemma_byte_of_char_ends(s);
    if k < s.len() {
        lemma_byte_of_char_monotone(s, k + 1, line_start(s, l + 1));
    }
}

/// A byte between the start of line `l` and the start of the next line is in
/// line `l`; in the last line the end of the text counts too.
pub proof fn lemma_line_holds_byte(s: Seq<char>, l: int, b: int)
    requires
        0 <= l < line_count(s),
        line_start_byte(s, l) <= b <= byte_len(s),
        b < line_start_byte(s, l + 1) || l == last_line(s),
    ensures
        line_of_byte(s, b) == l,
{
    lemma_char_of_byte(s, b);
    let k = char_of_byte(s, b);
    lemma_line_start(s, l);
    lemma_line_start(s, l + 1);
    let a = line_start(s, l);
    let e = line_start(s, l + 1);
    if k < a {
        lemma_byte_of_char_monotone(s, k + 1, a);
    }
    if l != last_line(s) {
        if e <= k {
            lemma_byte_of_char_monotone(s, e, k);
        }
    }
    lemma_line_holds(s, l, k);
}

/// The byte lengths of a text and of the same text with one more character.
pub proof fn lemma_insert_bytes(s: Seq<char>, i: int, c: char)
    requires
        0 <= i <= s.len(),
    ensures
        byte_len(s.insert(i, c)) == byte_len(s) + char_width(c),
        byte_of_char(s.insert(i, c), i) == byte_of_char(s, i),
        byte_of_char(s.insert(i, c), i + 1) == byte_of_char(s, i) + char_width(c),
{
    let t = s.insert(i, c);
    assert(t.take(i) =~= s.take(i));
    assert(t.take(i + 1) =~= s.take(i).push(c));
    lemma_byte_len_push(s.take(i), c);
    assert(t =~= s.take(i).push(c) + s.skip(i));
    lemma_byte_len_concat(s.take(i).push(c), s.skip(i));
    assert(s =~= s.take(i) + s.skip(i));
    lemma_byte_len_concat(s.take(i), s.skip(i));
}

/// The byte length of a text with a range of characters taken out, and where
/// the characters around the gap start.
pub proof fn lemma_without_range_bytes(s: Seq<char>, from: int, to: int)
    requires
        0 <= from <= to <= s.len(),
    ensures
        byte_len(without_range(s, from, to)) == byte_len(s) - (byte_of_char(s, to) - byte_of_char(
            s,
            from,
        )),
        byte_of_char(without_range(s, from, to), from) == byte_of_char(s, from),
        without_range(s, from, to).len() == s.len() - (to - from),
{
    let t = without_range(s, from, to);
    let head = s.subrange(0, from);
    let mid = s.subrange(from, to);
    let tail = s.subrange(to, s.len() as int);
    assert(t.take(from) =~= s.take(from));
    assert(head =~= s.take(from));
    lemma_byte_len_concat(head, tail);
    assert(s.take(to) =~= head + mid);
    lemma_byte_len_concat(head, mid);
    assert(s =~= s.take(to) + tail);
    lemma_byte_len_concat(s.take(to), tail);
    lemma_byte_of_char_monotone(s, from, to);
}

/// A new character leaves the line ends in front of its neighbour as they
/// were.
proof fn lemma_insert_breaks_head(s: Seq<char>, i: int, c: char, n: int)
    requires
        0 <= i <= s.len(),
        0 <= n <= i - 1,
    ensures
        breaks_before(s.insert(i, c), n) == breaks_before(s, n),
    decreases n,
{
    if n > 0 {
        lemma_insert_breaks_head(s, i, c, n - 1);
        assert(ends_line(s.insert(i, c), n - 1) == ends_line(s, n - 1));
    }
}

/// A new character leaves the line ends behind it as they were.
proof fn lemma_insert_breaks_tail(s: Seq<char>, i: int, c: char, n: int)
    requires
        0 <= i <= n <= s.len(),
    ensures
        breaks_before(s.insert(i, c), n + 1) - breaks_before(s.insert(i, c), i + 1)
            == breaks_before(s, n) - breaks_before(s, i),
    decreases n - i,
{
    if n > i {
        lemma_insert_breaks_tail(s, i, c, n - 1);
        assert(ends_line(s.insert(i, c), n) == ends_line(s, n - 1));
    }
}

/// Typing a character never takes a line away.
pub proof fn lemma_insert_keeps_lines(s: Seq<char>, i: int, c: char)
    requires
        0 <= i <= s.len(),
    ensures
        line_count(s.insert(i, c)) >= line_count(s),
{
    let t = s.insert(i, c);
    lemma_insert_breaks_tail(s, i, c, s.len() as int);
    if i > 0 {
        // The character before the new one may cease to end a line, as a CR
        // does in front of a new LF; then the new character ends one.
        lemma_insert_breaks_head(s, i, c, i - 1);
        assert(breaks_before(t, i + 1) >= breaks_before(t, i));
        assert(t[i] == c && t[i - 1] == s[i - 1]);
    }
}

/// A character's encoding has as many bytes as `char_width` says.
pub proof fn lemma_encode_char_len(c: char)
    ensures
        encode_scalar(c as u32).len() == char_width(c),
{
}

/// The encoding of two texts in a row is the encodings of the two in a row.
pub proof fn lemma_encode_concat(a: Seq<char>, b: Seq<char>)
    ensures
        encode_utf8(a + b) == encode_utf8(a) + encode_utf8(b),
    decreases a.len(),
{
    if a.len() == 0 {
        assert(a + b =~= b);
        assert(encode_utf8(a) + encode_utf8(b) =~= encode_utf8(b));
    } else {
        lemma_encode_concat(a.drop_first(), b);
        assert((a + b).drop_first() =~= a.drop_first() + b);
        assert(encode_utf8(a + b) =~= encode_utf8(a) + encode_utf8(b));
    }
}

/// The encoding of a text has `byte_len` bytes.
pub proof fn lemma_encode_len(s: Seq<char>)
    ensures
        encode_utf8(s).len() == byte_len(s),
    decreases s.len(),
{
    if s.len() > 0 {
        let last = seq![s.last()];
        lemma_encode_len(s.drop_last());
        lemma_encode_concat(s.drop_last(), last);
        assert(s =~= s.drop_last() + last);
        lemma_encode_char_len(s.last());
        assert(last.drop_first() =~= Seq::<char>::empty());
        assert(encode_utf8(Seq::<char>::empty()) =~= Seq::<u8>::empty());
        assert(last[0] == s.last());
        assert(encode_utf8(last) =~= encode_scalar(s.last() as u32) + encode_utf8(
            last.drop_first(),
        ));
    }
}

/// The encoding of a run of characters is the run of bytes of the text's
/// encoding that reaches from the start of the first of them to the start of
/// the character after the last.
pub proof fn lemma_encode_subrange(s: Seq<char>, from: int, to: int)
    requires
        0 <= from <= to <= s.len(),
    ensures
        byte_of_char(s, from) <= byte_of_char(s, to) <= encode_utf8(s).len(),
        encode_utf8(s.subrange(from, to)) == encode_utf8(s).subrange(
            byte_of_char(s, from) as int,
            byte_of_char(s, to) as int,
        ),
{
    let head = s.take(from);
    let mid = s.subrange(from, to);
    let tail = s.skip(to);
    assert(s.take(to) =~= head + mid);
    assert(s =~= s.take(to) + tail);
    lemma_encode_concat(head, mid);
    lemma_encode_concat(s.take(to), tail);
    lemma_encode_len(head);
    lemma_encode_len(s.take(to));
    lemma_encode_len(mid);
    lemma_byte_len_concat(head, mid);
    assert(encode_utf8(mid) =~= encode_utf8(s).subrange(
        byte_of_char(s, from) as int,
        byte_of_char(s, to) as int,
    ));
}

} // verus!
