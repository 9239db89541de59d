//! Word boundaries: the places in a text where the class of the characters
//! changes.
use crate::mode::CharKind;
use vstd::prelude::*;

verus! {

/// Character `i` is the first of a run: it differs in class from the
/// character before it.
pub open spec fn is_transition(s: Seq<char>, i: int) -> bool {
    0 < i < s.len() && CharKind::of(s[i - 1]) != CharKind::of(s[i])
}

/// The first run start at or after character `i`, or `s.len()` when no run
/// starts there or later.
pub open spec fn next_transition(s: Seq<char>, i: int) -> int
    decreases s.len() - i,
{
    if i >= s.len() {
        s.len() as int
    } else if is_transition(s, i) {
        i
    } else {
        next_transition(s, i + 1)
    }
}

/// The last run start at or before character `i`, or 0 when no run starts
/// there or earlier.
pub open spec fn prev_transition(s: Seq<char>, i: int) -> int
    decreases i,
{
    if i <= 0 {
        0
    } else if is_transition(s, i) {
        i
    } else {
        prev_transition(s, i - 1)
    }
}

/// Where the next word starts for a cursor in character `k`: at the first run
/// start after `k`, or at the end of the text.
pub open spec fn next_word_char(s: Seq<char>, k: int) -> int {
    next_transition(s, k + 1)
}

/// Where the next word ends for a cursor in character `k`: at the last
/// character of the first run that ends after the character following `k`,
/// or at the end of the text when no run ends there before the text does.
pub open spec fn next_word_end_char(s: Seq<char>, k: int) -> int {
    let t = next_transition(s, k + 2);
    if t < s.len() {
        t - 1
    } else {
        s.len() as int
    }
}

/// Where the previous word starts for a cursor in character `k`: at the last
/// run start before `k`, or at the start of the text.
pub open spec fn prev_word_start_char(s: Seq<char>, k: int) -> int {
    prev_transition(s, k - 1)
}

pub proof fn lemma_next_transition(s: Seq<char>, i: int)
    requires
        0 <= i,
    ensures
        i <= next_transition(s, i) || next_transition(s, i) == s.len(),
        0 <= next_transition(s, i) <= s.len(),
        next_transition(s, i) < s.len() ==> is_transition(s, next_transition(s, i)),
        forall|j: int| i <= j < next_transition(s, i) ==> !is_transition(s, j),
    decreases s.len() - i,
{
    if i >= s.len() {
    } else if is_transition(s, i) {
    } else {
        lemma_next_transition(s, i + 1);
    }
}

pub proof fn lemma_prev_transition(s: Seq<char>, i: int)
    ensures
        0 <= prev_transition(s, i),
        prev_transition(s, i) <= i || prev_transition(s, i) == 0,
        prev_transition(s, i) > 0 ==> is_transition(s, prev_transition(s, i)),
        forall|j: int| prev_transition(s, i) < j <= i ==> !is_transition(s, j),
    decreases i,
{
    if i <= 0 {
    } else if is_transition(s, i) {
    } else {
        lemma_prev_transition(s, i - 1);
    }
}

} // verus!
