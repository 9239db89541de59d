//! The editing mode of a document and the classes of characters that word
//! motion tells apart.
use vstd::prelude::*;

verus! {

/// What keystrokes mean at the moment. A selection carries its anchor, the
/// byte offset at which it was begun, and whether it covers whole lines.
#[derive(Debug, Clone, Copy, Default, PartialEq, Eq, Structural)]
pub enum Mode {
    #[default]
    Normal,
    Insert,
    Select { start_byte: usize, line_mode: bool },
}

/// The class of a character. A word boundary lies wherever two neighbouring
/// characters differ in class.
#[derive(Debug, Clone, Copy, PartialEq, Eq, Structural)]
pub enum CharKind {
    Lf,
    Whitespace,
    Other,
}

/// Whether a character has the Unicode property `White_Space`: the controls
/// from tab to carriage return, the space, NEL, the no-break space, the ogham
/// space mark, the spaces from en quad to hair space, the line and the
/// paragraph separator, the narrow no-break space, the medium mathematical
/// space and the ideographic space.
pub open spec fn unicode_whitespace(c: char) -> bool {
    let v = c as u32;
    ||| 0x0009 <= v <= 0x000D
    ||| v == 0x0020
    ||| v == 0x0085
    ||| v == 0x00A0
    ||| v == 0x1680
    ||| 0x2000 <= v <= 0x200A
    ||| v == 0x2028
    ||| v == 0x2029
    ||| v == 0x202F
    ||| v == 0x205F
    ||| v == 0x3000
}

/// `char::is_whitespace`: whether the character has the Unicode property
/// `White_Space`, as the Unicode Character Database lists it.
pub assume_specification[ char::is_whitespace ](c: char) -> (b: bool)
    ensures
        b == unicode_whitespace(c),
;

impl CharKind {
    /// The class of character `ch`, given whether it is white space: LF and CR
    /// are line breaks whatever else they are, other white space is white
    /// space, and everything else is `Other`.
    pub open spec fn from_parts(ch: char, whitespace: bool) -> CharKind {
        if ch == '\n' || ch == '\r' {
            CharKind::Lf
        } else if whitespace {
            CharKind::Whitespace
        } else {
            CharKind::Other
        }
    }

    /// The class of character `ch`.
    pub open spec fn of(ch: char) -> CharKind {
        CharKind::from_parts(ch, unicode_whitespace(ch))
    }

    /// Classifies `ch`, given whether it is white space.
    pub fn classify(ch: char, whitespace: bool) -> (kind: CharKind)
        ensures
            kind == CharKind::from_parts(ch, whitespace),
    {
        if ch == '\n' || ch == '\r' {
            CharKind::Lf
        } else if whitespace {
            CharKind::Whitespace
        } else {
            CharKind::Other
        }
    }

    /// Classifies `ch`.
    pub fn new(ch: char) -> (kind: CharKind)
        ensures
            kind == CharKind::of(ch),
    {
        CharKind::classify(ch, ch.is_whitespace())
    }
}

} // verus!
