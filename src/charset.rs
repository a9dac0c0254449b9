//! The character classes of the grammar.
use vstd::prelude::*;

verus! {

/// One of the four DNA bases (upper case only).
pub open spec fn is_base(c: char) -> bool {
    c == 'A' || c == 'C' || c == 'G' || c == 'T'
}

/// A character that ends a line on its own. A carriage return directly
/// followed by a line feed forms one line break of two characters.
pub open spec fn is_line_break(c: char) -> bool {
    c == '\n' || c == '\r' || c == '\u{0B}' || c == '\u{0C}' || c == '\u{85}' || c == '\u{2028}'
        || c == '\u{2029}'
}

/// A character with the Unicode `White_Space` property.
pub open spec fn is_space(c: char) -> bool {
    ||| '\u{09}' <= c <= '\u{0D}'
    ||| c == ' '
    ||| c == '\u{85}'
    ||| c == '\u{A0}'
    ||| c == '\u{1680}'
    ||| '\u{2000}' <= c <= '\u{200A}'
    ||| c == '\u{2028}'
    ||| c == '\u{2029}'
    ||| c == '\u{202F}'
    ||| c == '\u{205F}'
    ||| c == '\u{3000}'
}

/// Whitespace that stays within a line.
pub open spec fn is_inline_space(c: char) -> bool {
    is_space(c) && !is_line_break(c)
}

/// Whether `c` is a base.
pub fn base(c: char) -> (r: bool)
    ensures
        r == is_base(c),
{
    c == 'A' || c == 'C' || c == 'G' || c == 'T'
}

/// Whether `c` is a line break character.
pub fn line_break(c: char) -> (r: bool)
    ensures
        r == is_line_break(c),
{
    c == '\n' || c == '\r' || c == '\u{0B}' || c == '\u{0C}' || c == '\u{85}' || c == '\u{2028}'
        || c == '\u{2029}'
}

/// Whether `c` is whitespace.
pub fn space(c: char) -> (r: bool)
    ensures
        r == is_space(c),
{
    ('\u{09}' <= c && c <= '\u{0D}') || c == ' ' || c == '\u{85}' || c == '\u{A0}' || c
        == '\u{1680}' || ('\u{2000}' <= c && c <= '\u{200A}') || c == '\u{2028}' || c
        == '\u{2029}' || c == '\u{202F}' || c == '\u{205F}' || c == '\u{3000}'
}

/// Whether `c` is whitespace other than a line break.
pub fn inline_space(c: char) -> (r: bool)
    ensures
        r == is_inline_space(c),
{
    space(c) && !line_break(c)
}

} // verus!
