//! Which characters a displayed text must not carry.

use vstd::prelude::*;

verus! {

/// Whether the character is a control character or one that embeds, overrides or isolates a
/// writing direction.
pub open spec fn is_hostile(c: char) -> bool {
    ||| c <= '\u{1f}'
    ||| '\u{7f}' <= c <= '\u{9f}'
    ||| '\u{202a}' <= c <= '\u{202e}'
    ||| '\u{2066}' <= c <= '\u{2069}'
}

/// Tells whether the character is a control character or one that embeds, overrides or isolates
/// a writing direction.
pub fn hostile_char(c: char) -> (hostile: bool)
    ensures
        hostile == is_hostile(c),
{
    c <= '\u{1f}' || ('\u{7f}' <= c && c <= '\u{9f}') || ('\u{202a}' <= c && c <= '\u{202e}') || (
    '\u{2066}' <= c && c <= '\u{2069}')
}

}
