use vstd::prelude::*;

use unicode_width::UnicodeWidthChar;

verus! {

/// The display width that the Unicode width tables give a character, `None`
/// for a control character.
pub uninterp spec fn char_width_of(c: char) -> Option<usize>;

/// Relies on `unicode_width::UnicodeWidthChar::width` for `char`: its result
/// depends on the character alone.
#[verifier::external_body]
pub(crate) fn char_width(c: char) -> (r: Option<usize>)
    ensures
        r == char_width_of(c),
{
    UnicodeWidthChar::width(c)
}

} // verus!
