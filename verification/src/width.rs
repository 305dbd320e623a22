//! Display width of characters: double-width (East Asian wide or
//! fullwidth) characters take two grid cells.

use vstd::prelude::*;
use unicode_width::UnicodeWidthChar;

verus! {

/// The display width that `unicode-width` gives `c` (`None` for a control
/// character).
pub uninterp spec fn char_display_width(c: char) -> Option<usize>;

/// Calls `UnicodeWidthChar::width` of the `unicode-width` crate. Its
/// result is named by [`char_display_width`]; what the crate's source
/// states outright is also promised: C0 controls and U+007F..U+009F are
/// control characters (`None`), printable ASCII is one column wide. The
/// table lookup for U+00A0 and above is not stated.
#[verifier::external_body]
fn char_width(c: char) -> (r: Option<usize>)
    ensures
        r == char_display_width(c),
        (c as u32) < 0x20 ==> r is None,
        0x20 <= (c as u32) < 0x7F ==> r == Some(1usize),
        0x7F <= (c as u32) < 0xA0 ==> r is None,
{
    c.width()
}

/// Whether a display width is the double width of a wide character.
pub fn is_double_width(w: Option<usize>) -> (r: bool)
    ensures
        r == (w == Some(2usize)),
{
    match w {
        Some(n) => n == 2,
        None => false,
    }
}

/// Whether `c` takes two grid cells (its display width is 2).
pub fn is_wide(c: char) -> (r: bool)
    ensures
        r == (char_display_width(c) == Some(2usize)),
        (c as u32) < 0xA0 ==> !r,
{
    is_double_width(char_width(c))
}

} // verus!
