use vstd::prelude::*;

verus! {

/// The character used to fill cells that are created to reach a position.
pub const BLANK_CH: char = ' ';

/// The display width that `unicode_width::UnicodeWidthChar::width` gives a
/// character, `None` for a control character.
pub uninterp spec fn char_width(c: char) -> Option<usize>;

/// The display width that `unicode_width::UnicodeWidthStr::width` gives a string.
pub uninterp spec fn str_width(s: Seq<char>) -> usize;

/// Calls `unicode_width::UnicodeWidthChar::width`.
/// Its result is named `char_width`; beside the name this states what the
/// crate's source shows plainly: printable ASCII characters are one column
/// wide, the C0 and C1 control codes have no width, and no width exceeds 3.
#[verifier::external_body]
pub(crate) fn unicode_char_width(c: char) -> (w: Option<usize>)
    ensures
        w == char_width(c),
        (0x20 <= (c as u32) && (c as u32) < 0x7f) ==> w == Some(1usize),
        ((c as u32) < 0x20 || (0x7f <= (c as u32) && (c as u32) < 0xa0)) ==> w is None,
        w matches Some(n) ==> n <= 3,
{
    unicode_width::UnicodeWidthChar::width(c)
}

/// Calls `unicode_width::UnicodeWidthStr::width`; its result is named `str_width`.
#[verifier::external_body]
pub(crate) fn unicode_str_width(s: &str) -> (w: usize)
    ensures
        w == str_width(s@),
{
    unicode_width::UnicodeWidthStr::width(s)
}

/// Whether the character has a display width; control characters have none.
pub fn has_width(c: char) -> (b: bool)
    ensures
        b == (char_width(c) is Some),
{
    unicode_char_width(c).is_some()
}

/// The width a character takes in the buffer: its display width, or 0 for
/// a control character.
pub open spec fn width_or_zero(c: char) -> usize {
    match char_width(c) {
        Some(w) => w,
        None => 0,
    }
}

/// A character in the buffer together with the number of columns it spans.
#[derive(Clone, Copy, Debug)]
pub struct Ch {
    /// the char
    pub ch: char,
    /// the unicode width of the character
    pub width: usize,
}

/// The cell that `Ch::new` makes of a character.
pub open spec fn ch_of(c: char) -> Ch {
    Ch { ch: c, width: width_or_zero(c) }
}

impl Ch {
    pub fn new(ch: char) -> (r: Self)
        ensures
            r == ch_of(ch),
            r.width <= 3,
            (0x20 <= (ch as u32) && (ch as u32) < 0x7f) ==> r.width == 1,
    {
        let w = unicode_char_width(ch);
        let width = match w {
            Some(n) => n,
            None => 0,
        };
        Ch { width, ch }
    }
}

} // verus!
