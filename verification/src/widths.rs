//! Display widths of text, line wrapping and the terminal's size.

use vstd::prelude::*;
use crate::text::string_views;

verus! {

/// The display width of a character in columns (`None` for a control
/// character), as the `unicode-width` crate's `UnicodeWidthChar::width` gives it.
pub uninterp spec fn unicode_char_width(c: char) -> Option<usize>;

/// `unicode_width::UnicodeWidthChar::width`. Claimed: the result is
/// `unicode_char_width(c)`; printable ASCII is one column wide; the C0 and C1
/// control characters (below U+0020, and from U+007F to U+009F) have no width;
/// a width, read from the crate's table of `u8` entries, is at most 255.
#[verifier::external_body]
pub(crate) fn char_width(c: char) -> (r: Option<usize>)
    ensures
        r == unicode_char_width(c),
        ('\u{20}' <= c && c < '\u{7F}') ==> r == Some(1usize),
        (c < '\u{20}' || ('\u{7F}' <= c && c < '\u{A0}')) ==> r is None,
        r matches Some(w) ==> w <= 255,
{
    unicode_width::UnicodeWidthChar::width(c)
}

/// The display width of a text in columns, as the `unicode-width` crate's
/// `UnicodeWidthStr::width` gives it.
pub uninterp spec fn unicode_str_width(s: Seq<char>) -> usize;

/// `unicode_width::UnicodeWidthStr::width`. Claimed: the result is
/// `unicode_str_width` of the text's characters; a text of printable ASCII
/// characters (U+0020 to U+007E), each of which the crate counts as one
/// column, is as wide as it is long.
#[verifier::external_body]
pub(crate) fn str_width(s: &str) -> (r: usize)
    ensures
        r == unicode_str_width(s@),
        (forall|k: int| 0 <= k < s@.len() ==> '\u{20}' <= #[trigger] s@[k] && s@[k] <= '\u{7E}')
            ==> r == s@.len(),
{
    unicode_width::UnicodeWidthStr::width(s)
}

/// The lines that the `textwrap` crate's `wrap` breaks a text into at a
/// given width.
pub uninterp spec fn wrapped_lines(text: Seq<char>, width: usize) -> Seq<Seq<char>>;

/// `textwrap::wrap` with a width. Claimed: the lines are
/// `wrapped_lines(text, width)`, each returned as an owned string.
#[verifier::external_body]
pub(crate) fn wrap_text(text: &str, width: usize) -> (r: Vec<String>)
    ensures
        string_views(r@) == wrapped_lines(text@, width),
{
    textwrap::wrap(text, width).into_iter().map(|l| l.into_owned()).collect()
}

/// `term_size::dimensions`: the terminal's (width, height), when standard
/// output is a terminal. Nothing is claimed of the result, which depends on
/// the terminal.
#[verifier::external_body]
pub(crate) fn terminal_dimensions() -> (r: Option<(usize, usize)>) {
    term_size::dimensions()
}

} // verus!
