//! How text is styled: simulated font sizes and colors given by name or as
//! `#RRGGBB`.

use vstd::prelude::*;
use crate::clean::same_chars;
use crate::ruby::{push_spaces, spaces};
use crate::text::{chars_of, find_from, find_vec, string_of, to_lowercase, trim_end, trim_end_vec, unicode_lowercase};

verus! {

/// Every character followed by `gap` spaces; newlines kept as they are.
pub open spec fn spread(s: Seq<char>, gap: nat) -> Seq<char>
    decreases s.len(),
{
    if s.len() == 0 {
        Seq::empty()
    } else if s.last() == '\n' {
        spread(s.drop_last(), gap).push('\n')
    } else {
        spread(s.drop_last(), gap) + seq![s.last()] + spaces(gap)
    }
}

/// Text in a simulated font size: `medium` puts a space after every
/// character, `large` two, `small` and other sizes leave the text as it is;
/// trailing whitespace is trimmed after spreading.
pub open spec fn font_sized(s: Seq<char>, size: Seq<char>) -> Seq<char> {
    if size == "medium"@ {
        trim_end(spread(s, 1))
    } else if size == "large"@ {
        trim_end(spread(s, 2))
    } else {
        s
    }
}

fn spread_vec(v: &Vec<char>, gap: usize) -> (r: Vec<char>)
    ensures
        r@ == spread(v@, gap as nat),
{
    let mut out: Vec<char> = Vec::new();
    let mut i: usize = 0;
    while i < v.len()
        invariant
            i <= v.len(),
            out@ == spread(v@.take(i as int), gap as nat),
        decreases v.len() - i,
    {
        assert(v@.take(i + 1).drop_last() == v@.take(i as int));
        let c = v[i];
        if c == '\n' {
            out.push('\n');
        } else {
            out.push(c);
            push_spaces(&mut out, gap);
        }
        i += 1;
        assert(out@ =~= spread(v@.take(i as int), gap as nat));
    }
    assert(v@.take(v.len() as int) == v@);
    out
}

fn text_is(v: &Vec<char>, lit: &str) -> (b: bool)
    ensures
        b == (v@ == lit@),
{
    let l = chars_of(lit);
    same_chars(v, &l)
}

/// Simulates a font size by spacing the characters out.
pub fn simulate_font_size(s: &str, size: &str) -> (r: String)
    ensures
        r@ == font_sized(s@, size@),
{
    let sz = chars_of(size);
    let v = chars_of(s);
    proof {
        reveal_strlit("small");
        reveal_strlit("medium");
        reveal_strlit("large");
        assert("small"@.len() == 5 && "medium"@.len() == 6 && "large"@.len() == 5);
        assert("small"@[0] != "large"@[0]);
    }
    if text_is(&sz, "small") {
        string_of(&v)
    } else if text_is(&sz, "medium") {
        let t = spread_vec(&v, 1);
        string_of(&trim_end_vec(&t))
    } else if text_is(&sz, "large") {
        let t = spread_vec(&v, 2);
        string_of(&trim_end_vec(&t))
    } else {
        string_of(&v)
    }
}

/// A 0..=255 channel on the 0..=5 scale of the 6x6x6 color cube, rounded to
/// the nearest step (`x * 5 / 255` is never exactly halfway between steps).
pub open spec fn cube_step(x: u8) -> int {
    (2 * x + 51) / 102
}

/// The 256-color palette index nearest to an RGB color, in the 6x6x6 cube.
pub open spec fn ansi256(r: u8, g: u8, b: u8) -> int {
    16 + 36 * cube_step(r) + 6 * cube_step(g) + cube_step(b)
}

/// Maps a 24-bit color to the nearest color of the 6x6x6 cube of the 256-color
/// palette.
pub fn rgb_to_ansi256(r: u8, g: u8, b: u8) -> (c: u8)
    ensures
        c as int == ansi256(r, g, b),
        16 <= c <= 231,
{
    let rs = ((2 * (r as u32) + 51) / 102) as u8;
    let gs = ((2 * (g as u32) + 51) / 102) as u8;
    let bs = ((2 * (b as u32) + 51) / 102) as u8;
    16 + (36 * rs) + (6 * gs) + bs
}

/// The eight basic terminal colors.
#[derive(Clone, Copy, Debug, PartialEq, Eq, Structural)]
pub enum BasicColor {
    Black,
    Red,
    Green,
    Yellow,
    Blue,
    Magenta,
    Cyan,
    White,
}

/// A text style: a basic color, dimmed text, a 256-color palette index, or
/// no style.
#[derive(Clone, Copy, Debug, PartialEq, Eq, Structural)]
pub enum ColorSpec {
    Basic(BasicColor),
    Dim,
    Palette(u8),
    Plain,
}

/// Bytes a character takes in UTF-8.
pub open spec fn utf8_len(c: char) -> nat {
    let u = c as u32;
    if u < 0x80 {
        1
    } else if u < 0x800 {
        2
    } else if u < 0x10000 {
        3
    } else {
        4
    }
}

/// Bytes a text takes in UTF-8.
pub open spec fn byte_len(s: Seq<char>) -> nat
    decreases s.len(),
{
    if s.len() == 0 {
        0
    } else {
        byte_len(s.drop_last()) + utf8_len(s.last())
    }
}

/// Byte offset `b` of the text starts a character (or is its end).
pub open spec fn is_boundary(s: Seq<char>, b: nat) -> bool {
    exists|k: int| 0 <= k <= s.len() && #[trigger] byte_len(s.take(k)) == b
}

/// The value of a hexadecimal digit.
pub open spec fn hex_value(c: char) -> Option<int> {
    if '0' <= c && c <= '9' {
        Some(c as int - '0' as int)
    } else if 'a' <= c && c <= 'f' {
        Some(c as int - 'a' as int + 10)
    } else if 'A' <= c && c <= 'F' {
        Some(c as int - 'A' as int + 10)
    } else {
        None
    }
}

/// A two-character hexadecimal byte as std's `u8::from_str_radix(_, 16)`
/// reads it: two digits, or a `+` and one digit.
pub open spec fn hex_pair(a: char, b: char) -> Option<int> {
    if a == '+' {
        hex_value(b)
    } else {
        match (hex_value(a), hex_value(b)) {
            (Some(x), Some(y)) => Some(16 * x + y),
            _ => None,
        }
    }
}

/// The RGB color of six hex characters, if all three bytes read.
pub open spec fn hex_rgb(t: Seq<char>) -> Option<(u8, u8, u8)> {
    if t.len() != 6 {
        None
    } else {
        match (hex_pair(t[0], t[1]), hex_pair(t[2], t[3]), hex_pair(t[4], t[5])) {
            (Some(r), Some(g), Some(b)) => Some((r as u8, g as u8, b as u8)),
            _ => None,
        }
    }
}

/// The named colors.
pub open spec fn named_color(lower: Seq<char>) -> Option<ColorSpec> {
    if lower == "black"@ {
        Some(ColorSpec::Basic(BasicColor::Black))
    } else if lower == "red"@ {
        Some(ColorSpec::Basic(BasicColor::Red))
    } else if lower == "green"@ {
        Some(ColorSpec::Basic(BasicColor::Green))
    } else if lower == "yellow"@ {
        Some(ColorSpec::Basic(BasicColor::Yellow))
    } else if lower == "blue"@ {
        Some(ColorSpec::Basic(BasicColor::Blue))
    } else if lower == "magenta"@ {
        Some(ColorSpec::Basic(BasicColor::Magenta))
    } else if lower == "cyan"@ {
        Some(ColorSpec::Basic(BasicColor::Cyan))
    } else if lower == "white"@ {
        Some(ColorSpec::Basic(BasicColor::White))
    } else if lower == "dim"@ {
        Some(ColorSpec::Dim)
    } else {
        None
    }
}

/// The text after a leading `#`, if there is one.
pub open spec fn hash_stripped(lower: Seq<char>) -> Option<Seq<char>> {
    if lower.len() > 0 && lower[0] == '#' {
        Some(lower.skip(1))
    } else {
        None
    }
}

/// The inputs on which cutting `#RRGGBB` into byte pairs fails: six bytes
/// after the `#`, but byte 2 or 4 falls inside a character.
pub open spec fn hex_cut_fails(lower: Seq<char>) -> bool {
    match hash_stripped(lower) {
        Some(t) => byte_len(t) == 6 && !(is_boundary(t, 2) && is_boundary(t, 4)),
        None => false,
    }
}

/// The style a color setting stands for, given its lowercase form: a named
/// color; `#RRGGBB` as the nearest palette color; otherwise dimmed text for
/// a gray, and no style for anything else.
pub open spec fn color_spec_of(lower: Seq<char>) -> ColorSpec {
    match named_color(lower) {
        Some(c) => c,
        None => {
            let hex = match hash_stripped(lower) {
                Some(t) => if byte_len(t) == 6 {
                    hex_rgb(t)
                } else {
                    None
                },
                None => None,
            };
            match hex {
                Some((r, g, b)) => ColorSpec::Palette(ansi256(r, g, b) as u8),
                None => if find_from(lower, "gray"@, 0) is Some || find_from(lower, "grey"@, 0) is Some {
                    ColorSpec::Dim
                } else {
                    ColorSpec::Plain
                },
            }
        },
    }
}

} // verus!

verus! {

pub proof fn lemma_byte_len_prefix(s: Seq<char>, i: int)
    requires
        0 <= i <= s.len(),
    ensures
        byte_len(s.take(i)) <= byte_len(s),
    decreases s.len() - i,
{
    if i < s.len() {
        lemma_byte_len_prefix(s, i + 1);
        assert(s.take(i + 1).drop_last() == s.take(i));
    } else {
        assert(s.take(i) == s);
    }
}

pub(crate) fn utf8_len_exec(c: char) -> (n: usize)
    ensures
        n == utf8_len(c),
{
    let u = c as u32;
    if u < 0x80 {
        1
    } else if u < 0x800 {
        2
    } else if u < 0x10000 {
        3
    } else {
        4
    }
}

/// The text's UTF-8 length when at most `limit`, else `limit + 1`; and
/// whether byte offsets 2 and 4 start characters.
fn byte_facts(t: &Vec<char>) -> (r: (usize, bool, bool))
    ensures
        r.0 <= 7,
        r.0 <= 6 ==> r.0 == byte_len(t@),
        r.0 == 7 ==> byte_len(t@) > 6,
        r.0 == 6 ==> (r.1 == is_boundary(t@, 2) && r.2 == is_boundary(t@, 4)),
{
    let mut sum: usize = 0;
    let mut at2 = false;
    let mut at4 = false;
    let mut i: usize = 0;
    while i < t.len()
        invariant
            i <= t.len(),
            sum == byte_len(t@.take(i as int)),
            sum <= 6,
            at2 == (exists|k: int| 0 <= k <= i && #[trigger] byte_len(t@.take(k)) == 2),
            at4 == (exists|k: int| 0 <= k <= i && #[trigger] byte_len(t@.take(k)) == 4),
        decreases t.len() - i,
    {
        assert(t@.take(i + 1).drop_last() == t@.take(i as int));
        let n = utf8_len_exec(t[i]);
        if sum + n > 6 {
            proof {
                lemma_byte_len_prefix(t@, i + 1);
            }
            return (7, false, false);
        }
        sum = sum + n;
        i += 1;
        proof {
            lemma_byte_len_prefix(t@, i as int);
            if sum == 2 {
                assert(byte_len(t@.take(i as int)) == 2);
            }
            if sum == 4 {
                assert(byte_len(t@.take(i as int)) == 4);
            }
            // earlier prefixes are shorter, later ones longer
            assert forall|k: int| 0 <= k <= i && #[trigger] byte_len(t@.take(k)) == 2 implies (k < i
                || sum == 2) by {}
        }
        at2 = at2 || sum == 2;
        at4 = at4 || sum == 4;
    }
    assert(t@.take(t.len() as int) == t@);
    proof {
        if sum == 6 {
            assert forall|k: int| 0 <= k <= t@.len() && #[trigger] byte_len(t@.take(k)) == 2 implies k
                <= t.len() by {}
        }
    }
    (sum, at2, at4)
}

} // verus!

verus! {

fn hex_value_exec(c: char) -> (r: Option<u32>)
    ensures
        match r {
            Some(v) => hex_value(c) == Some(v as int) && v < 16,
            None => hex_value(c) is None,
        },
{
    if '0' <= c && c <= '9' {
        Some(c as u32 - '0' as u32)
    } else if 'a' <= c && c <= 'f' {
        Some(c as u32 - 'a' as u32 + 10)
    } else if 'A' <= c && c <= 'F' {
        Some(c as u32 - 'A' as u32 + 10)
    } else {
        None
    }
}

fn hex_pair_exec(a: char, b: char) -> (r: Option<u8>)
    ensures
        match r {
            Some(v) => hex_pair(a, b) == Some(v as int),
            None => hex_pair(a, b) is None,
        },
{
    if a == '+' {
        match hex_value_exec(b) {
            Some(v) => Some(v as u8),
            None => None,
        }
    } else {
        match (hex_value_exec(a), hex_value_exec(b)) {
            (Some(x), Some(y)) => Some((16 * x + y) as u8),
            _ => None,
        }
    }
}

fn named_color_exec(lv: &Vec<char>) -> (r: Option<ColorSpec>)
    ensures
        r == named_color(lv@),
{
    if text_is(lv, "black") {
        Some(ColorSpec::Basic(BasicColor::Black))
    } else if text_is(lv, "red") {
        Some(ColorSpec::Basic(BasicColor::Red))
    } else if text_is(lv, "green") {
        Some(ColorSpec::Basic(BasicColor::Green))
    } else if text_is(lv, "yellow") {
        Some(ColorSpec::Basic(BasicColor::Yellow))
    } else if text_is(lv, "blue") {
        Some(ColorSpec::Basic(BasicColor::Blue))
    } else if text_is(lv, "magenta") {
        Some(ColorSpec::Basic(BasicColor::Magenta))
    } else if text_is(lv, "cyan") {
        Some(ColorSpec::Basic(BasicColor::Cyan))
    } else if text_is(lv, "white") {
        Some(ColorSpec::Basic(BasicColor::White))
    } else if text_is(lv, "dim") {
        Some(ColorSpec::Dim)
    } else {
        None
    }
}

fn color_of_lower(lv: &Vec<char>) -> (r: ColorSpec)
    ensures
        r == color_spec_of(lv@),
{
    if let Some(c) = named_color_exec(lv) {
        return c;
    }
    if lv.len() > 0 && lv[0] == '#' {
        let t = crate::text::slice_vec(lv, 1, lv.len());
        assert(t@ == lv@.skip(1));
        let (bytes, _, _) = byte_facts(&t);
        if bytes == 6 && t.len() == 6 {
            match (hex_pair_exec(t[0], t[1]), hex_pair_exec(t[2], t[3]), hex_pair_exec(t[4], t[5])) {
                (Some(r), Some(g), Some(b)) => {
                    return ColorSpec::Palette(rgb_to_ansi256(r, g, b));
                },
                _ => {},
            }
        }
    }
    let gray = chars_of("gray");
    let grey = chars_of("grey");
    proof {
        reveal_strlit("gray");
        reveal_strlit("grey");
    }
    if find_vec(lv, &gray, 0).is_some() || find_vec(lv, &grey, 0).is_some() {
        ColorSpec::Dim
    } else {
        ColorSpec::Plain
    }
}

/// The style of a color setting: a named color (any case), `#RRGGBB` mapped
/// to the nearest palette color, dimmed text for anything naming a gray, no
/// style otherwise.
pub fn color_from_hex(s: &str) -> (r: ColorSpec)
    requires
        !hex_cut_fails(unicode_lowercase(s@)),
    ensures
        r == color_spec_of(unicode_lowercase(s@)),
{
    let lower = to_lowercase(s);
    let lv = chars_of(lower.as_str());
    color_of_lower(&lv)
}

/// The style of a color setting, or `None` for the settings on which
/// `color_from_hex` does not apply (`#` and six bytes that do not split into
/// byte pairs at character boundaries).
pub fn checked_color_from_hex(s: &str) -> (r: Option<ColorSpec>)
    ensures
        match r {
            Some(c) => !hex_cut_fails(unicode_lowercase(s@)) && c == color_spec_of(
                unicode_lowercase(s@),
            ),
            None => hex_cut_fails(unicode_lowercase(s@)),
        },
{
    let lower = to_lowercase(s);
    let lv = chars_of(lower.as_str());
    if lv.len() > 0 && lv[0] == '#' {
        let t = crate::text::slice_vec(&lv, 1, lv.len());
        assert(t@ == lv@.skip(1));
        let (bytes, at2, at4) = byte_facts(&t);
        if bytes == 6 && !(at2 && at4) {
            return None;
        }
    }
    Some(color_from_hex(s))
}

} // verus!
