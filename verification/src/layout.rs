//! The box a quote is drawn in: every line of it, as styled spans, for a
//! given terminal width.

use vstd::prelude::*;
use crate::ruby::{push_spaces, spaces};
use crate::text::{chars_of, push_all, string_of};
use crate::widths::{str_width, terminal_dimensions, unicode_str_width};

verus! {

/// Which style a span of a line is drawn in.
#[derive(Clone, Copy, Debug, PartialEq, Eq, Structural)]
pub enum Tone {
    /// The border color.
    Border,
    /// The Japanese text's style.
    Japanese,
    /// The translation style (translations and furigana).
    Translation,
    /// The source style.
    Source,
    /// No style.
    Plain,
}

/// A piece of a line, drawn in one style.
pub struct Span {
    pub tone: Tone,
    pub text: String,
}

/// A line as (tone, text) pairs.
pub open spec fn line_view(l: Seq<Span>) -> Seq<(Tone, Seq<char>)> {
    l.map_values(|s: Span| (s.tone, s.text@))
}

pub open spec fn lines_view(ls: Seq<Vec<Span>>) -> Seq<Seq<(Tone, Seq<char>)>> {
    ls.map_values(|l: Vec<Span>| line_view(l@))
}

fn span(tone: Tone, v: &Vec<char>) -> (r: Span)
    ensures
        r.tone == tone,
        r.text@ == v@,
{
    Span { tone, text: string_of(v) }
}

pub(crate) fn push_span(r: &mut Vec<Span>, tone: Tone, v: &Vec<char>)
    ensures
        line_view(final(r)@) == line_view(old(r)@).push((tone, v@)),
{
    let ghost before = r@;
    r.push(span(tone, v));
    assert(line_view(r@) =~= line_view(before).push((tone, v@)));
}

pub(crate) fn bar_vec() -> (r: Vec<char>)
    ensures
        r@ == bar(),
{
    let mut v: Vec<char> = Vec::new();
    v.push('\u{2502}');
    assert(v@ =~= bar());
    v
}

pub(crate) fn spaces_vec(n: usize) -> (r: Vec<char>)
    ensures
        r@ == spaces(n as nat),
{
    let mut v: Vec<char> = Vec::new();
    push_spaces(&mut v, n);
    assert(v@ =~= spaces(n as nat));
    v
}

/// A line aligned in the box's inner width: centered, or padded on the
/// right; a line at least as wide as the box is left as it is.
pub open spec fn aligned(line: Seq<char>, inner: usize, centered: bool) -> Seq<char> {
    let w = unicode_str_width(line);
    if w >= inner {
        line
    } else if centered {
        let total = (inner - w) as nat;
        let left = total / 2;
        spaces(left) + line + spaces((total - left) as nat)
    } else {
        line + spaces((inner - w) as nat)
    }
}

/// Aligns a line within the box's inner width.
pub fn align_in_box(line: &str, inner_width: usize, centered: bool) -> (r: String)
    ensures
        r@ == aligned(line@, inner_width, centered),
{
    let w = str_width(line);
    let v = chars_of(line);
    if w >= inner_width {
        return string_of(&v);
    }
    let mut out: Vec<char> = Vec::new();
    if centered {
        let total = inner_width - w;
        let left = total / 2;
        push_spaces(&mut out, left);
        push_all(&mut out, &v);
        push_spaces(&mut out, total - left);
    } else {
        push_all(&mut out, &v);
        push_spaces(&mut out, inner_width - w);
    }
    string_of(&out)
}

pub open spec fn bar() -> Seq<char> {
    seq!['\u{2502}']
}

/// A line of content inside the box: borders and horizontal padding around
/// the content drawn in `tone`.
pub open spec fn framed(tone: Tone, content: Seq<char>, hp: usize, border: bool) -> Seq<(Tone, Seq<char>)> {
    if border {
        seq![
            (Tone::Border, bar()),
            (Tone::Plain, spaces(hp as nat)),
            (tone, content),
            (Tone::Plain, spaces(hp as nat)),
            (Tone::Border, bar()),
        ]
    } else {
        seq![(Tone::Plain, spaces(hp as nat)), (tone, content)]
    }
}

/// An empty line inside the box.
pub open spec fn blank(inner: usize, hp: usize, border: bool) -> Seq<(Tone, Seq<char>)> {
    if border {
        seq![
            (Tone::Border, bar()),
            (Tone::Plain, spaces(hp as nat) + spaces(inner as nat) + spaces(hp as nat)),
            (Tone::Border, bar()),
        ]
    } else {
        seq![(Tone::Plain, spaces((hp + inner) as nat))]
    }
}

/// An empty line inside the box (used for spacing).
pub fn blank_line(inner_width: usize, horizontal_padding: usize, border: bool) -> (r: Vec<Span>)
    requires
        border || horizontal_padding + inner_width <= usize::MAX,
    ensures
        line_view(r@) == blank(inner_width, horizontal_padding, border),
{
    let mut r: Vec<Span> = Vec::new();
    if border {
        let b = bar_vec();
        let mut mid = spaces_vec(horizontal_padding);
        push_spaces(&mut mid, inner_width);
        push_spaces(&mut mid, horizontal_padding);
        push_span(&mut r, Tone::Border, &b);
        push_span(&mut r, Tone::Plain, &mid);
        push_span(&mut r, Tone::Border, &b);
    } else {
        let s = spaces_vec(horizontal_padding + inner_width);
        push_span(&mut r, Tone::Plain, &s);
    }
    assert(line_view(r@) =~= blank(inner_width, horizontal_padding, border));
    r
}

/// The spaces that center a box of `box_width` columns in the terminal.
pub open spec fn center_pad(box_width: usize, centered: bool, term_width: Option<usize>) -> nat {
    match term_width {
        Some(tw) => if centered && tw > box_width {
            ((tw - box_width) / 2) as nat
        } else {
            0
        },
        None => 0,
    }
}

pub(crate) fn center_pad_exec(box_width: usize, centered: bool, term_width: Option<usize>) -> (r: usize)
    ensures
        r == center_pad(box_width, centered, term_width),
{
    match term_width {
        Some(tw) => if centered && tw > box_width {
            (tw - box_width) / 2
        } else {
            0
        },
        None => 0,
    }
}

/// A line moved right to center the box in a terminal of the given width.
pub fn center_in_terminal(line: &str, box_width: usize, centered: bool, term_width: Option<usize>) -> (r:
    String)
    ensures
        r@ == spaces(center_pad(box_width, centered, term_width)) + line@,
{
    let pad = center_pad_exec(box_width, centered, term_width);
    let mut v = spaces_vec(pad);
    let l = chars_of(line);
    push_all(&mut v, &l);
    string_of(&v)
}

/// Centers a whole line in the terminal when `centered` is set and the
/// terminal is wider than the box. The terminal's width is read here; the
/// result is the line with some number of leading spaces, as
/// `center_in_terminal` computes for whatever width was read.
pub fn pad_to_center(line: &str, box_width: usize, centered: bool) -> (r: String)
    ensures
        exists|tw: Option<usize>| r@ == #[trigger] spaces(center_pad(box_width, centered, tw)) + line@,
{
    let term_width = match terminal_dimensions() {
        Some((w, _)) => Some(w),
        None => None,
    };
    center_in_terminal(line, box_width, centered, term_width)
}

} // verus!
