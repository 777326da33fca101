//! The quote box as a whole: its width, its borders, and the rows of text,
//! furigana, translations and source inside it.

use vstd::prelude::*;
use crate::layout::{
    aligned, align_in_box, bar_vec, blank, center_pad, center_pad_exec, framed, line_view,
    lines_view, push_span, spaces_vec, Span, Tone,
};
use crate::ruby::{push_spaces, spaces};
use crate::text::{chars_of, push_all, string_of, string_views, trim_end, trim_end_vec};
use crate::widths::{str_width, terminal_dimensions, unicode_str_width, wrap_text, wrapped_lines};

verus! {

/// What goes into the box.
pub struct BoxContent {
    /// The Japanese text, one entry per line.
    pub text_lines: Vec<String>,
    /// The translations, each in a section of its own.
    pub translations: Vec<String>,
    pub source: Option<String>,
    pub show_source: bool,
    /// Reading lines, one per Japanese line.
    pub furigana_lines: Vec<String>,
    pub furigana_above: bool,
}

/// The texts of a `BoxContent`.
pub struct ContentView {
    pub text: Seq<Seq<char>>,
    pub trans: Seq<Seq<char>>,
    pub source: Option<Seq<char>>,
    pub show_source: bool,
    pub furi: Seq<Seq<char>>,
    pub above: bool,
}

pub open spec fn opt_view(s: Option<String>) -> Option<Seq<char>> {
    match s {
        Some(t) => Some(t@),
        None => None,
    }
}

impl View for BoxContent {
    type V = ContentView;

    open spec fn view(&self) -> ContentView {
        ContentView {
            text: string_views(self.text_lines@),
            trans: string_views(self.translations@),
            source: opt_view(self.source),
            show_source: self.show_source,
            furi: string_views(self.furigana_lines@),
            above: self.furigana_above,
        }
    }
}

/// How the box is drawn.
#[derive(Clone, Copy)]
pub struct BoxLayout {
    pub horizontal_padding: usize,
    pub vertical_padding: usize,
    /// Inner width (0 = as wide as the content).
    pub width: usize,
    pub border: bool,
    pub rounded_border: bool,
    pub centered: bool,
}

/// The measures every row of a box shares.
#[derive(Clone, Copy)]
pub struct Geometry {
    /// Columns between the horizontal paddings.
    pub inner: usize,
    pub hp: usize,
    pub border: bool,
    pub centered: bool,
    /// Spaces before each row, which center the box in the terminal.
    pub pad: usize,
}

/// Columns that the border adds to a row.
pub open spec fn border_cols(border: bool) -> nat {
    if border {
        2
    } else {
        0
    }
}

pub open spec fn max_nat(a: nat, b: nat) -> nat {
    if a >= b {
        a
    } else {
        b
    }
}

/// The display width of the widest of some lines (0 for none).
pub open spec fn widest(lines: Seq<Seq<char>>) -> nat
    decreases lines.len(),
{
    if lines.len() == 0 {
        0
    } else {
        max_nat(widest(lines.drop_last()), unicode_str_width(lines.last()) as nat)
    }
}

/// The width the content asks for: its widest line, translation, shown
/// source or reading line.
pub open spec fn natural_width(c: ContentView) -> nat {
    let src: nat = match c.source {
        Some(s) => if c.show_source {
            unicode_str_width(s) as nat
        } else {
            0
        },
        None => 0,
    };
    max_nat(max_nat(max_nat(widest(c.text), widest(c.trans)), src), widest(c.furi))
}

/// The inner width: the one asked for (the content's when `width` is 0),
/// narrowed to what a terminal of width `tw` leaves after border and padding.
pub open spec fn inner_width_of(c: ContentView, l: BoxLayout, tw: Option<usize>) -> int {
    let wanted: int = if l.width > 0 {
        l.width as int
    } else {
        natural_width(c) as int
    };
    match tw {
        Some(t) => {
            let used = l.horizontal_padding * 2 + border_cols(l.border);
            let avail: int = if t >= used {
                t - used
            } else {
                0
            };
            if wanted <= avail {
                wanted
            } else {
                avail
            }
        },
        None => wanted,
    }
}

/// The box's full width: inner width, paddings and border.
pub open spec fn box_width_of(c: ContentView, l: BoxLayout, tw: Option<usize>) -> int {
    inner_width_of(c, l, tw) + l.horizontal_padding * 2 + border_cols(l.border)
}

pub open spec fn geometry_of(c: ContentView, l: BoxLayout, tw: Option<usize>) -> Geometry {
    let bw = box_width_of(c, l, tw);
    Geometry {
        inner: inner_width_of(c, l, tw) as usize,
        hp: l.horizontal_padding,
        border: l.border,
        centered: l.centered,
        pad: center_pad(bw as usize, l.centered, tw) as usize,
    }
}

/// A row of content: the centering spaces, then the framed content.
pub open spec fn content_row(tone: Tone, content: Seq<char>, g: Geometry) -> Seq<(Tone, Seq<char>)> {
    seq![(Tone::Plain, spaces(g.pad as nat))] + framed(tone, content, g.hp, g.border)
}

/// An empty row.
pub open spec fn blank_row(g: Geometry) -> Seq<(Tone, Seq<char>)> {
    seq![(Tone::Plain, spaces(g.pad as nat))] + blank(g.inner, g.hp, g.border)
}

/// The rows of one line: it is wrapped at the inner width, and each piece
/// aligned in the box.
pub open spec fn wrapped_rows(line: Seq<char>, tone: Tone, g: Geometry) -> Seq<
    Seq<(Tone, Seq<char>)>,
> {
    let ws = wrapped_lines(line, g.inner);
    Seq::new(ws.len(), |k: int| content_row(tone, aligned(ws[k], g.inner, g.centered), g))
}

/// The rows of a block of lines, in order.
pub open spec fn block_rows(lines: Seq<Seq<char>>, tone: Tone, g: Geometry) -> Seq<
    Seq<(Tone, Seq<char>)>,
>
    decreases lines.len(),
{
    if lines.len() == 0 {
        seq![]
    } else {
        block_rows(lines.drop_last(), tone, g) + wrapped_rows(lines.last(), tone, g)
    }
}

/// The width of the `i`th Japanese line without its trailing whitespace
/// (0 past the last line).
pub open spec fn kanji_width(text: Seq<Seq<char>>, i: int) -> nat {
    if 0 <= i < text.len() {
        unicode_str_width(trim_end(text[i])) as nat
    } else {
        0
    }
}

/// The spaces before a reading line: the margin its Japanese line gets when
/// centered, so that each reading stays over or under its kanji.
pub open spec fn furigana_left(text: Seq<Seq<char>>, i: int, g: Geometry) -> nat {
    let kw = kanji_width(text, i);
    if g.centered && kw < g.inner {
        ((g.inner - kw) / 2) as nat
    } else {
        0
    }
}

/// A reading line with its margin, padded on the right to the inner width.
pub open spec fn furigana_content(text: Seq<Seq<char>>, f: Seq<char>, i: int, g: Geometry) -> Seq<
    char,
> {
    let left = furigana_left(text, i, g);
    let fw = unicode_str_width(f) as nat;
    let right: nat = if g.inner >= left + fw {
        (g.inner - left - fw) as nat
    } else {
        0
    };
    spaces(left) + f + spaces(right)
}

pub open spec fn furigana_rows(text: Seq<Seq<char>>, furi: Seq<Seq<char>>, g: Geometry) -> Seq<
    Seq<(Tone, Seq<char>)>,
> {
    Seq::new(
        furi.len(),
        |i: int| content_row(Tone::Translation, furigana_content(text, furi[i], i, g), g),
    )
}

/// Each translation after an empty row.
pub open spec fn translation_rows(trans: Seq<Seq<char>>, g: Geometry) -> Seq<
    Seq<(Tone, Seq<char>)>,
>
    decreases trans.len(),
{
    if trans.len() == 0 {
        seq![]
    } else {
        translation_rows(trans.drop_last(), g) + seq![blank_row(g)] + wrapped_rows(
            trans.last(),
            Tone::Translation,
            g,
        )
    }
}

/// The source wrapped two columns narrower than the box, the first piece
/// after a dash and the others indented to match.
pub open spec fn source_lines(s: Seq<char>, inner: usize) -> Seq<Seq<char>> {
    let ws = wrapped_lines(
        s,
        if inner >= 2 {
            (inner - 2) as usize
        } else {
            0
        },
    );
    Seq::new(
        ws.len(),
        |i: int|
            if i == 0 {
                seq!['-', ' '] + ws[i]
            } else {
                seq![' ', ' '] + ws[i]
            },
    )
}

pub open spec fn source_rows(c: ContentView, g: Geometry) -> Seq<Seq<(Tone, Seq<char>)>> {
    if c.show_source && c.source is Some {
        seq![blank_row(g)] + block_rows(source_lines(c.source->0, g.inner), Tone::Source, g)
    } else {
        seq![]
    }
}

pub open spec fn blank_rows(n: nat, g: Geometry) -> Seq<Seq<(Tone, Seq<char>)>> {
    Seq::new(n, |_i: int| blank_row(g))
}

/// `n` horizontal box-drawing lines.
pub open spec fn rule(n: nat) -> Seq<char> {
    Seq::new(n, |_i: int| '\u{2500}')
}

/// The top or bottom border, corners rounded or square; the centering
/// spaces are drawn in the border's style too.
/// The corners of the top or bottom border, rounded or square.
pub open spec fn corners(top: bool, rounded: bool) -> (char, char) {
    if top {
        if rounded {
            ('\u{256D}', '\u{256E}')
        } else {
            ('\u{250C}', '\u{2510}')
        }
    } else {
        if rounded {
            ('\u{2570}', '\u{256F}')
        } else {
            ('\u{2514}', '\u{2518}')
        }
    }
}

/// The top or bottom border; the centering spaces are drawn in the
/// border's style too.
pub open spec fn border_row(top: bool, rounded: bool, g: Geometry) -> Seq<(Tone, Seq<char>)> {
    let c = corners(top, rounded);
    seq![(Tone::Border, spaces(g.pad as nat) + seq![c.0] + rule((g.inner + 2 * g.hp) as nat) + seq![c.1])]
}

pub open spec fn border_rows(top: bool, l: BoxLayout, g: Geometry) -> Seq<Seq<(Tone, Seq<char>)>> {
    if l.border {
        seq![border_row(top, l.rounded_border, g)]
    } else {
        seq![]
    }
}

/// The reading section above the Japanese text: the readings, then an empty row.
pub open spec fn furigana_above_rows(c: ContentView, g: Geometry) -> Seq<Seq<(Tone, Seq<char>)>> {
    if c.above && c.furi.len() > 0 {
        furigana_rows(c.text, c.furi, g) + seq![blank_row(g)]
    } else {
        seq![]
    }
}

/// The reading section below the Japanese text: an empty row, then the readings.
pub open spec fn furigana_below_rows(c: ContentView, g: Geometry) -> Seq<Seq<(Tone, Seq<char>)>> {
    if !c.above && c.furi.len() > 0 {
        seq![blank_row(g)] + furigana_rows(c.text, c.furi, g)
    } else {
        seq![]
    }
}

/// Every row of the box, top to bottom.
pub open spec fn box_rows(c: ContentView, l: BoxLayout, tw: Option<usize>) -> Seq<
    Seq<(Tone, Seq<char>)>,
> {
    let g = geometry_of(c, l, tw);
    border_rows(true, l, g) + blank_rows(l.vertical_padding as nat, g) + furigana_above_rows(c, g)
        + block_rows(c.text, Tone::Japanese, g) + furigana_below_rows(c, g) + translation_rows(
        c.trans,
        g,
    ) + source_rows(c, g) + blank_rows(l.vertical_padding as nat, g) + border_rows(false, l, g)
}

/// The box's arithmetic stays within `usize`: paddings and border, the whole
/// box width, and each reading line with its margin.
pub open spec fn box_fits(c: ContentView, l: BoxLayout, tw: Option<usize>) -> bool {
    let g = geometry_of(c, l, tw);
    &&& l.horizontal_padding * 2 + border_cols(l.border) <= usize::MAX
    &&& box_width_of(c, l, tw) <= usize::MAX
    &&& forall|i: int|
        0 <= i < c.furi.len() ==> furigana_left(c.text, i, g) + unicode_str_width(#[trigger] c.furi[i])
            <= usize::MAX
}


fn push_row(out: &mut Vec<Vec<Span>>, row: Vec<Span>)
    ensures
        lines_view(final(out)@) == lines_view(old(out)@).push(line_view(row@)),
{
    let ghost before = out@;
    let ghost rv = row@;
    out.push(row);
    assert(lines_view(out@) =~= lines_view(before).push(line_view(rv)));
}

fn content_line(tone: Tone, content: &Vec<char>, g: Geometry) -> (r: Vec<Span>)
    ensures
        line_view(r@) == content_row(tone, content@, g),
{
    let mut r: Vec<Span> = Vec::new();
    let p = spaces_vec(g.pad);
    push_span(&mut r, Tone::Plain, &p);
    let pad = spaces_vec(g.hp);
    if g.border {
        let b = bar_vec();
        push_span(&mut r, Tone::Border, &b);
        push_span(&mut r, Tone::Plain, &pad);
        push_span(&mut r, tone, content);
        push_span(&mut r, Tone::Plain, &pad);
        push_span(&mut r, Tone::Border, &b);
    } else {
        push_span(&mut r, Tone::Plain, &pad);
        push_span(&mut r, tone, content);
    }
    assert(line_view(r@) =~= content_row(tone, content@, g));
    r
}

fn blank_line_row(g: Geometry) -> (r: Vec<Span>)
    requires
        g.hp + g.inner <= usize::MAX,
    ensures
        line_view(r@) == blank_row(g),
{
    let mut r: Vec<Span> = Vec::new();
    let p = spaces_vec(g.pad);
    push_span(&mut r, Tone::Plain, &p);
    if g.border {
        let b = bar_vec();
        let mut mid = spaces_vec(g.hp);
        push_spaces(&mut mid, g.inner);
        push_spaces(&mut mid, g.hp);
        push_span(&mut r, Tone::Border, &b);
        push_span(&mut r, Tone::Plain, &mid);
        push_span(&mut r, Tone::Border, &b);
    } else {
        let sp = spaces_vec(g.hp + g.inner);
        push_span(&mut r, Tone::Plain, &sp);
    }
    assert(line_view(r@) =~= blank_row(g));
    r
}

/// Appends the rows of one line, wrapped and aligned.
fn push_wrapped(out: &mut Vec<Vec<Span>>, line: &str, tone: Tone, g: Geometry)
    ensures
        lines_view(final(out)@) == lines_view(old(out)@) + wrapped_rows(line@, tone, g),
{
    let ws = wrap_text(line, g.inner);
    let ghost wl = wrapped_lines(line@, g.inner);
    let mut k: usize = 0;
    while k < ws.len()
        invariant
            k <= ws.len(),
            string_views(ws@) == wl,
            wl == wrapped_lines(line@, g.inner),
            lines_view(out@) == lines_view(old(out)@) + Seq::new(
                k as nat,
                |j: int| content_row(tone, aligned(wl[j], g.inner, g.centered), g),
            ),
        decreases ws.len() - k,
    {
        assert(ws@[k as int]@ == wl[k as int]);
        let a = align_in_box(ws[k].as_str(), g.inner, g.centered);
        let av = chars_of(a.as_str());
        let row = content_line(tone, &av, g);
        push_row(out, row);
        k += 1;
        assert(Seq::new(k as nat, |j: int| content_row(tone, aligned(wl[j], g.inner, g.centered), g))
            =~= Seq::new(
            (k - 1) as nat,
            |j: int| content_row(tone, aligned(wl[j], g.inner, g.centered), g),
        ).push(content_row(tone, aligned(wl[k - 1], g.inner, g.centered), g)));
    }
    assert(Seq::new(k as nat, |j: int| content_row(tone, aligned(wl[j], g.inner, g.centered), g))
        =~= wrapped_rows(line@, tone, g));
}

/// Appends the rows of a block of lines.
fn push_block(out: &mut Vec<Vec<Span>>, lines: &[String], tone: Tone, g: Geometry)
    ensures
        lines_view(final(out)@) == lines_view(old(out)@) + block_rows(string_views(lines@), tone, g),
{
    let ghost sv = string_views(lines@);
    let mut i: usize = 0;
    assert(sv.take(0) =~= Seq::<Seq<char>>::empty());
    assert(lines_view(out@) =~= lines_view(old(out)@) + block_rows(sv.take(0), tone, g));
    while i < lines.len()
        invariant
            i <= lines.len(),
            sv == string_views(lines@),
            lines_view(out@) == lines_view(old(out)@) + block_rows(sv.take(i as int), tone, g),
        decreases lines.len() - i,
    {
        let ghost mid = lines_view(out@);
        push_wrapped(out, lines[i].as_str(), tone, g);
        proof {
            assert(sv.take(i + 1).drop_last() =~= sv.take(i as int));
            assert(sv.take(i + 1).last() == lines@[i as int]@);
            assert(lines_view(out@) =~= lines_view(old(out)@) + block_rows(sv.take(i + 1), tone, g));
        }
        i += 1;
    }
    assert(sv.take(lines.len() as int) =~= sv);
}

/// The widest of some lines.
fn widest_exec(lines: &[String]) -> (r: usize)
    ensures
        r == widest(string_views(lines@)),
{
    let ghost sv = string_views(lines@);
    let mut m: usize = 0;
    let mut i: usize = 0;
    assert(sv.take(0) =~= Seq::<Seq<char>>::empty());
    while i < lines.len()
        invariant
            i <= lines.len(),
            sv == string_views(lines@),
            m == widest(sv.take(i as int)),
        decreases lines.len() - i,
    {
        let w = str_width(lines[i].as_str());
        if w > m {
            m = w;
        }
        proof {
            assert(sv.take(i + 1).drop_last() =~= sv.take(i as int));
            assert(sv.take(i + 1).last() == lines@[i as int]@);
        }
        i += 1;
    }
    assert(sv.take(lines.len() as int) =~= sv);
    m
}

/// The box's measures, or `None` where its width would not fit in `usize`.
fn checked_geometry(content: &BoxContent, layout: BoxLayout, term_width: Option<usize>) -> (r:
    Option<Geometry>)
    ensures
        r is Some <==> (layout.horizontal_padding * 2 + border_cols(layout.border) <= usize::MAX
            && box_width_of(content@, layout, term_width) <= usize::MAX),
        r is Some ==> r->0 == geometry_of(content@, layout, term_width),
{
    let hp = layout.horizontal_padding;
    let bc: usize = if layout.border {
        2
    } else {
        0
    };
    if hp > (usize::MAX - bc) / 2 {
        return None;
    }
    let used = hp * 2 + bc;
    let mut natural = widest_exec(content.text_lines.as_slice());
    let tw = widest_exec(content.translations.as_slice());
    if tw > natural {
        natural = tw;
    }
    if content.show_source {
        match &content.source {
            Some(s) => {
                let sw = str_width(s.as_str());
                if sw > natural {
                    natural = sw;
                }
            },
            None => {},
        }
    }
    let fw = widest_exec(content.furigana_lines.as_slice());
    if fw > natural {
        natural = fw;
    }
    let wanted = if layout.width > 0 {
        layout.width
    } else {
        natural
    };
    let inner = match term_width {
        Some(t) => {
            let avail = if t >= used {
                t - used
            } else {
                0
            };
            if wanted <= avail {
                wanted
            } else {
                avail
            }
        },
        None => wanted,
    };
    if inner > usize::MAX - used {
        return None;
    }
    let box_width = inner + used;
    let pad = center_pad_exec(box_width, layout.centered, term_width);
    Some(Geometry { inner, hp, border: layout.border, centered: layout.centered, pad })
}


/// The readings and their margins fit in `usize`.
pub open spec fn furigana_fit(text: Seq<Seq<char>>, furi: Seq<Seq<char>>, g: Geometry) -> bool {
    forall|i: int|
        0 <= i < furi.len() ==> furigana_left(text, i, g) + unicode_str_width(#[trigger] furi[i])
            <= usize::MAX
}

/// The margin of the `i`th reading line.
fn furigana_left_exec(text: &[String], i: usize, g: Geometry) -> (r: usize)
    ensures
        r == furigana_left(string_views(text@), i as int, g),
{
    let kw = if i < text.len() {
        let t = chars_of(text[i].as_str());
        let tt = trim_end_vec(&t);
        let ts = string_of(&tt);
        str_width(ts.as_str())
    } else {
        0
    };
    if g.centered && kw < g.inner {
        (g.inner - kw) / 2
    } else {
        0
    }
}

fn furigana_fit_exec(text: &[String], furi: &[String], g: Geometry) -> (b: bool)
    ensures
        b == furigana_fit(string_views(text@), string_views(furi@), g),
{
    let mut i: usize = 0;
    while i < furi.len()
        invariant
            i <= furi.len(),
            forall|j: int|
                0 <= j < i ==> furigana_left(string_views(text@), j, g) + unicode_str_width(
                    #[trigger] string_views(furi@)[j],
                ) <= usize::MAX,
        decreases furi.len() - i,
    {
        let left = furigana_left_exec(text, i, g);
        let fw = str_width(furi[i].as_str());
        assert(string_views(furi@)[i as int] == furi@[i as int]@);
        if left > usize::MAX - fw {
            return false;
        }
        i += 1;
    }
    true
}

/// Appends the reading rows.
fn push_furigana(out: &mut Vec<Vec<Span>>, text: &[String], furi: &[String], g: Geometry)
    requires
        furigana_fit(string_views(text@), string_views(furi@), g),
    ensures
        lines_view(final(out)@) == lines_view(old(out)@) + furigana_rows(
            string_views(text@),
            string_views(furi@),
            g,
        ),
{
    let ghost tv = string_views(text@);
    let ghost fv = string_views(furi@);
    let mut i: usize = 0;
    while i < furi.len()
        invariant
            i <= furi.len(),
            tv == string_views(text@),
            fv == string_views(furi@),
            furigana_fit(tv, fv, g),
            lines_view(out@) == lines_view(old(out)@) + furigana_rows(tv, fv.take(i as int), g),
        decreases furi.len() - i,
    {
        let left = furigana_left_exec(text, i, g);
        let fw = str_width(furi[i].as_str());
        assert(fv[i as int] == furi@[i as int]@);
        let right = if g.inner >= left + fw {
            g.inner - (left + fw)
        } else {
            0
        };
        let mut content = spaces_vec(left);
        let fc = chars_of(furi[i].as_str());
        push_all(&mut content, &fc);
        push_spaces(&mut content, right);
        let row = content_line(Tone::Translation, &content, g);
        push_row(out, row);
        proof {
            assert(content@ =~= furigana_content(tv, fv[i as int], i as int, g));
            assert(furigana_rows(tv, fv.take(i + 1), g) =~= furigana_rows(tv, fv.take(i as int), g).push(
                content_row(Tone::Translation, furigana_content(tv, fv[i as int], i as int, g), g),
            ));
        }
        i += 1;
    }
    assert(fv.take(furi.len() as int) =~= fv);
}

fn push_blank_rows(out: &mut Vec<Vec<Span>>, n: usize, g: Geometry)
    requires
        g.hp + g.inner <= usize::MAX,
    ensures
        lines_view(final(out)@) == lines_view(old(out)@) + blank_rows(n as nat, g),
{
    let mut i: usize = 0;
    while i < n
        invariant
            i <= n,
            g.hp + g.inner <= usize::MAX,
            lines_view(out@) == lines_view(old(out)@) + blank_rows(i as nat, g),
        decreases n - i,
    {
        let row = blank_line_row(g);
        push_row(out, row);
        i += 1;
        assert(blank_rows(i as nat, g) =~= blank_rows((i - 1) as nat, g).push(blank_row(g)));
    }
}

fn corners_exec(top: bool, rounded: bool) -> (r: (char, char))
    ensures
        r == corners(top, rounded),
{
    if top {
        if rounded {
            ('\u{256D}', '\u{256E}')
        } else {
            ('\u{250C}', '\u{2510}')
        }
    } else {
        if rounded {
            ('\u{2570}', '\u{256F}')
        } else {
            ('\u{2514}', '\u{2518}')
        }
    }
}

fn push_border(out: &mut Vec<Vec<Span>>, top: bool, layout: BoxLayout, g: Geometry)
    requires
        g.inner + 2 * g.hp <= usize::MAX,
    ensures
        lines_view(final(out)@) == lines_view(old(out)@) + border_rows(top, layout, g),
{
    if layout.border {
        let (l, r) = corners_exec(top, layout.rounded_border);
        let mut v = spaces_vec(g.pad);
        v.push(l);
        let n = g.inner + 2 * g.hp;
        let mut i: usize = 0;
        while i < n
            invariant
                i <= n,
                v@ == spaces(g.pad as nat) + seq![l] + rule(i as nat),
            decreases n - i,
        {
            v.push('\u{2500}');
            i += 1;
            assert(v@ =~= spaces(g.pad as nat) + seq![l] + rule(i as nat));
        }
        v.push(r);
        let ghost c = corners(top, layout.rounded_border);
        assert(v@ =~= spaces(g.pad as nat) + seq![c.0] + rule((g.inner + 2 * g.hp) as nat) + seq![c.1]);
        let mut row: Vec<Span> = Vec::new();
        push_span(&mut row, Tone::Border, &v);
        assert(line_view(row@) =~= seq![(Tone::Border, v@)]);
        assert(line_view(row@) =~= border_row(top, layout.rounded_border, g));
        push_row(out, row);
        assert(lines_view(out@) =~= lines_view(old(out)@) + border_rows(top, layout, g));
    } else {
        assert(lines_view(out@) =~= lines_view(old(out)@) + border_rows(top, layout, g));
    }
}


fn push_translations(out: &mut Vec<Vec<Span>>, trans: &[String], g: Geometry)
    requires
        g.hp + g.inner <= usize::MAX,
    ensures
        lines_view(final(out)@) == lines_view(old(out)@) + translation_rows(string_views(trans@), g),
{
    let ghost sv = string_views(trans@);
    let mut i: usize = 0;
    assert(sv.take(0) =~= Seq::<Seq<char>>::empty());
    assert(lines_view(out@) =~= lines_view(old(out)@) + translation_rows(sv.take(0), g));
    while i < trans.len()
        invariant
            i <= trans.len(),
            g.hp + g.inner <= usize::MAX,
            sv == string_views(trans@),
            lines_view(out@) == lines_view(old(out)@) + translation_rows(sv.take(i as int), g),
        decreases trans.len() - i,
    {
        let blank = blank_line_row(g);
        push_row(out, blank);
        push_wrapped(out, trans[i].as_str(), Tone::Translation, g);
        proof {
            assert(sv.take(i + 1).drop_last() =~= sv.take(i as int));
            assert(sv.take(i + 1).last() == trans@[i as int]@);
            assert(lines_view(out@) =~= lines_view(old(out)@) + translation_rows(sv.take(i + 1), g));
        }
        i += 1;
    }
    assert(sv.take(trans.len() as int) =~= sv);
}

/// The source's lines: wrapped two columns narrower than the box, after a
/// dash or an indent.
fn source_line_strings(s: &str, inner: usize) -> (r: Vec<String>)
    ensures
        string_views(r@) == source_lines(s@, inner),
{
    let w = if inner >= 2 {
        inner - 2
    } else {
        0
    };
    let ws = wrap_text(s, w);
    let ghost wl = wrapped_lines(s@, w);
    let mut r: Vec<String> = Vec::new();
    let mut i: usize = 0;
    while i < ws.len()
        invariant
            i <= ws.len(),
            string_views(ws@) == wl,
            wl == wrapped_lines(s@, w),
            w == (if inner >= 2 {
                (inner - 2) as usize
            } else {
                0usize
            }),
            string_views(r@) == source_lines(s@, inner).take(i as int),
            source_lines(s@, inner).len() == wl.len(),
        decreases ws.len() - i,
    {
        let mut v: Vec<char> = Vec::new();
        if i == 0 {
            v.push('-');
            v.push(' ');
        } else {
            v.push(' ');
            v.push(' ');
        }
        let piece = chars_of(ws[i].as_str());
        push_all(&mut v, &piece);
        let line = string_of(&v);
        let ghost before = r@;
        r.push(line);
        proof {
            assert(ws@[i as int]@ == wl[i as int]);
            assert(piece@ == wl[i as int]);
            assert(wrapped_lines(
                s@,
                if inner >= 2 {
                    (inner - 2) as usize
                } else {
                    0
                },
            ) == wl);
            assert(v@ =~= source_lines(s@, inner)[i as int]);
            assert(string_views(r@) =~= string_views(before).push(v@));
            assert(source_lines(s@, inner).take(i + 1) =~= source_lines(s@, inner).take(i as int).push(
                v@,
            ));
        }
        i += 1;
    }
    assert(source_lines(s@, inner).take(ws.len() as int) =~= source_lines(s@, inner));
    r
}

fn push_source(out: &mut Vec<Vec<Span>>, content: &BoxContent, g: Geometry)
    requires
        g.hp + g.inner <= usize::MAX,
    ensures
        lines_view(final(out)@) == lines_view(old(out)@) + source_rows(content@, g),
{
    if content.show_source {
        match &content.source {
            Some(s) => {
                let blank = blank_line_row(g);
                push_row(out, blank);
                let lines = source_line_strings(s.as_str(), g.inner);
                push_block(out, lines.as_slice(), Tone::Source, g);
                assert(lines_view(out@) =~= lines_view(old(out)@) + source_rows(content@, g));
            },
            None => {
                assert(lines_view(out@) =~= lines_view(old(out)@) + source_rows(content@, g));
            },
        }
    } else {
        assert(lines_view(out@) =~= lines_view(old(out)@) + source_rows(content@, g));
    }
}

fn push_furigana_above(out: &mut Vec<Vec<Span>>, content: &BoxContent, g: Geometry)
    requires
        g.hp + g.inner <= usize::MAX,
        furigana_fit(content@.text, content@.furi, g),
    ensures
        lines_view(final(out)@) == lines_view(old(out)@) + furigana_above_rows(content@, g),
{
    if content.furigana_above && content.furigana_lines.len() > 0 {
        push_furigana(out, content.text_lines.as_slice(), content.furigana_lines.as_slice(), g);
        let blank = blank_line_row(g);
        push_row(out, blank);
        assert(lines_view(out@) =~= lines_view(old(out)@) + furigana_above_rows(content@, g));
    } else {
        assert(lines_view(out@) =~= lines_view(old(out)@) + furigana_above_rows(content@, g));
    }
}

fn push_furigana_below(out: &mut Vec<Vec<Span>>, content: &BoxContent, g: Geometry)
    requires
        g.hp + g.inner <= usize::MAX,
        furigana_fit(content@.text, content@.furi, g),
    ensures
        lines_view(final(out)@) == lines_view(old(out)@) + furigana_below_rows(content@, g),
{
    if !content.furigana_above && content.furigana_lines.len() > 0 {
        let blank = blank_line_row(g);
        push_row(out, blank);
        push_furigana(out, content.text_lines.as_slice(), content.furigana_lines.as_slice(), g);
        assert(lines_view(out@) =~= lines_view(old(out)@) + furigana_below_rows(content@, g));
    } else {
        assert(lines_view(out@) =~= lines_view(old(out)@) + furigana_below_rows(content@, g));
    }
}

/// Every row of the box for a terminal of width `term_width` (`None` when
/// the width is unknown): border, vertical padding, readings above or below
/// the Japanese text, each translation after an empty row, the source after
/// an empty row, padding and border again.
pub fn box_lines(content: &BoxContent, layout: BoxLayout, term_width: Option<usize>) -> (r: Vec<
    Vec<Span>,
>)
    requires
        box_fits(content@, layout, term_width),
    ensures
        lines_view(r@) == box_rows(content@, layout, term_width),
{
    let g = match checked_geometry(content, layout, term_width) {
        Some(g) => g,
        None => {
            return Vec::new();
        },
    };
    let mut out: Vec<Vec<Span>> = Vec::new();
    assert(lines_view(out@) =~= Seq::<Seq<(Tone, Seq<char>)>>::empty());
    push_border(&mut out, true, layout, g);
    push_blank_rows(&mut out, layout.vertical_padding, g);
    push_furigana_above(&mut out, content, g);
    push_block(&mut out, content.text_lines.as_slice(), Tone::Japanese, g);
    push_furigana_below(&mut out, content, g);
    push_translations(&mut out, content.translations.as_slice(), g);
    push_source(&mut out, content, g);
    push_blank_rows(&mut out, layout.vertical_padding, g);
    push_border(&mut out, false, layout, g);
    assert(lines_view(out@) =~= box_rows(content@, layout, term_width));
    out
}

/// Every row of the box for the terminal it is drawn in: the terminal's
/// width is read once, and the box laid out for it as `box_lines` does;
/// `None` where the box for that width would not fit in `usize` arithmetic.
pub fn boxed_lines(content: &BoxContent, layout: BoxLayout) -> (r: Option<Vec<Vec<Span>>>)
    ensures
        match r {
            Some(rows) => exists|tw: Option<usize>|
                box_fits(content@, layout, tw) && lines_view(rows@) == #[trigger] box_rows(
                    content@,
                    layout,
                    tw,
                ),
            None => exists|tw: Option<usize>| !#[trigger] box_fits(content@, layout, tw),
        },
{
    let term_width = match terminal_dimensions() {
        Some((w, _)) => Some(w),
        None => None,
    };
    match checked_geometry(content, layout, term_width) {
        Some(g) => {
            if furigana_fit_exec(content.text_lines.as_slice(), content.furigana_lines.as_slice(), g) {
                assert(box_fits(content@, layout, term_width));
                let rows = box_lines(content, layout, term_width);
                assert(lines_view(rows@) == box_rows(content@, layout, term_width));
                Some(rows)
            } else {
                assert(!furigana_fit(content@.text, content@.furi, g));
                let ghost i = choose|i: int|
                    0 <= i < content@.furi.len() && !(furigana_left(content@.text, i, g)
                        + unicode_str_width(#[trigger] content@.furi[i]) <= usize::MAX);
                assert(!box_fits(content@, layout, term_width));
                None
            }
        },
        None => {
            assert(!box_fits(content@, layout, term_width));
            None
        },
    }
}


/// The number of rows a box has when no line wraps: the Japanese lines,
/// the readings with their empty row, an empty row and a row per
/// translation, two rows for a shown source, the vertical padding above and
/// below, and the two borders.
pub open spec fn height_of(c: ContentView, l: BoxLayout) -> int {
    c.text.len() + (if c.furi.len() > 0 {
        c.furi.len() + 1
    } else {
        0
    }) + 2 * c.trans.len() + (if c.show_source {
        2int
    } else {
        0
    }) + 2 * l.vertical_padding + border_cols(l.border)
}

/// The rows the box takes on screen when nothing wraps, which is how far an
/// animation moves the cursor back up between frames.
pub fn box_height(content: &BoxContent, layout: BoxLayout) -> (n: usize)
    requires
        height_of(content@, layout) <= usize::MAX,
    ensures
        n == height_of(content@, layout),
{
    let mut n = content.text_lines.len();
    if content.furigana_lines.len() > 0 {
        n += content.furigana_lines.len() + 1;
    }
    n += content.translations.len() * 2;
    if content.show_source {
        n += 2;
    }
    n += layout.vertical_padding * 2;
    if layout.border {
        n += 2;
    }
    n
}

/// Each line wraps into a single piece at width `w`.
pub open spec fn unwrapped(lines: Seq<Seq<char>>, w: usize) -> bool {
    forall|i: int| 0 <= i < lines.len() ==> (#[trigger] wrapped_lines(lines[i], w)).len() == 1
}

proof fn lemma_block_len(lines: Seq<Seq<char>>, tone: Tone, g: Geometry)
    requires
        unwrapped(lines, g.inner),
    ensures
        block_rows(lines, tone, g).len() == lines.len(),
    decreases lines.len(),
{
    if lines.len() > 0 {
        let front = lines.drop_last();
        assert forall|i: int| 0 <= i < front.len() implies (#[trigger] wrapped_lines(
            front[i],
            g.inner,
        )).len() == 1 by {
            assert(front[i] == lines[i]);
        }
        lemma_block_len(front, tone, g);
        assert(wrapped_lines(lines[lines.len() - 1], g.inner).len() == 1);
    }
}

proof fn lemma_translation_len(trans: Seq<Seq<char>>, g: Geometry)
    requires
        unwrapped(trans, g.inner),
    ensures
        translation_rows(trans, g).len() == 2 * trans.len(),
    decreases trans.len(),
{
    if trans.len() > 0 {
        let front = trans.drop_last();
        assert forall|i: int| 0 <= i < front.len() implies (#[trigger] wrapped_lines(
            front[i],
            g.inner,
        )).len() == 1 by {
            assert(front[i] == trans[i]);
        }
        lemma_translation_len(front, g);
        assert(wrapped_lines(trans[trans.len() - 1], g.inner).len() == 1);
    }
}

/// When no line wraps (the Japanese lines and translations at the inner
/// width, the source into one line that then fits the box), and a shown
/// source is there, the box has exactly `box_height` rows.
pub proof fn law_box_height_counts_rows(c: ContentView, l: BoxLayout, tw: Option<usize>)
    requires
        unwrapped(c.text, geometry_of(c, l, tw).inner),
        unwrapped(c.trans, geometry_of(c, l, tw).inner),
        c.show_source ==> c.source is Some && source_lines(c.source->0, geometry_of(c, l, tw).inner).len()
            == 1 && unwrapped(
            source_lines(c.source->0, geometry_of(c, l, tw).inner),
            geometry_of(c, l, tw).inner,
        ),
    ensures
        box_rows(c, l, tw).len() == height_of(c, l),
{
    let g = geometry_of(c, l, tw);
    lemma_block_len(c.text, Tone::Japanese, g);
    lemma_translation_len(c.trans, g);
    if c.show_source {
        lemma_block_len(source_lines(c.source->0, g.inner), Tone::Source, g);
        assert(source_rows(c, g).len() == 2);
    } else {
        assert(source_rows(c, g).len() == 0);
    }
    assert(border_rows(true, l, g).len() == (if l.border { 1int } else { 0 }));
    assert(border_rows(false, l, g).len() == (if l.border { 1int } else { 0 }));
    assert(blank_rows(l.vertical_padding as nat, g).len() == l.vertical_padding);
    assert(furigana_above_rows(c, g).len() + furigana_below_rows(c, g).len() == (if c.furi.len() > 0 {
        c.furi.len() + 1
    } else {
        0
    }));
}

} // verus!
