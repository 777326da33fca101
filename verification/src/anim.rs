//! The frames of the intro animations: typewriter, slide and scramble, and
//! how many frames an animation has and how long each is shown.

use vstd::prelude::*;
use crate::ruby::{columns, columns_of, push_spaces, spaces};
use crate::style::{byte_len, lemma_byte_len_prefix, utf8_len_exec};
use crate::text::{chars_of, is_whitespace, is_ws, slice_vec, string_of, string_views};
use crate::boxed::{BoxContent, ContentView};
use crate::config::AnimationType;
use crate::layout::spaces_vec;
use crate::random::random_index;
use crate::widths::{char_width, str_width, unicode_str_width};
use rand::rngs::StdRng;

verus! {

pub open spec fn sat_sub(a: int, b: int) -> nat {
    if a >= b {
        (a - b) as nat
    } else {
        0
    }
}

/// The characters of some lines, counted together.
pub open spec fn total_chars(lines: Seq<Seq<char>>) -> nat
    decreases lines.len(),
{
    if lines.len() == 0 {
        0
    } else {
        total_chars(lines.drop_last()) + lines.last().len()
    }
}

/// Lines short enough that counting their columns stays within `usize`.
pub open spec fn countable(lines: Seq<Seq<char>>) -> bool {
    forall|i: int| 0 <= i < lines.len() ==> 255 * (#[trigger] lines[i]).len() <= usize::MAX
}

/// A typewriter line: its first `n` characters, padded with spaces to the
/// line's width.
pub open spec fn typed_line(line: Seq<char>, n: nat) -> Seq<char> {
    let k = if n <= line.len() {
        n
    } else {
        line.len()
    };
    let visible = line.take(k as int);
    visible + spaces(sat_sub(unicode_str_width(line) as int, columns(visible) as int))
}

/// The typewriter frame that shows the first `reveal` characters of the
/// lines, taken together in order.
pub open spec fn typewriter(lines: Seq<Seq<char>>, reveal: nat) -> Seq<Seq<char>> {
    Seq::new(
        lines.len(),
        |i: int| typed_line(lines[i], sat_sub(reveal as int, total_chars(lines.take(i)) as int)),
    )
}

fn char_columns(c: char) -> (n: usize)
    ensures
        n == columns_of(c),
        n <= 255,
{
    match char_width(c) {
        Some(w) => w,
        None => 1,
    }
}

/// The columns of the first `k` characters.
fn prefix_columns(v: &Vec<char>, k: usize) -> (n: usize)
    requires
        k <= v.len(),
        255 * v.len() <= usize::MAX,
    ensures
        n == columns(v@.take(k as int)),
{
    let mut n: usize = 0;
    let mut j: usize = 0;
    assert(v@.take(0) =~= Seq::<char>::empty());
    while j < k
        invariant
            j <= k <= v.len(),
            255 * v.len() <= usize::MAX,
            n == columns(v@.take(j as int)),
            n <= 255 * j,
        decreases k - j,
    {
        let c = char_columns(v[j]);
        assert(v@.take(j + 1).drop_last() =~= v@.take(j as int));
        n = n + c;
        j += 1;
    }
    n
}

/// The typewriter frame: the first `reveal` characters of the lines, taken
/// together, each line padded to its width.
pub fn anim_typewriter(lines: &[String], reveal: usize) -> (r: Vec<String>)
    requires
        countable(string_views(lines@)),
    ensures
        string_views(r@) == typewriter(string_views(lines@), reveal as nat),
{
    let ghost sv = string_views(lines@);
    let mut out: Vec<String> = Vec::new();
    let mut remaining = reveal;
    let mut i: usize = 0;
    assert(sv.take(0) =~= Seq::<Seq<char>>::empty());
    while i < lines.len()
        invariant
            i <= lines.len(),
            sv == string_views(lines@),
            countable(sv),
            remaining == sat_sub(reveal as int, total_chars(sv.take(i as int)) as int),
            string_views(out@) == typewriter(sv, reveal as nat).take(i as int),
        decreases lines.len() - i,
    {
        let total_w = str_width(lines[i].as_str());
        let chars = chars_of(lines[i].as_str());
        assert(sv[i as int] == chars@);
        assert(255 * sv[i as int].len() <= usize::MAX);
        let to_show = if remaining < chars.len() {
            remaining
        } else {
            chars.len()
        };
        let shown_w = prefix_columns(&chars, to_show);
        let mut v = slice_vec(&chars, 0, to_show);
        let pad = if total_w >= shown_w {
            total_w - shown_w
        } else {
            0
        };
        push_spaces(&mut v, pad);
        let ghost before = out@;
        out.push(string_of(&v));
        proof {
            assert(chars@.subrange(0, to_show as int) =~= chars@.take(to_show as int));
            assert(v@ == typed_line(sv[i as int], remaining as nat));
            assert(sv.take(i + 1).drop_last() =~= sv.take(i as int));
            assert(string_views(out@) =~= string_views(before).push(v@));
            assert(typewriter(sv, reveal as nat).take(i + 1) =~= typewriter(sv, reveal as nat).take(
                i as int,
            ).push(v@));
        }
        remaining = if remaining >= chars.len() {
            remaining - chars.len()
        } else {
            0
        };
        i += 1;
    }
    assert(typewriter(sv, reveal as nat).take(lines.len() as int) =~= typewriter(sv, reveal as nat));
    out
}

/// A slide line in frame `frame` of `total`: the line shown from the right,
/// `width * frame / total` columns of it, the rest blank.
pub open spec fn slid_line(line: Seq<char>, frame: nat, total: nat) -> Seq<char> {
    let w = unicode_str_width(line) as int;
    let t: int = if total >= 1 {
        total as int
    } else {
        1
    };
    let offset = sat_sub(w, w * frame / t);
    if offset == 0 {
        line
    } else {
        let vc = sat_sub(line.len() as int, offset as int);
        let visible = line.skip(line.len() - vc);
        spaces(sat_sub(w, unicode_str_width(visible) as int)) + visible
    }
}

pub open spec fn slide(lines: Seq<Seq<char>>, frame: nat, total: nat) -> Seq<Seq<char>> {
    Seq::new(lines.len(), |i: int| slid_line(lines[i], frame, total))
}

/// Each line's width times `frame` stays within `usize`.
pub open spec fn slide_fits(lines: Seq<Seq<char>>, frame: nat) -> bool {
    forall|i: int| 0 <= i < lines.len() ==> unicode_str_width(#[trigger] lines[i]) * frame <= usize::MAX
}

fn slid_line_exec(line: &str, frame: usize, total_frames: usize) -> (r: String)
    requires
        unicode_str_width(line@) * frame <= usize::MAX,
    ensures
        r@ == slid_line(line@, frame as nat, total_frames as nat),
{
    let w = str_width(line);
    let t = if total_frames >= 1 {
        total_frames
    } else {
        1
    };
    let shown = w * frame / t;
    let chars = chars_of(line);
    if w <= shown {
        return string_of(&chars);
    }
    let offset = w - shown;
    let vc = if chars.len() >= offset {
        chars.len() - offset
    } else {
        0
    };
    let visible = slice_vec(&chars, chars.len() - vc, chars.len());
    let vs = string_of(&visible);
    let vw = str_width(vs.as_str());
    let mut out: Vec<char> = Vec::new();
    push_spaces(&mut out, if w >= vw {
        w - vw
    } else {
        0
    });
    let mut k: usize = 0;
    while k < visible.len()
        invariant
            k <= visible.len(),
            out@ == spaces(sat_sub(w as int, vw as int)) + visible@.take(k as int),
        decreases visible.len() - k,
    {
        out.push(visible[k]);
        k += 1;
        assert(out@ =~= spaces(sat_sub(w as int, vw as int)) + visible@.take(k as int));
    }
    assert(visible@.take(visible.len() as int) =~= visible@);
    assert(visible@ =~= line@.skip(line@.len() - vc));
    string_of(&out)
}

/// The slide frame `frame` of `total_frames`.
fn anim_slide(lines: &[String], frame: usize, total_frames: usize) -> (r: Vec<String>)
    requires
        slide_fits(string_views(lines@), frame as nat),
    ensures
        string_views(r@) == slide(string_views(lines@), frame as nat, total_frames as nat),
{
    let ghost sv = string_views(lines@);
    let mut out: Vec<String> = Vec::new();
    let mut i: usize = 0;
    while i < lines.len()
        invariant
            i <= lines.len(),
            sv == string_views(lines@),
            slide_fits(sv, frame as nat),
            string_views(out@) == slide(sv, frame as nat, total_frames as nat).take(i as int),
        decreases lines.len() - i,
    {
        assert(sv[i as int] == lines@[i as int]@);
        let l = slid_line_exec(lines[i].as_str(), frame, total_frames);
        let ghost before = out@;
        out.push(l);
        proof {
            assert(string_views(out@) =~= string_views(before).push(l@));
            assert(slide(sv, frame as nat, total_frames as nat).take(i + 1) =~= slide(
                sv,
                frame as nat,
                total_frames as nat,
            ).take(i as int).push(l@));
        }
        i += 1;
    }
    assert(slide(sv, frame as nat, total_frames as nat).take(lines.len() as int) =~= slide(
        sv,
        frame as nat,
        total_frames as nat,
    ));
    out
}


/// The non-newline characters of a line, in order.
pub open spec fn visible(line: Seq<char>) -> Seq<char>
    decreases line.len(),
{
    if line.len() == 0 {
        seq![]
    } else if line.last() == '\n' {
        visible(line.drop_last())
    } else {
        visible(line.drop_last()).push(line.last())
    }
}

/// The non-newline characters of some lines, counted together.
pub open spec fn total_visible(lines: Seq<Seq<char>>) -> nat
    decreases lines.len(),
{
    if lines.len() == 0 {
        0
    } else {
        total_visible(lines.drop_last()) + visible(lines.last()).len()
    }
}

/// The entries `collect_chars` gives for line `li`: (line, byte offset,
/// character, columns) for each character but a newline.
pub open spec fn line_entries(li: nat, line: Seq<char>) -> Seq<(usize, usize, char, usize)>
    decreases line.len(),
{
    if line.len() == 0 {
        seq![]
    } else {
        let p = line_entries(li, line.drop_last());
        let c = line.last();
        if c == '\n' {
            p
        } else {
            p.push((li as usize, byte_len(line.drop_last()) as usize, c, columns_of(c) as usize))
        }
    }
}

/// The entries of all lines, in reading order.
pub open spec fn collected(lines: Seq<Seq<char>>) -> Seq<(usize, usize, char, usize)>
    decreases lines.len(),
{
    if lines.len() == 0 {
        seq![]
    } else {
        collected(lines.drop_last()) + line_entries((lines.len() - 1) as nat, lines.last())
    }
}

/// Every line's UTF-8 length fits in `usize`.
pub open spec fn bytes_fit(lines: Seq<Seq<char>>) -> bool {
    forall|i: int| 0 <= i < lines.len() ==> byte_len(#[trigger] lines[i]) <= usize::MAX
}

proof fn lemma_entries_len(li: nat, line: Seq<char>)
    ensures
        line_entries(li, line).len() == visible(line).len(),
    decreases line.len(),
{
    if line.len() > 0 {
        lemma_entries_len(li, line.drop_last());
    }
}

proof fn lemma_collected_len(lines: Seq<Seq<char>>)
    ensures
        collected(lines).len() == total_visible(lines),
    decreases lines.len(),
{
    if lines.len() > 0 {
        lemma_collected_len(lines.drop_last());
        lemma_entries_len((lines.len() - 1) as nat, lines.last());
    }
}

/// Every character but newlines, in reading order, with its line, its byte
/// offset in the line, and its columns (one for a control character).
pub fn collect_chars(lines: &[String]) -> (r: Vec<(usize, usize, char, usize)>)
    requires
        bytes_fit(string_views(lines@)),
    ensures
        r@ == collected(string_views(lines@)),
{
    let ghost sv = string_views(lines@);
    let mut out: Vec<(usize, usize, char, usize)> = Vec::new();
    let mut li: usize = 0;
    assert(sv.take(0) =~= Seq::<Seq<char>>::empty());
    while li < lines.len()
        invariant
            li <= lines.len(),
            sv == string_views(lines@),
            bytes_fit(sv),
            out@ == collected(sv.take(li as int)),
        decreases lines.len() - li,
    {
        let chars = chars_of(lines[li].as_str());
        assert(chars@ == sv[li as int]);
        let ghost base = out@;
        let mut bi: usize = 0;
        let mut j: usize = 0;
        assert(chars@.take(0) =~= Seq::<char>::empty());
        while j < chars.len()
            invariant
                j <= chars.len(),
                li < lines.len(),
                byte_len(chars@) <= usize::MAX,
                bi == byte_len(chars@.take(j as int)),
                out@ == base + line_entries(li as nat, chars@.take(j as int)),
            decreases chars.len() - j,
        {
            let c = chars[j];
            proof {
                assert(chars@.take(j + 1).drop_last() =~= chars@.take(j as int));
                lemma_byte_len_prefix(chars@, j + 1);
            }
            if c != '\n' {
                let w = char_columns(c);
                out.push((li, bi, c, w));
            }
            bi = bi + utf8_len_exec(c);
            j += 1;
            assert(out@ =~= base + line_entries(li as nat, chars@.take(j as int)));
        }
        proof {
            assert(chars@.take(chars.len() as int) =~= chars@);
            assert(sv.take(li + 1).drop_last() =~= sv.take(li as int));
        }
        li += 1;
    }
    assert(sv.take(lines.len() as int) =~= sv);
    out
}

/// The frame from which the character at position `k` of the animated text
/// (which has `n_total` characters) stops changing.
pub open spec fn settle_frame(total_frames: nat, k: nat, n_total: nat) -> nat {
    let n: nat = if n_total >= 1 {
        n_total
    } else {
        1
    };
    sat_sub(total_frames as int, 6) * k / n
}

/// The character at position `k` is still shown as a random one in `frame`:
/// it is not whitespace and has not yet settled for six frames.
pub open spec fn scrambling(c: char, k: nat, frame: nat, total_frames: nat, n_total: nat) -> bool {
    !is_ws(c) && frame < settle_frame(total_frames, k, n_total) + 6
}

/// `s` scrambles `line`, whose first visible character sits at position
/// `offset`: it is as long as the line; its first characters stand for the
/// line's visible ones, each one drawn from `pool` while scrambling and the
/// real one otherwise; the rest are the line's own.
pub open spec fn scrambled(
    line: Seq<char>,
    s: Seq<char>,
    offset: nat,
    frame: nat,
    total_frames: nat,
    n_total: nat,
    pool: Seq<char>,
) -> bool {
    let nl = visible(line);
    &&& s.len() == line.len()
    &&& forall|j: int|
        0 <= j < nl.len() ==> if scrambling(nl[j], offset + j as nat, frame, total_frames, n_total) {
            pool.contains(#[trigger] s[j])
        } else {
            s[j] == nl[j]
        }
    &&& forall|j: int| nl.len() <= j < line.len() ==> #[trigger] s[j] == line[j]
}

/// `out` is a scramble of `line`, padded with spaces to the line's width.
pub open spec fn scramble_of(
    line: Seq<char>,
    out: Seq<char>,
    offset: nat,
    frame: nat,
    total_frames: nat,
    n_total: nat,
    pool: Seq<char>,
) -> bool {
    exists|s: Seq<char>|
        #[trigger] scrambled(line, s, offset, frame, total_frames, n_total, pool) && out == s + spaces(
            sat_sub(unicode_str_width(line) as int, unicode_str_width(s) as int),
        )
}


proof fn lemma_visible_prefix(line: Seq<char>, j: int)
    requires
        0 <= j <= line.len(),
    ensures
        visible(line.take(j)).len() <= visible(line).len(),
    decreases line.len() - j,
{
    if j < line.len() {
        lemma_visible_prefix(line, j + 1);
        assert(line.take(j + 1).drop_last() =~= line.take(j));
    } else {
        assert(line.take(j) =~= line);
    }
}

proof fn lemma_total_visible_prefix(lines: Seq<Seq<char>>, i: int)
    requires
        0 <= i < lines.len(),
    ensures
        total_visible(lines.take(i)) + visible(lines[i]).len() <= total_visible(lines),
    decreases lines.len() - i,
{
    assert(lines.take(i + 1).drop_last() =~= lines.take(i));
    if i + 1 < lines.len() {
        lemma_total_visible_prefix(lines, i + 1);
    } else {
        assert(lines.take(i + 1) =~= lines);
    }
}

/// `out` is a scramble frame of `lines`, whose first visible character sits
/// at position `offset` of the animated text: the lines unchanged when they
/// have no visible character or the pool is empty, else each line scrambled
/// and padded.
pub open spec fn scramble_frame(
    lines: Seq<Seq<char>>,
    out: Seq<Seq<char>>,
    offset: nat,
    n_total: nat,
    frame: nat,
    total_frames: nat,
    pool: Seq<char>,
) -> bool {
    if total_visible(lines) == 0 || pool.len() == 0 {
        out == lines
    } else {
        &&& out.len() == lines.len()
        &&& forall|i: int|
            0 <= i < lines.len() ==> scramble_of(
                lines[i],
                #[trigger] out[i],
                offset + total_visible(lines.take(i)),
                frame,
                total_frames,
                n_total,
                pool,
            )
    }
}

/// No visible character of the lines is still scrambling in `frame`: each
/// character of line `i` but a newline, at position `offset` plus the
/// visible characters before it, shows as itself.
pub open spec fn scramble_idle(
    lines: Seq<Seq<char>>,
    offset: nat,
    frame: nat,
    total_frames: nat,
    n_total: nat,
) -> bool {
    forall|i: int, j: int|
        0 <= i < lines.len() && 0 <= j < lines[i].len() && lines[i][j] != '\n' ==> !scrambling(
            #[trigger] lines[i][j],
            offset + total_visible(lines.take(i)) + visible(lines[i].take(j)).len(),
            frame,
            total_frames,
            n_total,
        )
}

/// The copy of some lines, unchanged.
fn copy_lines(lines: &[String]) -> (r: Vec<String>)
    ensures
        string_views(r@) == string_views(lines@),
{
    let mut out: Vec<String> = Vec::new();
    let mut i: usize = 0;
    while i < lines.len()
        invariant
            i <= lines.len(),
            string_views(out@) == string_views(lines@).take(i as int),
        decreases lines.len() - i,
    {
        let c = chars_of(lines[i].as_str());
        let ghost before = out@;
        out.push(string_of(&c));
        assert(string_views(out@) =~= string_views(before).push(c@));
        assert(string_views(lines@).take(i + 1) =~= string_views(lines@).take(i as int).push(c@));
        i += 1;
    }
    assert(string_views(lines@).take(lines.len() as int) =~= string_views(lines@));
    out
}

/// The scramble frame of some lines whose first visible character is at
/// position `global_offset` of the animated text: each visible character
/// that has not settled is replaced by one drawn from `pool`, and each line
/// padded to its width. With no visible character, or an empty pool, the
/// lines are returned unchanged.
fn anim_scramble_lines(
    lines: &[String],
    global_offset: usize,
    n_total: usize,
    frame: usize,
    total_frames: usize,
    rng: &mut StdRng,
    pool: &[char],
) -> (r: Vec<String>)
    requires
        bytes_fit(string_views(lines@)),
        global_offset + total_visible(string_views(lines@)) <= usize::MAX,
        sat_sub(total_frames as int, 6) * (global_offset + total_visible(string_views(lines@))) + 6
            <= usize::MAX,
    ensures
        scramble_frame(
            string_views(lines@),
            string_views(r@),
            global_offset as nat,
            n_total as nat,
            frame as nat,
            total_frames as nat,
            pool@,
        ),
        total_visible(string_views(lines@)) == 0 || pool.len() == 0 || scramble_idle(
            string_views(lines@),
            global_offset as nat,
            frame as nat,
            total_frames as nat,
            n_total as nat,
        ) ==> *final(rng) == *old(rng),
{
    let ghost sv = string_views(lines@);
    let ghost idle = scramble_idle(sv, global_offset as nat, frame as nat, total_frames as nat, n_total as nat);
    let entries = collect_chars(lines);
    proof {
        lemma_collected_len(sv);
    }
    if entries.len() == 0 || pool.len() == 0 {
        return copy_lines(lines);
    }
    let steps = if total_frames >= 6 {
        total_frames - 6
    } else {
        0
    };
    let n = if n_total >= 1 {
        n_total
    } else {
        1
    };
    let ghost tv = total_visible(sv);
    let mut out: Vec<String> = Vec::new();
    let mut k: usize = 0;
    let mut i: usize = 0;
    assert(sv.take(0) =~= Seq::<Seq<char>>::empty());
    while i < lines.len()
        invariant
            i <= lines.len(),
            sv == string_views(lines@),
            tv == total_visible(sv),
            pool.len() > 0,
            n >= 1,
            n == (if n_total >= 1 { n_total } else { 1 }),
            steps == sat_sub(total_frames as int, 6),
            global_offset + tv <= usize::MAX,
            steps * (global_offset + tv) + 6 <= usize::MAX,
            k == total_visible(sv.take(i as int)),
            idle == scramble_idle(sv, global_offset as nat, frame as nat, total_frames as nat, n_total as nat),
            idle ==> *rng == *old(rng),
            out.len() == i,
            forall|ii: int|
                0 <= ii < i ==> scramble_of(
                    lines@[ii]@,
                    #[trigger] out@[ii]@,
                    (global_offset + total_visible(sv.take(ii))) as nat,
                    frame as nat,
                    total_frames as nat,
                    n_total as nat,
                    pool@,
                ),
        decreases lines.len() - i,
    {
        let line = chars_of(lines[i].as_str());
        let ghost li = line@;
        assert(li == sv[i as int]);
        proof {
            lemma_total_visible_prefix(sv, i as int);
        }
        let ghost k0 = k;
        let mut v = slice_vec(&line, 0, line.len());
        let mut p: usize = 0;
        let mut j: usize = 0;
        assert(li.take(0) =~= Seq::<char>::empty());
        while j < line.len()
            invariant
                j <= line.len(),
                li == line@,
                pool.len() > 0,
                n >= 1,
                n == (if n_total >= 1 { n_total } else { 1 }),
                steps == sat_sub(total_frames as int, 6),
                k0 + visible(li).len() <= tv,
                global_offset + tv <= usize::MAX,
                steps * (global_offset + tv) + 6 <= usize::MAX,
                p == visible(li.take(j as int)).len(),
                k == k0 + p,
                k0 == total_visible(sv.take(i as int)),
                sv == string_views(lines@),
                i < lines.len(),
                li == sv[i as int],
                idle == scramble_idle(sv, global_offset as nat, frame as nat, total_frames as nat, n_total as nat),
                idle ==> *rng == *old(rng),
                p <= j,
                v@.len() == li.len(),
                forall|jj: int| j <= jj < li.len() ==> #[trigger] v@[jj] == li[jj],
                forall|jj: int| p <= jj < j ==> #[trigger] v@[jj] == li[jj],
                forall|jj: int|
                    0 <= jj < p ==> if scrambling(
                        visible(li.take(j as int))[jj],
                        (global_offset + k0 + jj) as nat,
                        frame as nat,
                        total_frames as nat,
                        n_total as nat,
                    ) {
                        pool@.contains(#[trigger] v@[jj])
                    } else {
                        v@[jj] == visible(li.take(j as int))[jj]
                    },
            decreases line.len() - j,
        {
            let c = line[j];
            proof {
                assert(li.take(j + 1).drop_last() =~= li.take(j as int));
                assert(li.take(j + 1).last() == c);
                lemma_visible_prefix(li, j + 1);
            }
            if c != '\n' {
                let gk = global_offset + k;
                assert(steps * gk <= steps * (global_offset + tv)) by (nonlinear_arith)
                    requires
                        gk <= global_offset + tv,
                ;
                let prod = steps * gk;
                assert(prod / n <= prod) by (nonlinear_arith)
                    requires
                        n >= 1,
                ;
                let settle = prod / n;
                let shown = if is_whitespace(c) {
                    c
                } else if frame < settle + 6 {
                    proof {
                        assert(settle == settle_frame(total_frames as nat, gk as nat, n_total as nat));
                        assert(scrambling(c, gk as nat, frame as nat, total_frames as nat, n_total as nat));
                        assert(sv[i as int][j as int] == c);
                        assert(gk as nat == global_offset as nat + total_visible(sv.take(i as int))
                            + visible(sv[i as int].take(j as int)).len());
                        if idle {
                            assert(!scrambling(
                                sv[i as int][j as int],
                                global_offset as nat + total_visible(sv.take(i as int)) + visible(
                                    sv[i as int].take(j as int),
                                ).len(),
                                frame as nat,
                                total_frames as nat,
                                n_total as nat,
                            ));
                        }
                        assert(!idle);
                    }
                    let idx = random_index(rng, pool.len());
                    assert(pool@.contains(pool@[idx as int]));
                    pool[idx]
                } else {
                    c
                };
                proof {
                    assert(settle == settle_frame(total_frames as nat, gk as nat, n_total as nat));
                }
                v.set(p, shown);
                p += 1;
                k += 1;
            }
            j += 1;
        }
        proof {
            assert(li.take(line.len() as int) =~= li);
            assert(scrambled(
                li,
                v@,
                (global_offset + total_visible(sv.take(i as int))) as nat,
                frame as nat,
                total_frames as nat,
                n_total as nat,
                pool@,
            ));
        }
        let s = string_of(&v);
        let w = str_width(lines[i].as_str());
        let sw = str_width(s.as_str());
        let mut padded = v;
        if sw < w {
            push_spaces(&mut padded, w - sw);
        } else {
            push_spaces(&mut padded, 0);
        }
        let ghost sv_i = s@;
        let res = string_of(&padded);
        proof {
            assert(res@ == sv_i + spaces(sat_sub(unicode_str_width(li) as int, unicode_str_width(sv_i) as int)));
            assert(scramble_of(
                lines@[i as int]@,
                res@,
                (global_offset + total_visible(sv.take(i as int))) as nat,
                frame as nat,
                total_frames as nat,
                n_total as nat,
                pool@,
            ));
            assert(sv.take(i + 1).drop_last() =~= sv.take(i as int));
        }
        out.push(res);
        i += 1;
    }
    proof {
        assert forall|ii: int| 0 <= ii < lines.len() implies scramble_of(
            sv[ii],
            #[trigger] string_views(out@)[ii],
            global_offset as nat + total_visible(sv.take(ii)),
            frame as nat,
            total_frames as nat,
            n_total as nat,
            pool@,
        ) by {
            assert(sv[ii] == lines@[ii]@);
            assert(string_views(out@)[ii] == out@[ii]@);
            assert((global_offset + total_visible(sv.take(ii))) as nat == global_offset as nat
                + total_visible(sv.take(ii)));
        }
    }
    out
}


/// `char::from_u32`. Claimed, as std documents it: a code point is a
/// character exactly when it is at most U+10FFFF and not a surrogate, and
/// the character returned has that code point.
#[verifier::external_body]
fn char_from_u32(u: u32) -> (r: Option<char>)
    ensures
        r is Some <==> (u < 0xD800 || (0xE000 <= u && u <= 0x10FFFF)),
        r matches Some(c) ==> c as u32 == u,
{
    char::from_u32(u)
}

/// The code points of some characters.
pub open spec fn code_points(s: Seq<char>) -> Seq<u32> {
    s.map_values(|c: char| c as u32)
}

/// The code points from `first` to `last`.
pub open spec fn code_range(first: u32, last: u32) -> Seq<u32> {
    Seq::new((last - first + 1) as nat, |i: int| (first + i) as u32)
}

/// The hiragana U+3041 to U+3096, then the katakana U+30A1 to U+30F6.
pub open spec fn kana_pool() -> Seq<u32> {
    code_range(0x3041, 0x3096) + code_range(0x30A1, 0x30F6)
}

/// The letters a to z and A to Z, then the digits.
pub open spec fn ascii_pool() -> Seq<u32> {
    code_range(0x61, 0x7A) + code_range(0x41, 0x5A) + code_range(0x30, 0x39)
}

fn push_code_points(out: &mut Vec<char>, first: u32, last: u32)
    requires
        first <= last < 0xD800,
    ensures
        code_points(final(out)@) == code_points(old(out)@) + code_range(first, last),
{
    let mut u = first;
    while u <= last
        invariant
            first <= u <= last + 1,
            last < 0xD800,
            code_points(out@) == code_points(old(out)@) + Seq::new(
                (u - first) as nat,
                |i: int| (first + i) as u32,
            ),
        decreases last + 1 - u,
    {
        let ghost before = out@;
        match char_from_u32(u) {
            Some(c) => {
                out.push(c);
                assert(code_points(out@) =~= code_points(before).push(u));
            },
            None => {},
        }
        u += 1;
        assert(code_points(out@) =~= code_points(old(out)@) + Seq::new(
            (u - first) as nat,
            |i: int| (first + i) as u32,
        ));
    }
    assert(Seq::new((u - first) as nat, |i: int| (first + i) as u32) =~= code_range(first, last));
}

/// The kana a Japanese line is scrambled with.
pub fn jap_pool() -> (r: Vec<char>)
    ensures
        code_points(r@) == kana_pool(),
{
    let mut v: Vec<char> = Vec::new();
    assert(code_points(v@) =~= Seq::<u32>::empty());
    push_code_points(&mut v, 0x3041, 0x3096);
    push_code_points(&mut v, 0x30A1, 0x30F6);
    assert(code_points(v@) =~= kana_pool());
    v
}

/// The letters and digits a translation is scrambled with.
pub fn latin_pool() -> (r: Vec<char>)
    ensures
        code_points(r@) == ascii_pool(),
{
    let mut v: Vec<char> = Vec::new();
    assert(code_points(v@) =~= Seq::<u32>::empty());
    push_code_points(&mut v, 0x61, 0x7A);
    push_code_points(&mut v, 0x41, 0x5A);
    push_code_points(&mut v, 0x30, 0x39);
    assert(code_points(v@) =~= ascii_pool());
    v
}

/// The frames an animation has (besides the last): none without
/// animation, one per character for the typewriter, 40 for the scramble
/// and 30 for the slide.
pub open spec fn frame_count_of(animation: AnimationType, n_total: nat) -> nat {
    match animation {
        AnimationType::NoAnimation => 0,
        AnimationType::Typewriter => n_total,
        AnimationType::Scramble => 40,
        AnimationType::Slide => 30,
    }
}

/// How long each frame is shown: the duration spread over the frames,
/// kept between 16 and 200 milliseconds.
pub open spec fn frame_delay_of(duration_ms: u64, frames: nat) -> nat {
    if frames == 0 {
        0
    } else {
        let d = duration_ms as nat / frames;
        if d < 16 {
            16
        } else if d > 200 {
            200
        } else {
            d
        }
    }
}

/// The counts an animation runs on.
#[derive(Clone, Copy)]
pub struct AnimationPlan {
    /// Frames before the last one.
    pub frame_count: usize,
    pub frame_delay_ms: u64,
    /// Characters of the Japanese lines.
    pub n_jap_chars: usize,
    /// Characters of the reading lines.
    pub n_furi_chars: usize,
    /// Characters of the Japanese lines and translations (at least one).
    pub n_total: usize,
}

/// `plan` is the plan of `animation` over `c`.
pub open spec fn plans(plan: AnimationPlan, animation: AnimationType, duration_ms: u64, c: ContentView) -> bool {
    let nt = total_chars(c.text) + total_chars(c.trans);
    &&& plan.n_jap_chars == total_chars(c.text)
    &&& plan.n_furi_chars == total_chars(c.furi)
    &&& plan.n_total == (if nt >= 1 {
        nt
    } else {
        1
    })
    &&& plan.frame_count == frame_count_of(animation, plan.n_total as nat)
    &&& plan.frame_delay_ms == frame_delay_of(duration_ms, plan.frame_count as nat)
}

proof fn lemma_total_chars_prefix(lines: Seq<Seq<char>>, i: int)
    requires
        0 <= i < lines.len(),
    ensures
        total_chars(lines.take(i)) + lines[i].len() <= total_chars(lines),
    decreases lines.len() - i,
{
    assert(lines.take(i + 1).drop_last() =~= lines.take(i));
    if i + 1 < lines.len() {
        lemma_total_chars_prefix(lines, i + 1);
    } else {
        assert(lines.take(i + 1) =~= lines);
    }
}

fn total_chars_exec(lines: &[String]) -> (n: usize)
    requires
        total_chars(string_views(lines@)) <= usize::MAX,
    ensures
        n == total_chars(string_views(lines@)),
{
    let ghost sv = string_views(lines@);
    let mut n: usize = 0;
    let mut i: usize = 0;
    assert(sv.take(0) =~= Seq::<Seq<char>>::empty());
    while i < lines.len()
        invariant
            i <= lines.len(),
            sv == string_views(lines@),
            total_chars(sv) <= usize::MAX,
            n == total_chars(sv.take(i as int)),
        decreases lines.len() - i,
    {
        let c = chars_of(lines[i].as_str());
        assert(c@ == sv[i as int]);
        proof {
            lemma_total_chars_prefix(sv, i as int);
            assert(sv.take(i + 1).drop_last() =~= sv.take(i as int));
        }
        n = n + c.len();
        i += 1;
    }
    assert(sv.take(lines.len() as int) =~= sv);
    n
}

/// The counts for animating `content` over `duration_ms`.
pub fn plan_animation(animation: AnimationType, duration_ms: u64, content: &BoxContent) -> (r:
    AnimationPlan)
    requires
        total_chars(content@.text) + total_chars(content@.trans) <= usize::MAX,
        total_chars(content@.furi) <= usize::MAX,
    ensures
        plans(r, animation, duration_ms, content@),
{
    let n_furi = total_chars_exec(content.furigana_lines.as_slice());
    let n_jap = total_chars_exec(content.text_lines.as_slice());
    let n_trans = total_chars_exec(content.translations.as_slice());
    let n_total = if n_jap + n_trans >= 1 {
        n_jap + n_trans
    } else {
        1
    };
    let frame_count: usize = match animation {
        AnimationType::NoAnimation => 0,
        AnimationType::Typewriter => n_total,
        AnimationType::Scramble => 40,
        AnimationType::Slide => 30,
    };
    let frame_delay_ms: u64 = if frame_count == 0 {
        0
    } else {
        let d = duration_ms / (frame_count as u64);
        if d < 16 {
            16
        } else if d > 200 {
            200
        } else {
            d
        }
    };
    AnimationPlan { frame_count, frame_delay_ms, n_jap_chars: n_jap, n_furi_chars: n_furi, n_total }
}


pub open spec fn min_nat(a: nat, b: nat) -> nat {
    if a <= b {
        a
    } else {
        b
    }
}

/// The Japanese lines of frame `i`.
pub open spec fn frame_text(
    animation: AnimationType,
    c: ContentView,
    plan: AnimationPlan,
    i: nat,
    kana: Seq<char>,
    out: Seq<Seq<char>>,
) -> bool {
    match animation {
        AnimationType::NoAnimation => out == c.text,
        AnimationType::Typewriter => out == typewriter(c.text, min_nat(i, plan.n_jap_chars as nat)),
        AnimationType::Slide => out == slide(c.text, i, plan.frame_count as nat),
        AnimationType::Scramble => scramble_frame(
            c.text,
            out,
            0,
            plan.n_total as nat,
            i,
            plan.frame_count as nat,
            kana,
        ),
    }
}

/// The translations of frame `i`: typed after the Japanese text, and the
/// real ones in the last frame.
pub open spec fn frame_trans(
    animation: AnimationType,
    c: ContentView,
    plan: AnimationPlan,
    i: nat,
    latin: Seq<char>,
    out: Seq<Seq<char>>,
) -> bool {
    if i == plan.frame_count {
        out == c.trans
    } else {
        match animation {
            AnimationType::NoAnimation => out == c.trans,
            AnimationType::Typewriter => out == typewriter(
                c.trans,
                sat_sub(i as int, plan.n_jap_chars as int),
            ),
            AnimationType::Slide => out == slide(c.trans, i, plan.frame_count as nat),
            AnimationType::Scramble => scramble_frame(
                c.trans,
                out,
                plan.n_jap_chars as nat,
                plan.n_total as nat,
                i,
                plan.frame_count as nat,
                latin,
            ),
        }
    }
}

/// The reading lines of frame `i`: typed along with the Japanese text, and
/// the real ones in the last frame or when there are none.
pub open spec fn frame_furi(
    animation: AnimationType,
    c: ContentView,
    plan: AnimationPlan,
    i: nat,
    kana: Seq<char>,
    out: Seq<Seq<char>>,
) -> bool {
    if c.furi.len() == 0 || i == plan.frame_count {
        out == c.furi
    } else {
        match animation {
            AnimationType::NoAnimation => out == c.furi,
            AnimationType::Typewriter => out == typewriter(
                c.furi,
                plan.n_furi_chars as nat * min_nat(i, plan.n_jap_chars as nat) / (if plan.n_jap_chars
                    >= 1 {
                    plan.n_jap_chars as nat
                } else {
                    1
                }),
            ),
            AnimationType::Slide => out == slide(c.furi, i, plan.frame_count as nat),
            AnimationType::Scramble => scramble_frame(
                c.furi,
                out,
                0,
                (if plan.n_furi_chars >= 1 {
                    plan.n_furi_chars
                } else {
                    1
                }) as nat,
                i,
                plan.frame_count as nat,
                kana,
            ),
        }
    }
}

/// The source of frame `i`: blank, as wide as the source, until the last frame.
pub open spec fn frame_source(c: ContentView, plan: AnimationPlan, i: nat) -> Option<Seq<char>> {
    if i == plan.frame_count {
        c.source
    } else {
        match c.source {
            Some(s) => Some(spaces(unicode_str_width(s) as nat)),
            None => None,
        }
    }
}

/// `out` is frame `i` of animating `c`.
pub open spec fn is_frame(
    animation: AnimationType,
    c: ContentView,
    plan: AnimationPlan,
    i: nat,
    kana: Seq<char>,
    latin: Seq<char>,
    out: ContentView,
) -> bool {
    &&& frame_text(animation, c, plan, i, kana, out.text)
    &&& frame_trans(animation, c, plan, i, latin, out.trans)
    &&& frame_furi(animation, c, plan, i, kana, out.furi)
    &&& out.source == frame_source(c, plan, i)
    &&& out.show_source == c.show_source
    &&& out.above == c.above
}

/// A scramble of some lines starting at `offset` stays within `usize`.
pub open spec fn scramble_fits(lines: Seq<Seq<char>>, offset: nat, total_frames: nat) -> bool {
    &&& bytes_fit(lines)
    &&& offset + total_visible(lines) <= usize::MAX
    &&& sat_sub(total_frames as int, 6) * (offset + total_visible(lines)) + 6 <= usize::MAX
}

/// Computing frame `i` stays within `usize`.
pub open spec fn frame_fits(animation: AnimationType, c: ContentView, plan: AnimationPlan, i: nat) -> bool {
    &&& countable(c.text)
    &&& countable(c.trans)
    &&& countable(c.furi)
    &&& animation is Typewriter ==> plan.n_furi_chars * min_nat(i, plan.n_jap_chars as nat)
        <= usize::MAX
    &&& animation is Slide ==> {
        &&& slide_fits(c.text, i)
        &&& slide_fits(c.trans, i)
        &&& slide_fits(c.furi, i)
    }
    &&& animation is Scramble ==> {
        &&& scramble_fits(c.text, 0, plan.frame_count as nat)
        &&& scramble_fits(c.trans, plan.n_jap_chars as nat, plan.frame_count as nat)
        &&& scramble_fits(c.furi, 0, plan.frame_count as nat)
    }
}

fn copy_source(s: &Option<String>) -> (r: Option<String>)
    ensures
        crate::boxed::opt_view(r) == crate::boxed::opt_view(*s),
{
    match s {
        Some(t) => {
            let c = chars_of(t.as_str());
            Some(string_of(&c))
        },
        None => None,
    }
}

/// Frame `i` of animating `content` with the given plan; the scramble draws
/// from `rng`, kana for Japanese and readings, letters and digits for
/// translations.
pub fn animation_frame(
    animation: AnimationType,
    plan: &AnimationPlan,
    i: usize,
    content: &BoxContent,
    rng: &mut StdRng,
    kana: &[char],
    latin: &[char],
) -> (r: BoxContent)
    requires
        i <= plan.frame_count,
        frame_fits(animation, content@, *plan, i as nat),
    ensures
        is_frame(animation, content@, *plan, i as nat, kana@, latin@, r@),
        animation != AnimationType::Scramble ==> *final(rng) == *old(rng),
{
    let fc = plan.frame_count;
    let is_final = i == fc;
    let n_jap_reveal = if i < plan.n_jap_chars {
        i
    } else {
        plan.n_jap_chars
    };
    let n_trans_reveal = if i >= plan.n_jap_chars {
        i - plan.n_jap_chars
    } else {
        0
    };
    let text = match animation {
        AnimationType::NoAnimation => copy_lines(content.text_lines.as_slice()),
        AnimationType::Typewriter => anim_typewriter(content.text_lines.as_slice(), n_jap_reveal),
        AnimationType::Slide => anim_slide(content.text_lines.as_slice(), i, fc),
        AnimationType::Scramble => anim_scramble_lines(
            content.text_lines.as_slice(),
            0,
            plan.n_total,
            i,
            fc,
            rng,
            kana,
        ),
    };
    let trans = if is_final {
        copy_lines(content.translations.as_slice())
    } else {
        match animation {
            AnimationType::NoAnimation => copy_lines(content.translations.as_slice()),
            AnimationType::Typewriter => anim_typewriter(
                content.translations.as_slice(),
                n_trans_reveal,
            ),
            AnimationType::Slide => anim_slide(content.translations.as_slice(), i, fc),
            AnimationType::Scramble => anim_scramble_lines(
                content.translations.as_slice(),
                plan.n_jap_chars,
                plan.n_total,
                i,
                fc,
                rng,
                latin,
            ),
        }
    };
    let furi = if content.furigana_lines.len() == 0 || is_final {
        copy_lines(content.furigana_lines.as_slice())
    } else {
        match animation {
            AnimationType::Typewriter => {
                let d = if plan.n_jap_chars >= 1 {
                    plan.n_jap_chars
                } else {
                    1
                };
                let reveal = plan.n_furi_chars * n_jap_reveal / d;
                anim_typewriter(content.furigana_lines.as_slice(), reveal)
            },
            AnimationType::Slide => anim_slide(content.furigana_lines.as_slice(), i, fc),
            AnimationType::Scramble => {
                let n = if plan.n_furi_chars >= 1 {
                    plan.n_furi_chars
                } else {
                    1
                };
                anim_scramble_lines(content.furigana_lines.as_slice(), 0, n, i, fc, rng, kana)
            },
            AnimationType::NoAnimation => copy_lines(content.furigana_lines.as_slice()),
        }
    };
    let source = if is_final {
        copy_source(&content.source)
    } else {
        match &content.source {
            Some(s) => {
                let w = str_width(s.as_str());
                let v = spaces_vec(w);
                Some(string_of(&v))
            },
            None => None,
        }
    };
    BoxContent {
        text_lines: text,
        translations: trans,
        source,
        show_source: content.show_source,
        furigana_lines: furi,
        furigana_above: content.furigana_above,
    }
}


fn countable_exec(lines: &[String]) -> (b: bool)
    ensures
        b == countable(string_views(lines@)),
{
    let mut i: usize = 0;
    while i < lines.len()
        invariant
            i <= lines.len(),
            forall|j: int| 0 <= j < i ==> 255 * (#[trigger] string_views(lines@)[j]).len() <= usize::MAX,
        decreases lines.len() - i,
    {
        let c = chars_of(lines[i].as_str());
        assert(string_views(lines@)[i as int] == c@);
        if c.len() > usize::MAX / 255 {
            return false;
        }
        i += 1;
    }
    true
}

fn slide_fits_exec(lines: &[String], frame: usize) -> (b: bool)
    ensures
        b == slide_fits(string_views(lines@), frame as nat),
{
    let mut i: usize = 0;
    while i < lines.len()
        invariant
            i <= lines.len(),
            forall|j: int|
                0 <= j < i ==> unicode_str_width(#[trigger] string_views(lines@)[j]) * frame
                    <= usize::MAX,
        decreases lines.len() - i,
    {
        let w = str_width(lines[i].as_str());
        assert(string_views(lines@)[i as int] == lines@[i as int]@);
        if w.checked_mul(frame).is_none() {
            return false;
        }
        i += 1;
    }
    true
}

/// The UTF-8 length of a line, when it fits in `usize`.
fn byte_len_checked(line: &Vec<char>) -> (r: Option<usize>)
    ensures
        r is Some <==> byte_len(line@) <= usize::MAX,
        r matches Some(n) ==> n == byte_len(line@),
{
    let mut n: usize = 0;
    let mut j: usize = 0;
    assert(line@.take(0) =~= Seq::<char>::empty());
    while j < line.len()
        invariant
            j <= line.len(),
            n == byte_len(line@.take(j as int)),
        decreases line.len() - j,
    {
        let u = utf8_len_exec(line[j]);
        assert(line@.take(j + 1).drop_last() =~= line@.take(j as int));
        if n > usize::MAX - u {
            proof {
                lemma_byte_len_prefix(line@, j + 1);
            }
            return None;
        }
        n = n + u;
        j += 1;
    }
    assert(line@.take(line.len() as int) =~= line@);
    Some(n)
}

/// The visible characters of a line, counted.
fn visible_count(line: &Vec<char>) -> (n: usize)
    ensures
        n == visible(line@).len(),
{
    let mut n: usize = 0;
    let mut j: usize = 0;
    assert(line@.take(0) =~= Seq::<char>::empty());
    while j < line.len()
        invariant
            j <= line.len(),
            n == visible(line@.take(j as int)).len(),
            n <= j,
        decreases line.len() - j,
    {
        assert(line@.take(j + 1).drop_last() =~= line@.take(j as int));
        if line[j] != '\n' {
            n = n + 1;
        }
        j += 1;
    }
    assert(line@.take(line.len() as int) =~= line@);
    n
}

fn scramble_fits_exec(lines: &[String], offset: usize, total_frames: usize) -> (b: bool)
    ensures
        b == scramble_fits(string_views(lines@), offset as nat, total_frames as nat),
{
    let ghost sv = string_views(lines@);
    let mut tv: usize = 0;
    let mut i: usize = 0;
    assert(sv.take(0) =~= Seq::<Seq<char>>::empty());
    while i < lines.len()
        invariant
            i <= lines.len(),
            sv == string_views(lines@),
            forall|j: int| 0 <= j < i ==> byte_len(#[trigger] sv[j]) <= usize::MAX,
            tv == total_visible(sv.take(i as int)),
            offset + tv <= usize::MAX,
        decreases lines.len() - i,
    {
        let c = chars_of(lines[i].as_str());
        assert(sv[i as int] == c@);
        assert(sv.take(i + 1).drop_last() =~= sv.take(i as int));
        if byte_len_checked(&c).is_none() {
            return false;
        }
        let vc = visible_count(&c);
        if vc > usize::MAX - offset - tv {
            proof {
                lemma_total_visible_prefix(sv, i as int);
            }
            return false;
        }
        tv = tv + vc;
        i += 1;
    }
    assert(sv.take(lines.len() as int) =~= sv);
    let steps = if total_frames >= 6 {
        total_frames - 6
    } else {
        0
    };
    match steps.checked_mul(offset + tv) {
        Some(p) => p <= usize::MAX - 6,
        None => false,
    }
}

/// Frame `i` of animating `content`, as `animation_frame` computes it, or
/// `None` where its arithmetic would not stay within `usize` (lines of
/// astronomical width or length).
pub fn checked_animation_frame(
    animation: AnimationType,
    plan: &AnimationPlan,
    i: usize,
    content: &BoxContent,
    rng: &mut StdRng,
    kana: &[char],
    latin: &[char],
) -> (r: Option<BoxContent>)
    requires
        i <= plan.frame_count,
    ensures
        r is Some <==> frame_fits(animation, content@, *plan, i as nat),
        r matches Some(f) ==> is_frame(animation, content@, *plan, i as nat, kana@, latin@, f@),
        animation != AnimationType::Scramble ==> *final(rng) == *old(rng),
{
    let text = content.text_lines.as_slice();
    let trans = content.translations.as_slice();
    let furi = content.furigana_lines.as_slice();
    if !(countable_exec(text) && countable_exec(trans) && countable_exec(furi)) {
        return None;
    }
    let ok = match animation {
        AnimationType::Typewriter => {
            let reveal = if i < plan.n_jap_chars {
                i
            } else {
                plan.n_jap_chars
            };
            plan.n_furi_chars.checked_mul(reveal).is_some()
        },
        AnimationType::Slide => slide_fits_exec(text, i) && slide_fits_exec(trans, i)
            && slide_fits_exec(furi, i),
        AnimationType::Scramble => scramble_fits_exec(text, 0, plan.frame_count)
            && scramble_fits_exec(trans, plan.n_jap_chars, plan.frame_count) && scramble_fits_exec(
            furi,
            0,
            plan.frame_count,
        ),
        AnimationType::NoAnimation => true,
    };
    if !ok {
        return None;
    }
    Some(animation_frame(animation, plan, i, content, rng, kana, latin))
}


proof fn lemma_visible_len(line: Seq<char>)
    ensures
        visible(line).len() <= line.len(),
    decreases line.len(),
{
    if line.len() > 0 {
        lemma_visible_len(line.drop_last());
    }
}

proof fn lemma_visible_without_newline(line: Seq<char>)
    requires
        !line.contains('\n'),
    ensures
        visible(line) == line,
    decreases line.len(),
{
    if line.len() > 0 {
        let front = line.drop_last();
        assert(!front.contains('\n')) by {
            if front.contains('\n') {
                let j = choose|j: int| 0 <= j < front.len() && front[j] == '\n';
                assert(line[j] == '\n');
            }
        }
        lemma_visible_without_newline(front);
        assert(line.last() != '\n') by {
            assert(line[line.len() - 1] == line.last());
        }
        assert(visible(line) =~= line);
    }
}

proof fn lemma_visible_le_chars(lines: Seq<Seq<char>>)
    ensures
        total_visible(lines) <= total_chars(lines),
    decreases lines.len(),
{
    if lines.len() > 0 {
        lemma_visible_le_chars(lines.drop_last());
        lemma_visible_len(lines.last());
    }
}

/// No line holds a newline.
pub open spec fn single_lines(lines: Seq<Seq<char>>) -> bool {
    forall|i: int| 0 <= i < lines.len() ==> !(#[trigger] lines[i]).contains('\n')
}

/// Each line is at least as wide, counted character by character, as its
/// display width.
pub open spec fn no_wider_than_columns(lines: Seq<Seq<char>>) -> bool {
    forall|i: int| 0 <= i < lines.len() ==> unicode_str_width(#[trigger] lines[i]) <= columns(lines[i])
}

proof fn lemma_visible_take_len(line: Seq<char>, j: int)
    requires
        0 <= j < line.len(),
        line[j] != '\n',
    ensures
        visible(line.take(j)).len() < visible(line).len(),
{
    assert(line.take(j + 1).drop_last() =~= line.take(j));
    assert(line.take(j + 1).last() == line[j]);
    lemma_visible_prefix(line, j + 1);
}

/// Late frames settle: from frame `max(total_frames, 6)` on, when the
/// lines' characters all sit before position `n_total` (at least one) of
/// the animated text, no character is scrambling, so nothing is drawn from
/// the generator; and a scramble frame of lines without newlines is then
/// the lines themselves.
pub proof fn law_scramble_settles(
    lines: Seq<Seq<char>>,
    out: Seq<Seq<char>>,
    offset: nat,
    n_total: nat,
    frame: nat,
    total_frames: nat,
    pool: Seq<char>,
)
    requires
        frame >= total_frames,
        frame >= 6,
        offset + total_chars(lines) <= (if n_total >= 1 { n_total } else { 1 }),
    ensures
        scramble_idle(lines, offset, frame, total_frames, n_total),
        scramble_frame(lines, out, offset, n_total, frame, total_frames, pool) && single_lines(lines)
            ==> out == lines,
{
    let n: nat = if n_total >= 1 {
        n_total
    } else {
        1
    };
    lemma_visible_le_chars(lines);
    assert forall|i: int, j: int|
        0 <= i < lines.len() && 0 <= j < lines[i].len() && lines[i][j] != '\n' implies !scrambling(
        #[trigger] lines[i][j],
        offset + total_visible(lines.take(i)) + visible(lines[i].take(j)).len(),
        frame,
        total_frames,
        n_total,
    ) by {
        lemma_total_visible_prefix(lines, i);
        lemma_visible_take_len(lines[i], j);
        let k: nat = offset + total_visible(lines.take(i)) + visible(lines[i].take(j)).len();
        assert(k < n);
        let st = sat_sub(total_frames as int, 6);
        if total_frames <= 6 {
            assert(st == 0);
            assert(st * k / n == 0) by (nonlinear_arith)
                requires
                    st == 0,
                    n >= 1,
            ;
        } else {
            assert(st * k / n < st) by (nonlinear_arith)
                requires
                    k < n,
                    st >= 1,
                    n >= 1,
            ;
        }
    }
    if scramble_frame(lines, out, offset, n_total, frame, total_frames, pool) && single_lines(lines) {
        if !(total_visible(lines) == 0 || pool.len() == 0) {
            assert forall|i: int| 0 <= i < lines.len() implies #[trigger] out[i] == lines[i] by {
                let line = lines[i];
                let k0 = offset + total_visible(lines.take(i));
                assert(scramble_of(line, out[i], k0, frame, total_frames, n_total, pool));
                let s = choose|s: Seq<char>|
                    #[trigger] scrambled(line, s, k0, frame, total_frames, n_total, pool) && out[i]
                        == s + spaces(
                        sat_sub(unicode_str_width(line) as int, unicode_str_width(s) as int),
                    );
                assert(!line.contains('\n'));
                lemma_visible_without_newline(line);
                assert forall|j: int| 0 <= j < line.len() implies s[j] == line[j] by {
                    assert(line[j] != '\n');
                    assert(!line.take(j).contains('\n')) by {
                        if line.take(j).contains('\n') {
                            let q = choose|q: int| 0 <= q < line.take(j).len() && line.take(j)[q] == '\n';
                            assert(line[q] == '\n');
                        }
                    }
                    lemma_visible_without_newline(line.take(j));
                    assert(!scrambling(lines[i][j], k0 + visible(line.take(j)).len(), frame, total_frames, n_total));
                }
                assert(s =~= line);
                assert(spaces(0) =~= Seq::<char>::empty());
                assert(out[i] =~= line);
            }
            assert(out =~= lines);
        }
    }
}

proof fn lemma_last_scramble(c: ContentView, plan: AnimationPlan, kana: Seq<char>, out: Seq<Seq<char>>)
    requires
        plan.frame_count == 40,
        plan.n_total >= 1,
        total_chars(c.text) <= plan.n_total,
        single_lines(c.text),
        scramble_frame(c.text, out, 0, plan.n_total as nat, 40, 40, kana),
    ensures
        out == c.text,
{
    law_scramble_settles(c.text, out, 0, plan.n_total as nat, 40, 40, kana);
}

proof fn lemma_last_slide(lines: Seq<Seq<char>>)
    ensures
        slide(lines, 30, 30) == lines,
{
    assert forall|i: int| 0 <= i < lines.len() implies #[trigger] slid_line(lines[i], 30, 30) == lines[i] by {
        let w = unicode_str_width(lines[i]) as int;
        assert(w * 30 / 30 == w) by (nonlinear_arith);
    }
    assert(slide(lines, 30, 30) =~= lines);
}

proof fn lemma_last_typewriter(lines: Seq<Seq<char>>, reveal: nat)
    requires
        total_chars(lines) <= reveal,
        no_wider_than_columns(lines),
    ensures
        typewriter(lines, reveal) == lines,
{
    assert forall|i: int| 0 <= i < lines.len() implies #[trigger] typewriter(lines, reveal)[i]
        == lines[i] by {
        lemma_total_chars_prefix(lines, i);
        assert(lines[i].take(lines[i].len() as int) =~= lines[i]);
        assert(spaces(0) =~= Seq::<char>::empty());
        assert(typed_line(lines[i], sat_sub(reveal as int, total_chars(lines.take(i)) as int))
            =~= lines[i]);
    }
    assert(typewriter(lines, reveal) =~= lines);
}

/// The animation ends on the quote itself: in the last frame the
/// translations, readings and source are the real ones, and so are the
/// Japanese lines (for the typewriter, when no line is wider than its
/// characters' columns; for the scramble, when no line holds a newline).
#[verifier::spinoff_prover]
pub proof fn law_last_frame_shows_quote(
    animation: AnimationType,
    c: ContentView,
    plan: AnimationPlan,
    duration_ms: u64,
    kana: Seq<char>,
    latin: Seq<char>,
    out: ContentView,
)
    requires
        plans(plan, animation, duration_ms, c),
        is_frame(animation, c, plan, plan.frame_count as nat, kana, latin, out),
        animation is Typewriter ==> no_wider_than_columns(c.text),
        animation is Scramble ==> single_lines(c.text),
    ensures
        out.text == c.text,
        out.trans == c.trans,
        out.furi == c.furi,
        out.source == c.source,
{
    match animation {
        AnimationType::NoAnimation => {},
        AnimationType::Typewriter => {
            lemma_last_typewriter(c.text, plan.n_jap_chars as nat);
        },
        AnimationType::Slide => {
            lemma_last_slide(c.text);
        },
        AnimationType::Scramble => {
            lemma_last_scramble(c, plan, kana, out.text);
        },
    }
}

} // verus!
