//! Inline furigana markup `kanji(reading)` in a quote: splitting it into
//! segments, stripping the readings, and laying the readings out on a line
//! of their own.

use vstd::prelude::*;
use crate::furigana::{
    anki_to_inline, inline_from, is_kanji, is_kanji_char, kanji_followed_by, kanji_run_end,
    lemma_kanji_run_end, lemma_reading_end, reading_end,
};
use crate::text::{chars_of, push_all, slice_vec, string_of, trim_end};
use crate::widths::{char_width, str_width, unicode_char_width, unicode_str_width};

verus! {

/// A piece of a quote: plain text, or a base with its reading.
pub enum Segment {
    Plain(String),
    Ruby { base: String, reading: String },
}

/// A segment with its texts as character sequences.
pub enum SegView {
    PlainText(Seq<char>),
    RubyText(Seq<char>, Seq<char>),
}

impl View for Segment {
    type V = SegView;

    open spec fn view(&self) -> SegView {
        match self {
            Segment::Plain(t) => SegView::PlainText(t@),
            Segment::Ruby { base, reading } => SegView::RubyText(base@, reading@),
        }
    }
}

pub open spec fn seg_views(segs: Seq<Segment>) -> Seq<SegView> {
    segs.map_values(|s: Segment| s@)
}

/// Appends plain text, merged into a plain segment at the end if there is one.
pub open spec fn push_plain_spec(segs: Seq<SegView>, t: Seq<char>) -> Seq<SegView> {
    if segs.len() > 0 && segs.last() is PlainText {
        segs.drop_last().push(SegView::PlainText(segs.last()->PlainText_0 + t))
    } else {
        segs.push(SegView::PlainText(t))
    }
}

/// Where a reading that starts at `j` stops: at the first `)` or newline, or
/// at the end.
pub open spec fn paren_end(s: Seq<char>, j: int) -> int
    decreases s.len() - j,
{
    if 0 <= j < s.len() && s[j] != ')' && s[j] != '\n' {
        paren_end(s, j + 1)
    } else {
        j
    }
}

pub proof fn lemma_paren_end(s: Seq<char>, j: int)
    requires
        0 <= j <= s.len(),
    ensures
        j <= paren_end(s, j) <= s.len(),
        paren_end(s, j) < s.len() ==> (s[paren_end(s, j)] == ')' || s[paren_end(s, j)] == '\n'),
    decreases s.len() - j,
{
    if j < s.len() && s[j] != ')' && s[j] != '\n' {
        lemma_paren_end(s, j + 1);
    }
}

/// The segments of `s` from position `i` on, given the segments so far and
/// the run of kanji not yet placed. A run of kanji followed by `(reading)`
/// becomes a ruby segment; a `(` whose reading meets a newline or the end
/// first stays plain text, newline included.
pub open spec fn parse_from(s: Seq<char>, i: int, segs: Seq<SegView>, run: Seq<char>) -> Seq<SegView>
    decreases s.len() - i,
{
    if i < 0 || i >= s.len() {
        if run.len() > 0 {
            push_plain_spec(segs, run)
        } else {
            segs
        }
    } else if is_kanji(s[i]) {
        parse_from(s, i + 1, segs, run.push(s[i]))
    } else if s[i] == '(' && run.len() > 0 {
        let k = paren_end(s, i + 1);
        proof {
            lemma_paren_end(s, i + 1);
        }
        if k < s.len() && s[k] == ')' {
            parse_from(s, k + 1, segs.push(SegView::RubyText(run, s.subrange(i + 1, k))), Seq::empty())
        } else if k < s.len() {
            parse_from(s, k + 1, push_plain_spec(segs, run + seq!['('] + s.subrange(i + 1, k + 1)), Seq::empty())
        } else {
            parse_from(s, k, push_plain_spec(segs, run + seq!['('] + s.subrange(i + 1, k)), Seq::empty())
        }
    } else {
        let segs2 = if run.len() > 0 {
            push_plain_spec(segs, run)
        } else {
            segs
        };
        parse_from(s, i + 1, push_plain_spec(segs2, seq![s[i]]), Seq::empty())
    }
}

/// The segments of a quote's text.
pub open spec fn ruby_segments(s: Seq<char>) -> Seq<SegView> {
    parse_from(s, 0, Seq::empty(), Seq::empty())
}

fn push_plain(segments: &mut Vec<Segment>, text: &Vec<char>)
    ensures
        seg_views(final(segments)@) == push_plain_spec(seg_views(old(segments)@), text@),
{
    let n = segments.len();
    if n > 0 {
        let last = segments.pop().unwrap();
        match last {
            Segment::Plain(t) => {
                let mut v = chars_of(t.as_str());
                push_all(&mut v, text);
                segments.push(Segment::Plain(string_of(&v)));
                assert(seg_views(segments@) =~= push_plain_spec(seg_views(old(segments)@), text@));
            },
            Segment::Ruby { base, reading } => {
                segments.push(Segment::Ruby { base, reading });
                segments.push(Segment::Plain(string_of(text)));
                assert(seg_views(segments@) =~= push_plain_spec(seg_views(old(segments)@), text@));
            },
        }
    } else {
        segments.push(Segment::Plain(string_of(text)));
        assert(seg_views(segments@) =~= push_plain_spec(seg_views(old(segments)@), text@));
    }
}

/// Splits a quote's text into plain and ruby segments.
pub fn parse_ruby(s: &str) -> (r: Vec<Segment>)
    ensures
        seg_views(r@) == ruby_segments(s@),
{
    let v = chars_of(s);
    let n = v.len();
    let mut segments: Vec<Segment> = Vec::new();
    let mut run: Vec<char> = Vec::new();
    let mut i: usize = 0;
    assert(seg_views(segments@) =~= Seq::<SegView>::empty());
    assert(run@ =~= Seq::<char>::empty());
    while i < n
        invariant
            n == v.len(),
            v@ == s@,
            i <= n,
            parse_from(v@, i as int, seg_views(segments@), run@) == ruby_segments(s@),
        decreases n - i,
    {
        let c = v[i];
        if is_kanji_char(c) {
            run.push(c);
            i += 1;
            assert(parse_from(v@, i as int, seg_views(segments@), run@) == ruby_segments(s@));
        } else if c == '(' && run.len() > 0 {
            let mut k = i + 1;
            proof {
                lemma_paren_end(v@, i + 1);
            }
            while k < n && v[k] != ')' && v[k] != '\n'
                invariant
                    n == v.len(),
                    i + 1 <= k <= n,
                    paren_end(v@, i + 1) == paren_end(v@, k as int),
                decreases n - k,
            {
                k += 1;
            }
            if k < n && v[k] == ')' {
                let reading = slice_vec(&v, i + 1, k);
                let ghost before = seg_views(segments@);
                segments.push(Segment::Ruby { base: string_of(&run), reading: string_of(&reading) });
                assert(seg_views(segments@) =~= before.push(SegView::RubyText(run@, v@.subrange(i + 1, k as int))));
                run = Vec::new();
                i = k + 1;
            } else {
                let end = if k < n {
                    k + 1
                } else {
                    k
                };
                let ghost r0 = run@;
                let mut plain = run;
                plain.push('(');
                let reading = slice_vec(&v, i + 1, end);
                push_all(&mut plain, &reading);
                assert(plain@ =~= r0 + seq!['('] + v@.subrange(i + 1, end as int));
                push_plain(&mut segments, &plain);
                run = Vec::new();
                i = end;
            }
        } else {
            if run.len() > 0 {
                push_plain(&mut segments, &run);
            }
            let mut one: Vec<char> = Vec::new();
            one.push(c);
            assert(one@ =~= seq![c]);
            push_plain(&mut segments, &one);
            run = Vec::new();
            i += 1;
        }
    }
    if run.len() > 0 {
        push_plain(&mut segments, &run);
    }
    segments
}

} // verus!

verus! {

/// The segments written back in inline markup.
pub open spec fn inline_text(segs: Seq<SegView>) -> Seq<char>
    decreases segs.len(),
{
    if segs.len() == 0 {
        Seq::empty()
    } else {
        inline_text(segs.drop_last()) + match segs.last() {
            SegView::PlainText(t) => t,
            SegView::RubyText(b, r) => b + seq!['('] + r + seq![')'],
        }
    }
}

/// The segments' text without readings.
pub open spec fn bases_text(segs: Seq<SegView>) -> Seq<char>
    decreases segs.len(),
{
    if segs.len() == 0 {
        Seq::empty()
    } else {
        bases_text(segs.drop_last()) + match segs.last() {
            SegView::PlainText(t) => t,
            SegView::RubyText(b, r) => b,
        }
    }
}

/// Some segment carries a reading.
pub open spec fn has_ruby_segment(segs: Seq<SegView>) -> bool {
    exists|k: int| 0 <= k < segs.len() && #[trigger] segs[k] is RubyText
}

/// A quote's text with the readings of its inline furigana removed.
pub fn strip_ruby(s: &str) -> (r: String)
    ensures
        r@ == bases_text(ruby_segments(s@)),
{
    let segs = parse_ruby(s);
    let ghost sv = seg_views(segs@);
    let mut out: Vec<char> = Vec::new();
    let mut k: usize = 0;
    while k < segs.len()
        invariant
            k <= segs.len(),
            sv == seg_views(segs@),
            out@ == bases_text(sv.take(k as int)),
        decreases segs.len() - k,
    {
        assert(sv.take(k + 1).drop_last() == sv.take(k as int));
        assert(sv.take(k + 1).last() == segs@[k as int]@);
        match &segs[k] {
            Segment::Plain(t) => {
                let tv = chars_of(t.as_str());
                push_all(&mut out, &tv);
            },
            Segment::Ruby { base, reading } => {
                let bv = chars_of(base.as_str());
                push_all(&mut out, &bv);
            },
        }
        k += 1;
    }
    assert(sv.take(segs.len() as int) == sv);
    string_of(&out)
}

/// Whether a quote's text holds inline furigana.
pub fn has_ruby_markup(s: &str) -> (b: bool)
    ensures
        b == has_ruby_segment(ruby_segments(s@)),
{
    let segs = parse_ruby(s);
    let ghost sv = seg_views(segs@);
    let mut k: usize = 0;
    while k < segs.len()
        invariant
            k <= segs.len(),
            sv == seg_views(segs@),
            sv == ruby_segments(s@),
            forall|j: int| 0 <= j < k ==> !(#[trigger] sv[j] is RubyText),
        decreases segs.len() - k,
    {
        assert(sv[k as int] == segs@[k as int]@);
        if let Segment::Ruby { .. } = &segs[k] {
            assert(sv[k as int] is RubyText);
            return true;
        }
        k += 1;
    }
    false
}

/// CJK ideographs, the characters a reading attaches to.
pub fn is_kanji_display(c: char) -> (b: bool)
    ensures
        b == is_kanji(c),
{
    is_kanji_char(c)
}

proof fn lemma_inline_push_plain(segs: Seq<SegView>, t: Seq<char>)
    ensures
        inline_text(push_plain_spec(segs, t)) == inline_text(segs) + t,
        bases_text(push_plain_spec(segs, t)) == bases_text(segs) + t,
        has_ruby_segment(push_plain_spec(segs, t)) == has_ruby_segment(segs),
{
    if segs.len() > 0 && segs.last() is PlainText {
        let p = segs.last()->PlainText_0;
        let r = segs.drop_last().push(SegView::PlainText(p + t));
        assert(r.drop_last() == segs.drop_last());
        assert(inline_text(segs) == inline_text(segs.drop_last()) + p);
        assert(bases_text(segs) == bases_text(segs.drop_last()) + p);
        assert(inline_text(r) =~= inline_text(segs) + t);
        assert(bases_text(r) =~= bases_text(segs) + t);
        assert forall|k: int| 0 <= k < r.len() implies (#[trigger] r[k] is RubyText) == (segs[k] is RubyText) by {
            if k < r.len() - 1 {
                assert(r[k] == segs[k]);
            }
        }
        if has_ruby_segment(segs) {
            let k = choose|k: int| 0 <= k < segs.len() && #[trigger] segs[k] is RubyText;
            assert(r[k] is RubyText);
        }
    } else {
        let r = segs.push(SegView::PlainText(t));
        assert(r.drop_last() == segs);
        if has_ruby_segment(segs) {
            let k = choose|k: int| 0 <= k < segs.len() && #[trigger] segs[k] is RubyText;
            assert(r[k] is RubyText);
        }
        if has_ruby_segment(r) {
            let k = choose|k: int| 0 <= k < r.len() && #[trigger] r[k] is RubyText;
            assert(segs[k] is RubyText);
        }
    }
}

#[verifier::spinoff_prover]
#[verifier::rlimit(60)]
proof fn lemma_parse_from_text(s: Seq<char>, i: int, segs: Seq<SegView>, run: Seq<char>)
    requires
        0 <= i <= s.len(),
    ensures
        inline_text(parse_from(s, i, segs, run)) == inline_text(segs) + run + s.skip(i),
        !has_ruby_segment(parse_from(s, i, segs, run)) ==> bases_text(parse_from(s, i, segs, run))
            == bases_text(segs) + run + s.skip(i) && !has_ruby_segment(segs),
    decreases s.len() - i,
{
    if i == s.len() {
        assert(s.skip(i) =~= Seq::<char>::empty());
        if run.len() > 0 {
            lemma_inline_push_plain(segs, run);
        }
        assert(inline_text(segs) + run + s.skip(i) =~= inline_text(segs) + run);
        assert(bases_text(segs) + run + s.skip(i) =~= bases_text(segs) + run);
    } else if is_kanji(s[i]) {
        lemma_parse_from_text(s, i + 1, segs, run.push(s[i]));
        assert(run.push(s[i]) + s.skip(i + 1) =~= run + s.skip(i));
        assert(inline_text(segs) + run.push(s[i]) + s.skip(i + 1) =~= inline_text(segs) + run + s.skip(i));
        assert(bases_text(segs) + run.push(s[i]) + s.skip(i + 1) =~= bases_text(segs) + run + s.skip(i));
    } else if s[i] == '(' && run.len() > 0 {
        let k = paren_end(s, i + 1);
        lemma_paren_end(s, i + 1);
        if k < s.len() && s[k] == ')' {
            let segs2 = segs.push(SegView::RubyText(run, s.subrange(i + 1, k)));
            lemma_parse_from_text(s, k + 1, segs2, Seq::empty());
            assert(segs2.drop_last() == segs);
            assert(inline_text(segs2) + Seq::<char>::empty() + s.skip(k + 1) =~= inline_text(segs) + run
                + s.skip(i));
            assert(segs2[segs2.len() - 1] is RubyText);
        } else {
            let end = if k < s.len() {
                k + 1
            } else {
                k
            };
            let t = run + seq!['('] + s.subrange(i + 1, end);
            lemma_inline_push_plain(segs, t);
            lemma_parse_from_text(s, end, push_plain_spec(segs, t), Seq::empty());
            assert(inline_text(segs) + t + Seq::<char>::empty() + s.skip(end) =~= inline_text(segs) + run
                + s.skip(i));
            assert(bases_text(segs) + t + Seq::<char>::empty() + s.skip(end) =~= bases_text(segs) + run
                + s.skip(i));
        }
    } else {
        let segs2 = if run.len() > 0 {
            push_plain_spec(segs, run)
        } else {
            segs
        };
        if run.len() > 0 {
            lemma_inline_push_plain(segs, run);
        }
        lemma_inline_push_plain(segs2, seq![s[i]]);
        lemma_parse_from_text(s, i + 1, push_plain_spec(segs2, seq![s[i]]), Seq::empty());
        assert(inline_text(segs) + run + seq![s[i]] + Seq::<char>::empty() + s.skip(i + 1) =~= inline_text(
            segs,
        ) + run + s.skip(i));
        assert(bases_text(segs) + run + seq![s[i]] + Seq::<char>::empty() + s.skip(i + 1) =~= bases_text(
            segs,
        ) + run + s.skip(i));
    }
}

/// At `j` a kanji is followed by `(`, and the first `)` after it, at `c`,
/// comes before any newline.
pub open spec fn closed_ruby_at(x: Seq<char>, j: int, c: int) -> bool {
    &&& 0 <= j && j + 1 < c < x.len()
    &&& is_kanji(x[j])
    &&& x[j + 1] == '('
    &&& x[c] == ')'
    &&& forall|m: int| j + 1 < m < c ==> x[m] != '\n'
}

pub open spec fn has_closed_ruby_from(x: Seq<char>, i: int) -> bool {
    exists|j: int, c: int| i <= j && #[trigger] closed_ruby_at(x, j, c)
}

proof fn lemma_paren_stops(s: Seq<char>, p: int, c: int)
    requires
        0 <= p <= c < s.len(),
        s[c] == ')',
        forall|m: int| p <= m < c ==> s[m] != '\n',
    ensures
        paren_end(s, p) <= c,
        s[paren_end(s, p)] == ')',
    decreases c - p,
{
    if s[p] != ')' {
        assert(s[p] != '\n');
        lemma_paren_stops(s, p + 1, c);
    }
}

proof fn lemma_paren_between(s: Seq<char>, p: int, m: int)
    requires
        0 <= p <= m < paren_end(s, p),
    ensures
        s[m] != ')' && s[m] != '\n',
    decreases m - p,
{
    if p < m {
        lemma_paren_between(s, p + 1, m);
    }
}

proof fn lemma_parse_finds_ruby(s: Seq<char>, i: int, segs: Seq<SegView>, run: Seq<char>)
    requires
        0 <= i <= s.len(),
        has_closed_ruby_from(s, i),
    ensures
        has_ruby_segment(parse_from(s, i, segs, run)),
    decreases s.len() - i,
{
    let (j, c) = choose|j: int, c: int| i <= j && #[trigger] closed_ruby_at(s, j, c);
    if i == j {
        let run2 = run.push(s[i]);
        assert(parse_from(s, i, segs, run) == parse_from(s, i + 1, segs, run2));
        lemma_paren_stops(s, i + 2, c);
        lemma_paren_end(s, i + 2);
        let k = paren_end(s, i + 2);
        let segs2 = segs.push(SegView::RubyText(run2, s.subrange(i + 2, k)));
        assert(parse_from(s, i + 1, segs, run2) == parse_from(s, k + 1, segs2, Seq::empty()));
        assert(segs2[segs2.len() - 1] is RubyText);
        lemma_parse_from_text(s, k + 1, segs2, Seq::empty());
    } else if is_kanji(s[i]) {
        assert(closed_ruby_at(s, j, c));
        lemma_parse_finds_ruby(s, i + 1, segs, run.push(s[i]));
    } else if s[i] == '(' && run.len() > 0 {
        let k = paren_end(s, i + 1);
        lemma_paren_end(s, i + 1);
        if k < s.len() && s[k] == ')' {
            let segs2 = segs.push(SegView::RubyText(run, s.subrange(i + 1, k)));
            assert(segs2[segs2.len() - 1] is RubyText);
            lemma_parse_from_text(s, k + 1, segs2, Seq::empty());
        } else if k < s.len() {
            assert(j >= k + 1) by {
                if j <= k {
                    assert(j != k);
                    assert(j + 1 != k);
                    if c < k {
                        lemma_paren_between(s, i + 1, c);
                    } else if c > k {
                        assert(s[k] == '\n');
                    }
                }
            }
            assert(closed_ruby_at(s, j, c));
            lemma_parse_finds_ruby(
                s,
                k + 1,
                push_plain_spec(segs, run + seq!['('] + s.subrange(i + 1, k + 1)),
                Seq::empty(),
            );
        } else {
            lemma_paren_between(s, i + 1, c);
        }
    } else {
        let segs2 = if run.len() > 0 {
            push_plain_spec(segs, run)
        } else {
            segs
        };
        assert(closed_ruby_at(s, j, c));
        lemma_parse_finds_ruby(s, i + 1, push_plain_spec(segs2, seq![s[i]]), Seq::empty());
    }
}

proof fn lemma_closed_shift(y: Seq<char>, x: Seq<char>)
    requires
        has_closed_ruby_from(x, 0),
    ensures
        has_closed_ruby_from(y + x, 0),
{
    let (j, c) = choose|j: int, c: int| 0 <= j && #[trigger] closed_ruby_at(x, j, c);
    let z = y + x;
    let n = y.len() as int;
    assert forall|m: int| j + n + 1 < m < c + n implies z[m] != '\n' by {
        assert(z[m] == x[m - n]);
    }
    assert(z[j + n] == x[j] && z[j + n + 1] == x[j + 1] && z[c + n] == x[c]);
    assert(closed_ruby_at(z, j + n, c + n));
}

proof fn lemma_inline_has_closed(s: Seq<char>, i: int)
    requires
        0 <= i <= s.len(),
        exists|j: int| i <= j < s.len() - 1 && #[trigger] is_kanji(s[j]) && s[j + 1] == '[',
    ensures
        has_closed_ruby_from(inline_from(s, i), 0),
    decreases s.len() - i,
{
    let j = choose|j: int| i <= j < s.len() - 1 && #[trigger] is_kanji(s[j]) && s[j + 1] == '[';
    if is_kanji(s[i]) {
        let e = kanji_run_end(s, i + 1);
        lemma_kanji_run_end(s, i + 1);
        if e < s.len() && s[e] == '[' {
            let r = reading_end(s, e + 1);
            lemma_reading_end(s, e + 1);
            let o = inline_from(s, i);
            let a = s.subrange(i, e);
            let rd = s.subrange(e + 1, r);
            assert(o == a + seq!['('] + rd + seq![')'] + inline_from(s, crate::furigana::group_resume(s, r)));
            let jj = e - i - 1;
            let cc = r - i;
            assert(o[jj] == s[e - 1]);
            assert(is_kanji(s[e - 1]));
            assert(o[jj + 1] == '(');
            assert(o[cc] == ')');
            assert forall|m: int| jj + 1 < m < cc implies o[m] != '\n' by {
                assert(o[m] == rd[m - (e - i) - 1]);
                assert(rd[m - (e - i) - 1] == s[m + i]);
            }
            assert(closed_ruby_at(o, jj, cc));
        } else {
            assert(j >= e) by {
                if j < e {
                    if j + 1 < e {
                        assert(is_kanji(s[j + 1]));
                    }
                }
            }
            lemma_inline_has_closed(s, e);
            assert(inline_from(s, i) == s.subrange(i, e) + inline_from(s, e));
            lemma_closed_shift(s.subrange(i, e), inline_from(s, e));
        }
    } else {
        assert(j >= i + 1);
        lemma_inline_has_closed(s, i + 1);
        assert(inline_from(s, i) == seq![s[i]] + inline_from(s, i + 1));
        lemma_closed_shift(seq![s[i]], inline_from(s, i + 1));
    }
}

/// Text with Anki's `kanji[reading]` notation, once rewritten inline, is
/// read as furigana: its segments hold a ruby segment.
pub proof fn law_anki_notation_read_as_furigana(s: Seq<char>)
    requires
        kanji_followed_by(s, '['),
    ensures
        has_ruby_segment(ruby_segments(anki_to_inline(s))),
{
    let j = choose|j: int| 0 <= j < s.len() - 1 && #[trigger] is_kanji(s[j]) && s[j + 1] == '[';
    assert(0 <= j < s.len() - 1 && is_kanji(s[j]) && s[j + 1] == '[');
    lemma_inline_has_closed(s, 0);
    lemma_parse_finds_ruby(anki_to_inline(s), 0, Seq::empty(), Seq::empty());
}

/// Segments as parsing leaves them: no two plain segments side by side, and
/// each ruby segment a non-empty run of kanji with a reading that holds no
/// `)` and no newline.
pub open spec fn well_formed_segments(segs: Seq<SegView>) -> bool {
    &&& forall|k: int|
        0 <= k < segs.len() - 1 ==> !(#[trigger] segs[k] is PlainText && segs[k + 1] is PlainText)
    &&& forall|k: int|
        0 <= k < segs.len() ==> (#[trigger] segs[k] matches SegView::RubyText(b, r) ==> {
            &&& b.len() > 0
            &&& forall|m: int| 0 <= m < b.len() ==> is_kanji(#[trigger] b[m])
            &&& forall|m: int| 0 <= m < r.len() ==> #[trigger] r[m] != ')' && r[m] != '\n'
        })
}

proof fn lemma_push_plain_wf(segs: Seq<SegView>, t: Seq<char>)
    requires
        well_formed_segments(segs),
    ensures
        well_formed_segments(push_plain_spec(segs, t)),
{
    let out = push_plain_spec(segs, t);
    if segs.len() > 0 && segs.last() is PlainText {
        assert forall|k: int| 0 <= k < out.len() - 1 implies !(#[trigger] out[k] is PlainText
            && out[k + 1] is PlainText) by {
            assert(out[k] == segs[k]);
            if k + 1 < out.len() - 1 {
                assert(out[k + 1] == segs[k + 1]);
            } else {
                assert(segs[k + 1] is PlainText);
            }
        }
        assert forall|k: int| 0 <= k < out.len() implies (#[trigger] out[k] matches SegView::RubyText(
            b,
            r,
        ) ==> {
            &&& b.len() > 0
            &&& forall|m: int| 0 <= m < b.len() ==> is_kanji(#[trigger] b[m])
            &&& forall|m: int| 0 <= m < r.len() ==> #[trigger] r[m] != ')' && r[m] != '\n'
        }) by {
            if k < out.len() - 1 {
                assert(out[k] == segs[k]);
            }
        }
    } else {
        assert forall|k: int| 0 <= k < out.len() - 1 implies !(#[trigger] out[k] is PlainText
            && out[k + 1] is PlainText) by {
            assert(out[k] == segs[k]);
            if k + 1 < segs.len() {
                assert(out[k + 1] == segs[k + 1]);
            } else {
                assert(segs[k] == segs.last());
            }
        }
        assert forall|k: int| 0 <= k < out.len() implies (#[trigger] out[k] matches SegView::RubyText(
            b,
            r,
        ) ==> {
            &&& b.len() > 0
            &&& forall|m: int| 0 <= m < b.len() ==> is_kanji(#[trigger] b[m])
            &&& forall|m: int| 0 <= m < r.len() ==> #[trigger] r[m] != ')' && r[m] != '\n'
        }) by {
            if k < segs.len() {
                assert(out[k] == segs[k]);
            }
        }
    }
}

proof fn lemma_parse_wf(s: Seq<char>, i: int, segs: Seq<SegView>, run: Seq<char>)
    requires
        0 <= i <= s.len(),
        well_formed_segments(segs),
        forall|m: int| 0 <= m < run.len() ==> is_kanji(#[trigger] run[m]),
    ensures
        well_formed_segments(parse_from(s, i, segs, run)),
    decreases s.len() - i,
{
    if i == s.len() {
        if run.len() > 0 {
            lemma_push_plain_wf(segs, run);
        }
    } else if is_kanji(s[i]) {
        let run2 = run.push(s[i]);
        assert forall|m: int| 0 <= m < run2.len() implies is_kanji(#[trigger] run2[m]) by {
            if m < run.len() {
                assert(run2[m] == run[m]);
            }
        }
        lemma_parse_wf(s, i + 1, segs, run2);
    } else if s[i] == '(' && run.len() > 0 {
        let k = paren_end(s, i + 1);
        lemma_paren_end(s, i + 1);
        if k < s.len() && s[k] == ')' {
            let rd = s.subrange(i + 1, k);
            let segs2 = segs.push(SegView::RubyText(run, rd));
            assert forall|m: int| 0 <= m < rd.len() implies #[trigger] rd[m] != ')' && rd[m] != '\n' by {
                lemma_paren_between(s, i + 1, m + i + 1);
            }
            assert forall|q: int| 0 <= q < segs2.len() - 1 implies !(#[trigger] segs2[q] is PlainText
                && segs2[q + 1] is PlainText) by {
                assert(segs2[q] == segs[q]);
                if q + 1 < segs.len() {
                    assert(segs2[q + 1] == segs[q + 1]);
                }
            }
            assert forall|q: int| 0 <= q < segs2.len() implies (#[trigger] segs2[q] matches SegView::RubyText(
                b,
                r,
            ) ==> {
                &&& b.len() > 0
                &&& forall|m: int| 0 <= m < b.len() ==> is_kanji(#[trigger] b[m])
                &&& forall|m: int| 0 <= m < r.len() ==> #[trigger] r[m] != ')' && r[m] != '\n'
            }) by {
                if q < segs.len() {
                    assert(segs2[q] == segs[q]);
                }
            }
            lemma_parse_wf(s, k + 1, segs2, Seq::empty());
        } else {
            let end = if k < s.len() {
                k + 1
            } else {
                k
            };
            lemma_push_plain_wf(segs, run + seq!['('] + s.subrange(i + 1, end));
            lemma_parse_wf(s, end, push_plain_spec(segs, run + seq!['('] + s.subrange(i + 1, end)), Seq::empty());
        }
    } else {
        let segs2 = if run.len() > 0 {
            push_plain_spec(segs, run)
        } else {
            segs
        };
        if run.len() > 0 {
            lemma_push_plain_wf(segs, run);
        }
        lemma_push_plain_wf(segs2, seq![s[i]]);
        lemma_parse_wf(s, i + 1, push_plain_spec(segs2, seq![s[i]]), Seq::empty());
    }
}

/// Every plain segment holds text that ends in a character other than a
/// kanji.
pub open spec fn plains_end_open(segs: Seq<SegView>) -> bool {
    forall|k: int|
        0 <= k < segs.len() ==> (#[trigger] segs[k] matches SegView::PlainText(t) ==> t.len() > 0
            && !is_kanji(t.last()))
}

/// Every plain segment but the last holds text that ends in a character
/// other than a kanji: no ruby base continues a run of kanji before it.
pub open spec fn bases_maximal(segs: Seq<SegView>) -> bool {
    forall|k: int|
        0 <= k < segs.len() - 1 ==> (#[trigger] segs[k] matches SegView::PlainText(t) ==> t.len() > 0
            && !is_kanji(t.last()))
}

proof fn lemma_push_plain_twice(segs: Seq<SegView>, a: Seq<char>, b: Seq<char>)
    ensures
        push_plain_spec(push_plain_spec(segs, a), b) == push_plain_spec(segs, a + b),
{
    if segs.len() > 0 && segs.last() is PlainText {
        let p = segs.last()->PlainText_0;
        let once = segs.drop_last().push(SegView::PlainText(p + a));
        assert(once.drop_last() =~= segs.drop_last());
        assert(p + a + b =~= p + (a + b));
    } else {
        let once = segs.push(SegView::PlainText(a));
        assert(once.drop_last() =~= segs);
    }
}

proof fn lemma_push_plain_maximal(segs: Seq<SegView>, t: Seq<char>)
    requires
        plains_end_open(segs),
    ensures
        bases_maximal(push_plain_spec(segs, t)),
{
    let out = push_plain_spec(segs, t);
    assert forall|k: int| 0 <= k < out.len() - 1 implies (#[trigger] out[k] matches SegView::PlainText(
        u,
    ) ==> u.len() > 0 && !is_kanji(u.last())) by {
        assert(out[k] == segs[k]);
    }
}

proof fn lemma_push_plain_open(segs: Seq<SegView>, t: Seq<char>)
    requires
        plains_end_open(segs),
        t.len() > 0,
        !is_kanji(t.last()),
    ensures
        plains_end_open(push_plain_spec(segs, t)),
{
    let out = push_plain_spec(segs, t);
    assert forall|k: int| 0 <= k < out.len() implies (#[trigger] out[k] matches SegView::PlainText(
        u,
    ) ==> u.len() > 0 && !is_kanji(u.last())) by {
        if k < out.len() - 1 {
            assert(out[k] == segs[k]);
        } else if segs.len() > 0 && segs.last() is PlainText {
            let p = segs.last()->PlainText_0;
            assert((p + t).last() == t.last());
        }
    }
}

proof fn lemma_parse_maximal(s: Seq<char>, i: int, segs: Seq<SegView>, run: Seq<char>)
    requires
        0 <= i <= s.len(),
        plains_end_open(segs),
    ensures
        bases_maximal(parse_from(s, i, segs, run)),
    decreases s.len() - i,
{
    if i == s.len() {
        if run.len() > 0 {
            lemma_push_plain_maximal(segs, run);
        } else {
            assert forall|k: int| 0 <= k < segs.len() - 1 implies (#[trigger] segs[k] matches SegView::PlainText(
                u,
            ) ==> u.len() > 0 && !is_kanji(u.last())) by {
                assert(segs[k] == segs[k]);
            }
        }
    } else if is_kanji(s[i]) {
        lemma_parse_maximal(s, i + 1, segs, run.push(s[i]));
    } else if s[i] == '(' && run.len() > 0 {
        let k = paren_end(s, i + 1);
        lemma_paren_end(s, i + 1);
        if k < s.len() && s[k] == ')' {
            let segs2 = segs.push(SegView::RubyText(run, s.subrange(i + 1, k)));
            assert forall|q: int| 0 <= q < segs2.len() implies (#[trigger] segs2[q] matches SegView::PlainText(
                u,
            ) ==> u.len() > 0 && !is_kanji(u.last())) by {
                if q < segs.len() {
                    assert(segs2[q] == segs[q]);
                }
            }
            lemma_parse_maximal(s, k + 1, segs2, Seq::empty());
        } else if k < s.len() {
            let t = run + seq!['('] + s.subrange(i + 1, k + 1);
            assert(t.last() == s[k]);
            assert(s[k] == '\n');
            lemma_push_plain_open(segs, t);
            lemma_parse_maximal(s, k + 1, push_plain_spec(segs, t), Seq::empty());
        } else {
            let t = run + seq!['('] + s.subrange(i + 1, k);
            lemma_push_plain_maximal(segs, t);
            assert(parse_from(s, i, segs, run) == parse_from(s, k, push_plain_spec(segs, t), Seq::empty()));
            assert(parse_from(s, k, push_plain_spec(segs, t), Seq::empty()) == push_plain_spec(segs, t));
        }
    } else {
        let c = seq![s[i]];
        if run.len() > 0 {
            lemma_push_plain_twice(segs, run, c);
            assert((run + c).last() == s[i]);
            lemma_push_plain_open(segs, run + c);
        } else {
            lemma_push_plain_open(segs, c);
        }
        let segs2 = if run.len() > 0 {
            push_plain_spec(segs, run)
        } else {
            segs
        };
        lemma_parse_maximal(s, i + 1, push_plain_spec(segs2, c), Seq::empty());
    }
}

/// The segments of any text are well formed: no two plain segments side by
/// side; every base a non-empty run of kanji; no reading holding `)` or a
/// newline; and every plain segment but the last non-empty and ending in a
/// character other than a kanji, so that each base is a whole (maximal) run
/// of kanji.
pub proof fn law_segments_well_formed(s: Seq<char>)
    ensures
        well_formed_segments(ruby_segments(s)),
        bases_maximal(ruby_segments(s)),
{
    lemma_parse_wf(s, 0, Seq::empty(), Seq::empty());
    lemma_parse_maximal(s, 0, Seq::empty(), Seq::empty());
}

/// Writing the segments of a text back in inline markup gives the text.
pub proof fn law_segments_round_trip(s: Seq<char>)
    ensures
        inline_text(ruby_segments(s)) == s,
{
    lemma_parse_from_text(s, 0, Seq::empty(), Seq::empty());
    assert(Seq::<char>::empty() + Seq::<char>::empty() + s.skip(0) =~= s);
}

/// A text without inline furigana is left as it is by stripping readings.
pub proof fn law_strip_keeps_text_without_ruby(s: Seq<char>)
    requires
        !has_ruby_segment(ruby_segments(s)),
    ensures
        bases_text(ruby_segments(s)) == s,
{
    lemma_parse_from_text(s, 0, Seq::empty(), Seq::empty());
    assert(Seq::<char>::empty() + Seq::<char>::empty() + s.skip(0) =~= s);
}

} // verus!

verus! {

/// `n` spaces.
pub open spec fn spaces(n: nat) -> Seq<char> {
    Seq::new(n, |_i: int| ' ')
}

/// Appends `n` spaces.
pub fn push_spaces(out: &mut Vec<char>, n: usize)
    ensures
        final(out)@ == old(out)@ + spaces(n as nat),
{
    let mut i: usize = 0;
    while i < n
        invariant
            i <= n,
            out@ == old(out)@ + spaces(i as nat),
        decreases n - i,
    {
        out.push(' ');
        i += 1;
        assert(out@ =~= old(out)@ + spaces(i as nat));
    }
}

/// The columns a character takes on the base line (one for a control
/// character).
pub open spec fn columns_of(c: char) -> nat {
    match unicode_char_width(c) {
        Some(w) => w as nat,
        None => 1,
    }
}

/// The columns of a text counted character by character, a control
/// character as one.
pub open spec fn columns(s: Seq<char>) -> nat
    decreases s.len(),
{
    if s.len() == 0 {
        0
    } else {
        columns(s.drop_last()) + columns_of(s.last())
    }
}

/// The base line and the reading line of plain text: each character on the
/// base line above as many spaces on the reading line, newlines on both.
pub open spec fn plain_rows(t: Seq<char>) -> (Seq<char>, Seq<char>)
    decreases t.len(),
{
    if t.len() == 0 {
        (Seq::empty(), Seq::empty())
    } else {
        let (k, f) = plain_rows(t.drop_last());
        let c = t.last();
        if c == '\n' {
            (k.push('\n'), f.push('\n'))
        } else {
            (k.push(c), f + spaces(columns_of(c)))
        }
    }
}

/// The base line and the reading line of one segment: for ruby, base and
/// reading each centered in a column as wide as the wider of the two.
pub open spec fn segment_rows(sv: SegView) -> (Seq<char>, Seq<char>) {
    match sv {
        SegView::PlainText(t) => plain_rows(t),
        SegView::RubyText(b, r) => {
            let bw = unicode_str_width(b) as int;
            let rw = unicode_str_width(r) as int;
            let col = if bw >= rw {
                bw
            } else {
                rw
            };
            let kl = (col - bw) / 2;
            let kr = col - bw - kl;
            let rl = (col - rw) / 2;
            let rr = col - rw - rl;
            (
                spaces(kl as nat) + b + spaces(kr as nat),
                spaces(rl as nat) + r + spaces(rr as nat),
            )
        },
    }
}

/// The base line and reading line of a list of segments, in order.
pub open spec fn rows_of(segs: Seq<SegView>) -> (Seq<char>, Seq<char>)
    decreases segs.len(),
{
    if segs.len() == 0 {
        (Seq::empty(), Seq::empty())
    } else {
        let (k, f) = rows_of(segs.drop_last());
        let (k2, f2) = segment_rows(segs.last());
        (k + k2, f + f2)
    }
}

proof fn lemma_plain_rows_columns(t: Seq<char>)
    requires
        !t.contains('\n'),
    ensures
        plain_rows(t) == (t, spaces(columns(t))),
    decreases t.len(),
{
    if t.len() > 0 {
        let f = t.drop_last();
        assert(!f.contains('\n')) by {
            if f.contains('\n') {
                let q = choose|q: int| 0 <= q < f.len() && f[q] == '\n';
                assert(t[q] == '\n');
            }
        }
        lemma_plain_rows_columns(f);
        assert(t.last() != '\n') by {
            assert(t[t.len() - 1] == t.last());
        }
        assert(f.push(t.last()) =~= t);
        assert(spaces(columns(f)) + spaces(columns_of(t.last())) =~= spaces(columns(t)));
    }
}

/// Each segment takes the same columns on the base line as on the reading
/// line. A ruby segment's base and reading are each centred in `m` columns,
/// `m` the larger of their widths: the one `w` wide gets `(m - w) / 2`
/// spaces before it and the rest after. Plain text without a newline stands
/// over as many spaces as its characters take columns. The two lines of a
/// list of segments are these pieces, joined in order (`rows_of`), so each
/// segment starts at the same column on both lines.
pub proof fn law_ruby_columns(sv: SegView)
    requires
        sv matches SegView::PlainText(t) ==> !t.contains('\n'),
    ensures
        sv matches SegView::PlainText(t) ==> segment_rows(sv) == (t, spaces(columns(t))),
        sv matches SegView::RubyText(b, r) ==> {
            let bw = unicode_str_width(b) as int;
            let rw = unicode_str_width(r) as int;
            let m = if bw >= rw {
                bw
            } else {
                rw
            };
            &&& segment_rows(sv).0 == spaces(((m - bw) / 2) as nat) + b + spaces(
                (m - bw - (m - bw) / 2) as nat,
            )
            &&& segment_rows(sv).1 == spaces(((m - rw) / 2) as nat) + r + spaces(
                (m - rw - (m - rw) / 2) as nat,
            )
            &&& (m - bw) / 2 + bw + (m - bw - (m - bw) / 2) == m
            &&& (m - rw) / 2 + rw + (m - rw - (m - rw) / 2) == m
        },
{
    match sv {
        SegView::PlainText(t) => {
            lemma_plain_rows_columns(t);
        },
        SegView::RubyText(b, r) => {},
    }
}

/// Lays out segments as a base line and a reading line (each may hold
/// newlines), with each reading centered above or below its base; trailing
/// whitespace trimmed from both.
pub fn format_ruby(segments: &[Segment]) -> (r: (String, String))
    ensures
        r.0@ == trim_end(rows_of(seg_views(segments@)).0),
        r.1@ == trim_end(rows_of(seg_views(segments@)).1),
{
    let ghost sv = seg_views(segments@);
    let mut kanji: Vec<char> = Vec::new();
    let mut furi: Vec<char> = Vec::new();
    let mut k: usize = 0;
    while k < segments.len()
        invariant
            k <= segments.len(),
            sv == seg_views(segments@),
            (kanji@, furi@) == rows_of(sv.take(k as int)),
        decreases segments.len() - k,
    {
        assert(sv.take(k + 1).drop_last() == sv.take(k as int));
        assert(sv.take(k + 1).last() == segments@[k as int]@);
        match &segments[k] {
            Segment::Plain(text) => {
                let tv = chars_of(text.as_str());
                let ghost k0 = kanji@;
                let ghost f0 = furi@;
                let mut j: usize = 0;
                while j < tv.len()
                    invariant
                        j <= tv.len(),
                        kanji@ == k0 + plain_rows(tv@.take(j as int)).0,
                        furi@ == f0 + plain_rows(tv@.take(j as int)).1,
                    decreases tv.len() - j,
                {
                    let c = tv[j];
                    assert(tv@.take(j + 1).drop_last() == tv@.take(j as int));
                    if c == '\n' {
                        kanji.push('\n');
                        furi.push('\n');
                    } else {
                        let w = match char_width(c) {
                            Some(w) => w,
                            None => 1,
                        };
                        kanji.push(c);
                        push_spaces(&mut furi, w);
                    }
                    j += 1;
                    assert(kanji@ =~= k0 + plain_rows(tv@.take(j as int)).0);
                    assert(furi@ =~= f0 + plain_rows(tv@.take(j as int)).1);
                }
                assert(tv@.take(tv.len() as int) == tv@);
            },
            Segment::Ruby { base, reading } => {
                let bw = str_width(base.as_str());
                let rw = str_width(reading.as_str());
                let col = if bw >= rw {
                    bw
                } else {
                    rw
                };
                let kl = (col - bw) / 2;
                let kr = col - bw - kl;
                let rl = (col - rw) / 2;
                let rr = col - rw - rl;
                let ghost k0 = kanji@;
                let ghost f0 = furi@;
                push_spaces(&mut kanji, kl);
                let bv = chars_of(base.as_str());
                push_all(&mut kanji, &bv);
                push_spaces(&mut kanji, kr);
                push_spaces(&mut furi, rl);
                let rv = chars_of(reading.as_str());
                push_all(&mut furi, &rv);
                push_spaces(&mut furi, rr);
                assert(kanji@ =~= k0 + segment_rows(segments@[k as int]@).0);
                assert(furi@ =~= f0 + segment_rows(segments@[k as int]@).1);
            },
        }
        k += 1;
    }
    assert(sv.take(segments.len() as int) == sv);
    let kt = crate::text::trim_end_vec(&kanji);
    let ft = crate::text::trim_end_vec(&furi);
    (string_of(&kt), string_of(&ft))
}

} // verus!
