//! Cleaning of raw Anki field HTML into plain quote text.

use vstd::prelude::*;
use crate::text::{
    is_whitespace, is_ws,
    chars_of, find_from, find_vec, lemma_find_from, lower_seq, lower_vec, push_all, push_range,
    replace_all, replace_vec, slice_vec, starts_at, string_of, trim, trim_end, trim_start, trim_vec,
};

verus! {

pub open spec fn sound_open() -> Seq<char> {
    seq!['[', 's', 'o', 'u', 'n', 'd', ':']
}

/// `[sound:...]` markers removed; an unterminated marker and everything after
/// it are kept as they are. Reads `s` from position `p` on.
pub open spec fn without_sound_from(s: Seq<char>, p: int) -> Seq<char>
    decreases s.len() - p,
{
    if p < 0 || p > s.len() {
        Seq::empty()
    } else {
        match find_from(s, sound_open(), p) {
            None => s.skip(p),
            Some(st) => {
                proof {
                    lemma_find_from(s, sound_open(), p);
                    lemma_find_from(s, seq![']'], st);
                }
                match find_from(s, seq![']'], st) {
                    None => s.skip(p),
                    Some(e) => s.subrange(p, st) + without_sound_from(s, e + 1),
                }
            }
        }
    }
}

pub open spec fn without_sound(s: Seq<char>) -> Seq<char> {
    without_sound_from(s, 0)
}

fn remove_sound_markers(v: &Vec<char>) -> (r: Vec<char>)
    ensures
        r@ == without_sound(v@),
{
    let pat = vec!['[', 's', 'o', 'u', 'n', 'd', ':'];
    let close = vec![']'];
    assert(pat@ == sound_open());
    assert(close@ == seq![']']);
    let mut out: Vec<char> = Vec::new();
    let mut p: usize = 0;
    loop
        invariant
            p <= v.len(),
            pat@ == sound_open(),
            close@ == seq![']'],
            out@ + without_sound_from(v@, p as int) == without_sound(v@),
        decreases v.len() - p,
    {
        proof {
            lemma_find_from(v@, sound_open(), p as int);
        }
        match find_vec(v, &pat, p) {
            None => {
                push_range(&mut out, v, p, v.len());
                assert(v@.subrange(p as int, v.len() as int) == v@.skip(p as int));
                return out;
            },
            Some(st) => {
                proof {
                    lemma_find_from(v@, seq![']'], st as int);
                }
                match find_vec(v, &close, st) {
                    None => {
                        push_range(&mut out, v, p, v.len());
                        assert(v@.subrange(p as int, v.len() as int) == v@.skip(p as int));
                        return out;
                    },
                    Some(e) => {
                        let ghost before = out@;
                        push_range(&mut out, v, p, st);
                        assert(out@ + without_sound_from(v@, e + 1) == before
                            + without_sound_from(v@, p as int));
                        p = e + 1;
                    },
                }
            },
        }
    }
}

pub open spec fn ruby_open() -> Seq<char> {
    seq!['<', 'r', 'u', 'b', 'y']
}

pub open spec fn ruby_close() -> Seq<char> {
    seq!['<', '/', 'r', 'u', 'b', 'y', '>']
}

pub open spec fn rb_open() -> Seq<char> {
    seq!['<', 'r', 'b', '>']
}

pub open spec fn rb_close() -> Seq<char> {
    seq!['<', '/', 'r', 'b', '>']
}

pub open spec fn rt_open() -> Seq<char> {
    seq!['<', 'r', 't', '>']
}

pub open spec fn rt_close() -> Seq<char> {
    seq!['<', '/', 'r', 't', '>']
}

/// The text between the first opening tag and the first closing tag, or
/// `None` when the closing tag comes first (slicing that range fails).
/// `lw` is the lowercased text in which the tags are looked up.
pub open spec fn between_tags(inner: Seq<char>, a: int, b: int) -> Option<Seq<char>> {
    if b < a + 4 {
        None
    } else {
        Some(inner.subrange(a + 4, b))
    }
}

/// The content of a `<ruby>` element as `base(reading)`, or the element's inner
/// text unchanged when the base or the reading is empty. `None` marks the
/// inputs on which a closing `</rb>` or `</rt>` precedes its opening tag.
pub open spec fn ruby_content(inner: Seq<char>) -> Option<Seq<char>> {
    let lw = lower_seq(inner);
    let base = match (find_from(lw, rb_open(), 0), find_from(lw, rb_close(), 0)) {
        (Some(a), Some(b)) => between_tags(inner, a, b),
        _ => match find_from(lw, rt_open(), 0) {
            Some(r) => Some(inner.subrange(0, r)),
            None => Some(inner),
        },
    };
    let reading = match (find_from(lw, rt_open(), 0), find_from(lw, rt_close(), 0)) {
        (Some(a), Some(b)) => between_tags(inner, a, b),
        _ => Some(Seq::empty()),
    };
    match (base, reading) {
        (Some(b), Some(r)) => if r.len() == 0 || b.len() == 0 {
            Some(inner)
        } else {
            Some(b + seq!['('] + r + seq![')'])
        },
        _ => None,
    }
}

pub open spec fn opt_prepend(pre: Seq<char>, rest: Option<Seq<char>>) -> Option<Seq<char>> {
    match rest {
        Some(r) => Some(pre + r),
        None => None,
    }
}

/// HTML ruby (`<ruby>base<rt>reading</rt></ruby>`, tags in any ASCII case)
/// rewritten as `base(reading)`, reading `s` from position `p` on. An opening
/// `<ruby...>` tag without a closing `</ruby>` is dropped; a `<ruby` without a
/// `>` and everything after it are kept.
pub open spec fn html_ruby_from(s: Seq<char>, p: int) -> Option<Seq<char>>
    decreases s.len() - p,
{
    let lw = lower_seq(s);
    if p < 0 || p >= s.len() {
        Some(Seq::empty())
    } else {
        match find_from(lw, ruby_open(), p) {
            None => Some(s.skip(p)),
            Some(a) => {
                proof {
                    lemma_find_from(lw, ruby_open(), p);
                    lemma_find_from(s, seq!['>'], a);
                }
                match find_from(s, seq!['>'], a) {
                    None => Some(s.skip(p)),
                    Some(te) => {
                        proof {
                            lemma_find_from(lw, ruby_close(), te + 1);
                        }
                        match find_from(lw, ruby_close(), te + 1) {
                            None => opt_prepend(s.subrange(p, a), html_ruby_from(s, te + 1)),
                            Some(re) => match ruby_content(s.subrange(te + 1, re)) {
                                None => None,
                                Some(c) => opt_prepend(
                                    s.subrange(p, a) + c,
                                    html_ruby_from(s, re + 7),
                                ),
                            },
                        }
                    },
                }
            },
        }
    }
}

pub open spec fn html_ruby(s: Seq<char>) -> Option<Seq<char>> {
    html_ruby_from(s, 0)
}

/// Text in which `<ruby` occurs nowhere, in any ASCII case, comes through
/// the HTML ruby step unchanged.
pub proof fn law_html_ruby_keeps_text_without_ruby(s: Seq<char>)
    requires
        forall|k: int| !#[trigger] starts_at(lower_seq(s), k, ruby_open()),
    ensures
        html_ruby(s) == Some(s),
{
    lemma_find_from(lower_seq(s), ruby_open(), 0);
    assert(s.skip(0) =~= s);
    if s.len() == 0 {
        assert(s =~= Seq::<char>::empty());
    }
}

fn text_between(inner: &Vec<char>, a: usize, b: usize) -> (r: Option<Vec<char>>)
    requires
        a + 4 <= inner.len(),
        b <= inner.len(),
    ensures
        match r {
            Some(x) => between_tags(inner@, a as int, b as int) == Some(x@),
            None => between_tags(inner@, a as int, b as int) is None,
        },
{
    if b < a + 4 {
        None
    } else {
        Some(slice_vec(inner, a + 4, b))
    }
}

fn extract_ruby_content(inner: &Vec<char>) -> (r: Option<Vec<char>>)
    ensures
        match r {
            Some(x) => ruby_content(inner@) == Some(x@),
            None => ruby_content(inner@) is None,
        },
{
    let lw = lower_vec(inner);
    let rb_o = vec!['<', 'r', 'b', '>'];
    let rb_c = vec!['<', '/', 'r', 'b', '>'];
    let rt_o = vec!['<', 'r', 't', '>'];
    let rt_c = vec!['<', '/', 'r', 't', '>'];
    assert(rb_o@ == rb_open() && rb_c@ == rb_close() && rt_o@ == rt_open() && rt_c@ == rt_close());
    let ghost lws = lower_seq(inner@);
    proof {
        lemma_find_from(lws, rb_open(), 0);
        lemma_find_from(lws, rb_close(), 0);
        lemma_find_from(lws, rt_open(), 0);
        lemma_find_from(lws, rt_close(), 0);
    }
    let base = match (find_vec(&lw, &rb_o, 0), find_vec(&lw, &rb_c, 0)) {
        (Some(a), Some(b)) => text_between(inner, a, b),
        _ => match find_vec(&lw, &rt_o, 0) {
            Some(r) => Some(slice_vec(inner, 0, r)),
            None => Some(slice_vec(inner, 0, inner.len())),
        },
    };
    assert(inner@.subrange(0, inner@.len() as int) == inner@);
    let reading = match (find_vec(&lw, &rt_o, 0), find_vec(&lw, &rt_c, 0)) {
        (Some(a), Some(b)) => text_between(inner, a, b),
        _ => Some(Vec::new()),
    };
    match (base, reading) {
        (Some(b), Some(rd)) => {
            if rd.len() == 0 || b.len() == 0 {
                Some(slice_vec(inner, 0, inner.len()))
            } else {
                let mut out = b;
                out.push('(');
                push_all(&mut out, &rd);
                out.push(')');
                Some(out)
            }
        },
        _ => None,
    }
}

fn convert_html_ruby(v: &Vec<char>) -> (r: Option<Vec<char>>)
    ensures
        match r {
            Some(x) => html_ruby(v@) == Some(x@),
            None => html_ruby(v@) is None,
        },
{
    let n = v.len();
    let lw = lower_vec(v);
    let ro = vec!['<', 'r', 'u', 'b', 'y'];
    let rc = vec!['<', '/', 'r', 'u', 'b', 'y', '>'];
    let gt = vec!['>'];
    assert(ro@ == ruby_open() && rc@ == ruby_close() && gt@ == seq!['>']);
    let mut out: Vec<char> = Vec::new();
    let mut p: usize = 0;
    while p < n
        invariant
            n == v.len(),
            p <= n,
            lw@ == lower_seq(v@),
            ro@ == ruby_open(),
            rc@ == ruby_close(),
            gt@ == seq!['>'],
            opt_prepend(out@, html_ruby_from(v@, p as int)) == html_ruby(v@),
        decreases n - p,
    {
        proof {
            lemma_find_from(lw@, ruby_open(), p as int);
        }
        match find_vec(&lw, &ro, p) {
            None => {
                push_range(&mut out, v, p, n);
                assert(v@.subrange(p as int, n as int) == v@.skip(p as int));
                return Some(out);
            },
            Some(a) => {
                proof {
                    lemma_find_from(v@, seq!['>'], a as int);
                }
                match find_vec(v, &gt, a) {
                    None => {
                        push_range(&mut out, v, p, n);
                        assert(v@.subrange(p as int, n as int) == v@.skip(p as int));
                        return Some(out);
                    },
                    Some(te) => {
                        proof {
                            lemma_find_from(lw@, ruby_close(), te + 1);
                        }
                        match find_vec(&lw, &rc, te + 1) {
                            None => {
                                let ghost before = out@;
                                push_range(&mut out, v, p, a);
                                assert(out@ == before + v@.subrange(p as int, a as int));
                                p = te + 1;
                            },
                            Some(re) => {
                                let inner = slice_vec(v, te + 1, re);
                                match extract_ruby_content(&inner) {
                                    None => {
                                        return None;
                                    },
                                    Some(c) => {
                                        let ghost before = out@;
                                        push_range(&mut out, v, p, a);
                                        push_all(&mut out, &c);
                                        assert(out@ == before + (v@.subrange(p as int, a as int)
                                            + c@));
                                        p = re + 7;
                                    },
                                }
                            },
                        }
                    },
                }
            },
        }
    }
    assert(html_ruby_from(v@, p as int) == Some(Seq::<char>::empty()));
    assert(out@ + Seq::<char>::empty() == out@);
    Some(out)
}

/// First index at or after `k` that does not hold whitespace.
pub open spec fn skip_ws(t: Seq<char>, k: int) -> int
    decreases t.len() - k,
{
    if 0 <= k < t.len() && is_ws(t[k]) {
        skip_ws(t, k + 1)
    } else {
        k
    }
}

/// First index at or after `k` that holds whitespace or a `/` (or the end).
pub open spec fn word_end(t: Seq<char>, k: int) -> int
    decreases t.len() - k,
{
    if 0 <= k < t.len() && !is_ws(t[k]) && t[k] != '/' {
        word_end(t, k + 1)
    } else {
        k
    }
}

proof fn lemma_skips(t: Seq<char>, k: int)
    requires
        0 <= k <= t.len(),
    ensures
        k <= skip_ws(t, k) <= t.len(),
        k <= word_end(t, k) <= t.len(),
    decreases t.len() - k,
{
    if k < t.len() {
        lemma_skips(t, k + 1);
    }
}

/// The name of a tag given the text between `<` and `>`: leading whitespace
/// skipped, up to the next whitespace or `/`. A closing tag, which starts
/// with `/`, has an empty name.
pub open spec fn tag_name(t: Seq<char>) -> Seq<char> {
    let b = skip_ws(t, 0);
    t.subrange(b, word_end(t, b))
}

/// Tags that stand for a line break: opening `br`, `div` and `p` tags, in
/// any ASCII case (`<br/>` and `<br class="x">` too; `</div>` not).
pub open spec fn is_break_tag(t: Seq<char>) -> bool {
    let n = lower_seq(tag_name(t));
    n == seq!['b', 'r'] || n == seq!['d', 'i', 'v'] || n == seq!['p']
}

/// Index of the `>` that closes a tag whose text starts at `i`, or the end.
pub open spec fn tag_end(s: Seq<char>, i: int) -> int {
    match find_from(s, seq!['>'], i) {
        Some(j) => j,
        None => s.len() as int,
    }
}

/// Tags removed, opening `br`/`div`/`p` tags replaced by a newline, reading `s` from
/// position `i` on.
pub open spec fn strip_tags_from(s: Seq<char>, i: int) -> Seq<char>
    decreases s.len() - i,
{
    if i < 0 || i >= s.len() {
        Seq::empty()
    } else if s[i] == '<' {
        let j = tag_end(s, i + 1);
        proof {
            lemma_find_from(s, seq!['>'], i + 1);
        }
        let nl: Seq<char> = if is_break_tag(s.subrange(i + 1, j)) {
            seq!['\n']
        } else {
            Seq::empty()
        };
        nl + strip_tags_from(
            s,
            if j < s.len() {
                j + 1
            } else {
                s.len() as int
            },
        )
    } else {
        seq![s[i]] + strip_tags_from(s, i + 1)
    }
}

pub open spec fn strip_tags(s: Seq<char>) -> Seq<char> {
    strip_tags_from(s, 0)
}

fn is_break_tag_exec(t: &Vec<char>) -> (b: bool)
    ensures
        b == is_break_tag(t@),
{
    let mut k: usize = 0;
    while k < t.len() && is_whitespace(t[k])
        invariant
            k <= t.len(),
            skip_ws(t@, 0) == skip_ws(t@, k as int),
        decreases t.len() - k,
    {
        k += 1;
    }
    let b = k;
    while k < t.len() && !is_whitespace(t[k]) && t[k] != '/'
        invariant
            b <= k <= t.len(),
            word_end(t@, b as int) == word_end(t@, k as int),
        decreases t.len() - k,
    {
        k += 1;
    }
    let name = slice_vec(t, b, k);
    let n = lower_vec(&name);
    let br = vec!['b', 'r'];
    let div = vec!['d', 'i', 'v'];
    let p = vec!['p'];
    let r = same_chars(&n, &br) || same_chars(&n, &div) || same_chars(&n, &p);
    proof {
        assert(br@ == seq!['b', 'r']);
        assert(div@ == seq!['d', 'i', 'v']);
        assert(p@ == seq!['p']);
    }
    r
}

/// Whether two character vectors hold the same characters.
pub fn same_chars(a: &Vec<char>, b: &Vec<char>) -> (r: bool)
    ensures
        r == (a@ == b@),
{
    if a.len() != b.len() {
        return false;
    }
    let mut i: usize = 0;
    while i < a.len()
        invariant
            a.len() == b.len(),
            i <= a.len(),
            forall|k: int| 0 <= k < i ==> a@[k] == b@[k],
        decreases a.len() - i,
    {
        if a[i] != b[i] {
            return false;
        }
        i += 1;
    }
    assert(a@ =~= b@);
    true
}

fn strip_tags_to_newlines(v: &Vec<char>) -> (r: Vec<char>)
    ensures
        r@ == strip_tags(v@),
{
    let n = v.len();
    let gt = vec!['>'];
    assert(gt@ == seq!['>']);
    let mut out: Vec<char> = Vec::new();
    let mut i: usize = 0;
    while i < n
        invariant
            n == v.len(),
            i <= n,
            gt@ == seq!['>'],
            out@ + strip_tags_from(v@, i as int) == strip_tags(v@),
        decreases n - i,
    {
        if v[i] == '<' {
            proof {
                lemma_find_from(v@, seq!['>'], i + 1);
            }
            let j = match find_vec(v, &gt, i + 1) {
                Some(j) => j,
                None => n,
            };
            let tag = slice_vec(v, i + 1, j);
            if is_break_tag_exec(&tag) {
                out.push('\n');
            } else {
                assert(out@ + Seq::<char>::empty() == out@);
            }
            i = if j < n {
                j + 1
            } else {
                n
            };
        } else {
            out.push(v[i]);
            i += 1;
        }
    }
    assert(out@ + Seq::<char>::empty() == out@);
    out
}

/// The HTML entities `&amp;`, `&lt;`, `&gt;`, `&quot;`, `&#39;`, `&apos;` and
/// `&nbsp;` decoded, each replacement applied to the whole text in this order.
pub open spec fn decode_entities(s: Seq<char>) -> Seq<char> {
    let s1 = replace_all(s, seq!['&', 'a', 'm', 'p', ';'], seq!['&']);
    let s2 = replace_all(s1, seq!['&', 'l', 't', ';'], seq!['<']);
    let s3 = replace_all(s2, seq!['&', 'g', 't', ';'], seq!['>']);
    let s4 = replace_all(s3, seq!['&', 'q', 'u', 'o', 't', ';'], seq!['"']);
    let s5 = replace_all(s4, seq!['&', '#', '3', '9', ';'], seq!['\'']);
    let s6 = replace_all(s5, seq!['&', 'a', 'p', 'o', 's', ';'], seq!['\'']);
    replace_all(s6, seq!['&', 'n', 'b', 's', 'p', ';'], seq![' '])
}

fn decode_html_entities(v: &Vec<char>) -> (r: Vec<char>)
    ensures
        r@ == decode_entities(v@),
{
    let p1 = vec!['&', 'a', 'm', 'p', ';'];
    let r1 = vec!['&'];
    let p2 = vec!['&', 'l', 't', ';'];
    let r2 = vec!['<'];
    let p3 = vec!['&', 'g', 't', ';'];
    let r3 = vec!['>'];
    let p4 = vec!['&', 'q', 'u', 'o', 't', ';'];
    let r4 = vec!['"'];
    let p5 = vec!['&', '#', '3', '9', ';'];
    let r5 = vec!['\''];
    let p6 = vec!['&', 'a', 'p', 'o', 's', ';'];
    let p7 = vec!['&', 'n', 'b', 's', 'p', ';'];
    let r7 = vec![' '];
    assert(p1@ == seq!['&', 'a', 'm', 'p', ';'] && r1@ == seq!['&']);
    assert(p2@ == seq!['&', 'l', 't', ';'] && r2@ == seq!['<']);
    assert(p3@ == seq!['&', 'g', 't', ';'] && r3@ == seq!['>']);
    assert(p4@ == seq!['&', 'q', 'u', 'o', 't', ';'] && r4@ == seq!['"']);
    assert(p5@ == seq!['&', '#', '3', '9', ';'] && r5@ == seq!['\'']);
    assert(p6@ == seq!['&', 'a', 'p', 'o', 's', ';']);
    assert(p7@ == seq!['&', 'n', 'b', 's', 'p', ';'] && r7@ == seq![' ']);
    let s1 = replace_vec(v, &p1, &r1);
    let s2 = replace_vec(&s1, &p2, &r2);
    let s3 = replace_vec(&s2, &p3, &r3);
    let s4 = replace_vec(&s3, &p4, &r4);
    let s5 = replace_vec(&s4, &p5, &r5);
    let s6 = replace_vec(&s5, &p6, &r5);
    replace_vec(&s6, &p7, &r7)
}

/// Runs of three or more newlines shortened to two: a newline is dropped
/// when the text kept so far already ends in two newlines.
pub open spec fn squeeze_newlines(s: Seq<char>) -> Seq<char>
    decreases s.len(),
{
    if s.len() == 0 {
        s
    } else {
        let r = squeeze_newlines(s.drop_last());
        if s.last() == '\n' && r.len() >= 2 && r[r.len() - 1] == '\n' && r[r.len() - 2] == '\n' {
            r
        } else {
            r.push(s.last())
        }
    }
}

fn collapse_newlines(v: &Vec<char>) -> (r: Vec<char>)
    ensures
        r@ == squeeze_newlines(v@),
{
    let mut out: Vec<char> = Vec::new();
    let mut i: usize = 0;
    while i < v.len()
        invariant
            i <= v.len(),
            out@ == squeeze_newlines(v@.take(i as int)),
        decreases v.len() - i,
    {
        let c = v[i];
        let l = out.len();
        assert(v@.take(i + 1).drop_last() == v@.take(i as int));
        if c == '\n' && l >= 2 && out[l - 1] == '\n' && out[l - 2] == '\n' {
        } else {
            out.push(c);
        }
        i += 1;
    }
    assert(v@.take(v.len() as int) == v@);
    out
}

/// The cleaned text of a raw Anki field, or `None` for the inputs on which
/// the ruby conversion fails (a `</rb>` or `</rt>` before its opening tag
/// inside a `<ruby>` element).
pub open spec fn cleaned_field(raw: Seq<char>) -> Option<Seq<char>> {
    match html_ruby(without_sound(raw)) {
        Some(s) => Some(trim(squeeze_newlines(decode_entities(strip_tags(s))))),
        None => None,
    }
}

fn clean_vec(v: &Vec<char>) -> (r: Option<Vec<char>>)
    ensures
        match r {
            Some(x) => cleaned_field(v@) == Some(x@),
            None => cleaned_field(v@) is None,
        },
{
    let s1 = remove_sound_markers(v);
    match convert_html_ruby(&s1) {
        None => None,
        Some(s2) => {
            let s3 = strip_tags_to_newlines(&s2);
            let s4 = decode_html_entities(&s3);
            let s5 = collapse_newlines(&s4);
            Some(trim_vec(&s5))
        },
    }
}

/// Cleans a raw field, or returns `None` where `clean_field` does not apply.
pub fn try_clean_field(raw: &str) -> (r: Option<String>)
    ensures
        match r {
            Some(x) => cleaned_field(raw@) == Some(x@),
            None => cleaned_field(raw@) is None,
        },
{
    let v = chars_of(raw);
    match clean_vec(&v) {
        Some(x) => Some(string_of(&x)),
        None => None,
    }
}

/// Turns raw Anki field HTML into plain text: sound markers removed, HTML ruby
/// turned into `base(reading)`, tags stripped (line-break tags become
/// newlines), entities decoded, runs of blank lines shortened, and the result
/// trimmed.
pub fn clean_field(raw: &str) -> (r: String)
    requires
        cleaned_field(raw@) is Some,
    ensures
        cleaned_field(raw@) == Some(r@),
{
    match try_clean_field(raw) {
        Some(x) => x,
        None => String::new(),
    }
}


/// No three newlines in a row.
pub open spec fn no_triple_newline(s: Seq<char>) -> bool {
    forall|k: int|
        0 <= k < s.len() - 2 ==> !(#[trigger] s[k] == '\n' && s[k + 1] == '\n' && s[k + 2] == '\n')
}

proof fn lemma_squeeze_no_triple(s: Seq<char>)
    ensures
        no_triple_newline(squeeze_newlines(s)),
    decreases s.len(),
{
    if s.len() > 0 {
        lemma_squeeze_no_triple(s.drop_last());
        let r = squeeze_newlines(s.drop_last());
        let c = s.last();
        if !(c == '\n' && r.len() >= 2 && r[r.len() - 1] == '\n' && r[r.len() - 2] == '\n') {
            let t = r.push(c);
            assert forall|k: int| 0 <= k < t.len() - 2 implies !(#[trigger] t[k] == '\n' && t[k + 1]
                == '\n' && t[k + 2] == '\n') by {
                if k < t.len() - 3 {
                    assert(t[k] == r[k] && t[k + 1] == r[k + 1] && t[k + 2] == r[k + 2]);
                } else {
                    assert(t[k] == r[r.len() - 2] && t[k + 1] == r[r.len() - 1] && t[k + 2] == c);
                }
            }
        }
    }
}

proof fn lemma_trim_start_keeps(s: Seq<char>)
    requires
        no_triple_newline(s),
    ensures
        no_triple_newline(trim_start(s)),
        trim_start(s).len() > 0 ==> !is_ws(trim_start(s)[0]),
    decreases s.len(),
{
    if s.len() > 0 && is_ws(s[0]) {
        let t = s.skip(1);
        assert forall|k: int| 0 <= k < t.len() - 2 implies !(#[trigger] t[k] == '\n' && t[k + 1]
            == '\n' && t[k + 2] == '\n') by {
            assert(t[k] == s[k + 1] && t[k + 1] == s[k + 2] && t[k + 2] == s[k + 3]);
        }
        lemma_trim_start_keeps(t);
    }
}

proof fn lemma_trim_end_keeps(s: Seq<char>)
    requires
        no_triple_newline(s),
    ensures
        no_triple_newline(trim_end(s)),
        trim_end(s).len() > 0 ==> !is_ws(trim_end(s).last()),
        trim_end(s).len() <= s.len(),
        trim_end(s) == s.take(trim_end(s).len() as int),
    decreases s.len(),
{
    if s.len() > 0 && is_ws(s.last()) {
        let t = s.drop_last();
        assert forall|k: int| 0 <= k < t.len() - 2 implies !(#[trigger] t[k] == '\n' && t[k + 1]
            == '\n' && t[k + 2] == '\n') by {
            assert(t[k] == s[k] && t[k + 1] == s[k + 1] && t[k + 2] == s[k + 2]);
        }
        lemma_trim_end_keeps(t);
        assert(t.take(trim_end(t).len() as int) =~= s.take(trim_end(t).len() as int));
    } else {
        assert(s.take(s.len() as int) =~= s);
    }
}

/// A cleaned field never holds three newlines in a row, and has no
/// whitespace at either end: trimming it again changes nothing.
pub proof fn law_cleaned_field_shape(raw: Seq<char>)
    requires
        cleaned_field(raw) is Some,
    ensures
        no_triple_newline(cleaned_field(raw).unwrap()),
        trim(cleaned_field(raw).unwrap()) == cleaned_field(raw).unwrap(),
{
    let h = html_ruby(without_sound(raw)).unwrap();
    let q = squeeze_newlines(decode_entities(strip_tags(h)));
    lemma_squeeze_no_triple(decode_entities(strip_tags(h)));
    lemma_trim_start_keeps(q);
    let u = trim_start(q);
    lemma_trim_end_keeps(u);
    let c = trim_end(u);
    assert(c == cleaned_field(raw).unwrap());
    if c.len() > 0 {
        assert(c[0] == u.take(c.len() as int)[0]);
        assert(c[0] == u[0]);
        assert(!is_ws(c[0]));
        assert(trim_start(c) == c);
        assert(!is_ws(c.last()));
    } else {
        assert(trim_start(c) == c);
    }
}

} // verus!
