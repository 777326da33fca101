//! Anki's `kanji[reading]` furigana notation and the library's inline
//! `kanji(reading)` notation.

use vstd::prelude::*;
use crate::text::{chars_of, push_range, string_of};

verus! {

/// CJK unified ideographs: the main block, extension A and extension B.
pub open spec fn is_kanji(c: char) -> bool {
    let u = c as u32;
    ||| (0x4E00 <= u && u <= 0x9FFF)
    ||| (0x3400 <= u && u <= 0x4DBF)
    ||| (0x20000 <= u && u <= 0x2A6DF)
}

pub fn is_kanji_char(c: char) -> (b: bool)
    ensures
        b == is_kanji(c),
{
    ('\u{4E00}' <= c && c <= '\u{9FFF}') || ('\u{3400}' <= c && c <= '\u{4DBF}') || (
    '\u{20000}' <= c && c <= '\u{2A6DF}')
}

/// Some kanji is directly followed by `open` (`[` for Anki's notation,
/// `(` for the inline one).
pub open spec fn kanji_followed_by(s: Seq<char>, open: char) -> bool {
    exists|i: int| 0 <= i < s.len() - 1 && #[trigger] is_kanji(s[i]) && s[i + 1] == open
}

fn has_kanji_followed_by(v: &Vec<char>, open: char) -> (b: bool)
    ensures
        b == kanji_followed_by(v@, open),
{
    let n = if v.len() > 0 { v.len() - 1 } else { 0 };
    let mut i: usize = 0;
    while i < n
        invariant
            n == (if v.len() > 0 { v.len() - 1 } else { 0 }),
            i <= n,
            forall|k: int| 0 <= k < i ==> !(#[trigger] is_kanji(v@[k]) && v@[k + 1] == open),
        decreases n - i,
    {
        if is_kanji_char(v[i]) && v[i + 1] == open {
            return true;
        }
        i += 1;
    }
    false
}

/// Detects Anki's `kanji[reading]` notation.
pub fn has_anki_ruby(s: &str) -> (b: bool)
    ensures
        b == kanji_followed_by(s@, '['),
{
    let v = chars_of(s);
    has_kanji_followed_by(&v, '[')
}

/// Detects the inline `kanji(reading)` notation.
pub fn has_inline_ruby(s: &str) -> (b: bool)
    ensures
        b == kanji_followed_by(s@, '('),
{
    let v = chars_of(s);
    has_kanji_followed_by(&v, '(')
}

/// Either furigana notation is present.
pub open spec fn has_ruby(s: Seq<char>) -> bool {
    kanji_followed_by(s, '[') || kanji_followed_by(s, '(')
}

pub fn has_ruby_syntax(s: &str) -> (b: bool)
    ensures
        b == has_ruby(s@),
{
    has_anki_ruby(s) || has_inline_ruby(s)
}

/// End of the run of kanji that starts at `i` (the first index at or after
/// `i` that holds no kanji).
pub open spec fn kanji_run_end(s: Seq<char>, i: int) -> int
    decreases s.len() - i,
{
    if 0 <= i < s.len() && is_kanji(s[i]) {
        kanji_run_end(s, i + 1)
    } else {
        i
    }
}

/// End of a reading that starts at `i`: the first `]` or newline, or the end.
pub open spec fn reading_end(s: Seq<char>, i: int) -> int
    decreases s.len() - i,
{
    if 0 <= i < s.len() && s[i] != ']' && s[i] != '\n' {
        reading_end(s, i + 1)
    } else {
        i
    }
}

/// The first character at or after `i` that is not a space.
pub open spec fn next_non_space(s: Seq<char>, i: int) -> Option<char>
    decreases s.len() - i,
{
    if i < 0 || i >= s.len() {
        None
    } else if s[i] != ' ' {
        Some(s[i])
    } else {
        next_non_space(s, i + 1)
    }
}

pub proof fn lemma_kanji_run_end(s: Seq<char>, i: int)
    requires
        0 <= i <= s.len(),
    ensures
        i <= kanji_run_end(s, i) <= s.len(),
        forall|k: int| i <= k < kanji_run_end(s, i) ==> #[trigger] is_kanji(s[k]),
        kanji_run_end(s, i) < s.len() ==> !is_kanji(s[kanji_run_end(s, i)]),
    decreases s.len() - i,
{
    if i < s.len() && is_kanji(s[i]) {
        lemma_kanji_run_end(s, i + 1);
    }
}

pub proof fn lemma_reading_end(s: Seq<char>, i: int)
    requires
        0 <= i <= s.len(),
    ensures
        i <= reading_end(s, i) <= s.len(),
        forall|k: int| i <= k < reading_end(s, i) ==> #[trigger] s[k] != ']' && s[k] != '\n',
        reading_end(s, i) < s.len() ==> (s[reading_end(s, i)] == ']' || s[reading_end(s, i)]
            == '\n'),
    decreases s.len() - i,
{
    if i < s.len() && s[i] != ']' && s[i] != '\n' {
        lemma_reading_end(s, i + 1);
    }
}

/// Where the text after a `kanji[reading]` group resumes, given that the group's
/// reading ends at `r`: after the closing `]`, and after one separator space
/// when the next non-space character is a kanji.
pub open spec fn group_resume(s: Seq<char>, r: int) -> int {
    let after = if r < s.len() && s[r] == ']' {
        r + 1
    } else {
        r
    };
    if after < s.len() && s[after] == ' ' && match next_non_space(s, after + 1) {
        Some(c) => is_kanji(c),
        None => false,
    } {
        after + 1
    } else {
        after
    }
}

/// The inline notation for the text of `s` from position `i` on.
pub open spec fn inline_from(s: Seq<char>, i: int) -> Seq<char>
    decreases s.len() - i,
{
    if i < 0 || i >= s.len() {
        Seq::empty()
    } else if is_kanji(s[i]) {
        let e = kanji_run_end(s, i + 1);
        proof {
            lemma_kanji_run_end(s, i + 1);
        }
        if e < s.len() && s[e] == '[' {
            let r = reading_end(s, e + 1);
            proof {
                lemma_reading_end(s, e + 1);
            }
            s.subrange(i, e) + seq!['('] + s.subrange(e + 1, r) + seq![')'] + inline_from(
                s,
                group_resume(s, r),
            )
        } else {
            s.subrange(i, e) + inline_from(s, e)
        }
    } else {
        seq![s[i]] + inline_from(s, i + 1)
    }
}

/// Anki's `kanji[reading]` groups rewritten as `kanji(reading)`.
pub open spec fn anki_to_inline(s: Seq<char>) -> Seq<char> {
    inline_from(s, 0)
}

fn first_non_space_is_kanji(v: &Vec<char>, i: usize) -> (b: bool)
    ensures
        b == match next_non_space(v@, i as int) {
            Some(c) => is_kanji(c),
            None => false,
        },
{
    let mut j = i;
    while j < v.len()
        invariant
            i <= j,
            next_non_space(v@, i as int) == next_non_space(v@, j as int),
        decreases v.len() - j,
    {
        if v[j] != ' ' {
            return is_kanji_char(v[j]);
        }
        j += 1;
    }
    false
}

fn inline_vec(v: &Vec<char>) -> (r: Vec<char>)
    ensures
        r@ == anki_to_inline(v@),
{
    let n = v.len();
    let mut out: Vec<char> = Vec::new();
    let mut i: usize = 0;
    while i < n
        invariant
            n == v.len(),
            i <= n,
            out@ + inline_from(v@, i as int) == anki_to_inline(v@),
        decreases n - i,
    {
        let c = v[i];
        if is_kanji_char(c) {
            let start = i;
            i += 1;
            proof {
                lemma_kanji_run_end(v@, start + 1);
            }
            while i < n && is_kanji_char(v[i])
                invariant
                    n == v.len(),
                    start < i <= n,
                    kanji_run_end(v@, start + 1) == kanji_run_end(v@, i as int),
                decreases n - i,
            {
                i += 1;
            }
            let e = i;
            if e < n && v[e] == '[' {
                let mut j = e + 1;
                proof {
                    lemma_reading_end(v@, e + 1);
                }
                while j < n && v[j] != ']' && v[j] != '\n'
                    invariant
                        n == v.len(),
                        e + 1 <= j <= n,
                        reading_end(v@, e + 1) == reading_end(v@, j as int),
                    decreases n - j,
                {
                    j += 1;
                }
                let mut after = j;
                if j < n && v[j] == ']' {
                    after = j + 1;
                }
                if after < n && v[after] == ' ' {
                    if first_non_space_is_kanji(v, after + 1) {
                        after += 1;
                    }
                }
                let ghost before = out@;
                push_range(&mut out, v, start, e);
                out.push('(');
                push_range(&mut out, v, e + 1, j);
                out.push(')');
                assert(out@ == before + (v@.subrange(start as int, e as int) + seq!['(']
                    + v@.subrange(e + 1, j as int) + seq![')']));
                assert(after as int == group_resume(v@, j as int));
                i = after;
            } else {
                push_range(&mut out, v, start, e);
            }
        } else {
            out.push(c);
            i += 1;
        }
    }
    out
}

/// Converts Anki's `kanji[reading]` notation to the inline `kanji(reading)`
/// notation, dropping the separator space Anki puts between groups when the
/// next group starts with a kanji.
pub fn anki_furigana_to_inline(s: &str) -> (r: String)
    ensures
        r@ == anki_to_inline(s@),
{
    let v = chars_of(s);
    let out = inline_vec(&v);
    string_of(&out)
}

proof fn lemma_inline_from_plain(s: Seq<char>, i: int)
    requires
        0 <= i <= s.len(),
        !kanji_followed_by(s, '['),
    ensures
        inline_from(s, i) == s.skip(i),
    decreases s.len() - i,
{
    if i == s.len() {
        assert(s.skip(i) =~= Seq::<char>::empty());
    } else if is_kanji(s[i]) {
        let e = kanji_run_end(s, i + 1);
        lemma_kanji_run_end(s, i + 1);
        if e < s.len() && s[e] == '[' {
            assert(is_kanji(s[e - 1]));
            assert(kanji_followed_by(s, '['));
        }
        lemma_inline_from_plain(s, e);
        assert(s.subrange(i, e) + s.skip(e) =~= s.skip(i));
    } else {
        lemma_inline_from_plain(s, i + 1);
        assert(seq![s[i]] + s.skip(i + 1) =~= s.skip(i));
    }
}

/// Text without any `kanji[` comes out of the conversion unchanged.
pub proof fn law_inline_keeps_text_without_anki_notation(s: Seq<char>)
    requires
        !kanji_followed_by(s, '['),
    ensures
        anki_to_inline(s) == s,
{
    lemma_inline_from_plain(s, 0);
    assert(s.skip(0) =~= s);
}

} // verus!
