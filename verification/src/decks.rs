//! Deck names: choosing the decks to import and naming their quote files.

use vstd::prelude::*;
use crate::anki::{
    answer_of, convert_notes, converted_notes, note_convertible, skipped_notes, AnkiNote, FieldMapping,
};
use crate::toml_out::{quote_views, quotes_file, quotes_toml};
use crate::cli::AnkiArgs;
use crate::text::{
    chars_of, find_from, find_vec, lemma_find_from, slice_vec, string_of, string_views, trim,
    trim_vec,
};

verus! {

/// How one character of a deck name appears in a file name: ASCII letters
/// lowercased, ASCII digits kept, everything else a dash.
pub open spec fn deck_char(c: char) -> char {
    if ('a' <= c && c <= 'z') || ('0' <= c && c <= '9') {
        c
    } else if 'A' <= c && c <= 'Z' {
        ((c as u32) + 32) as char
    } else {
        '-'
    }
}

/// Runs of dashes collapsed to one, leading and trailing dashes dropped: a
/// dash is written before a non-dash character that follows a dash, unless
/// nothing has been written yet.
pub open spec fn collapse_dashes(s: Seq<char>) -> Seq<char>
    decreases s.len(),
{
    if s.len() == 0 {
        Seq::empty()
    } else {
        let r = collapse_dashes(s.drop_last());
        let c = s.last();
        if c == '-' {
            r
        } else if r.len() > 0 && s[s.len() - 2] == '-' {
            r + seq!['-', c]
        } else {
            r.push(c)
        }
    }
}

/// A deck name turned into a file-name stem.
pub open spec fn sanitized(name: Seq<char>) -> Seq<char> {
    collapse_dashes(name.map_values(|c: char| deck_char(c)))
}

/// Characters that may appear in a sanitized name.
pub open spec fn stem_char(c: char) -> bool {
    ('a' <= c && c <= 'z') || ('0' <= c && c <= '9') || c == '-'
}

proof fn lemma_collapse_shape(s: Seq<char>)
    requires
        forall|k: int| 0 <= k < s.len() ==> stem_char(#[trigger] s[k]),
    ensures
        forall|k: int| 0 <= k < collapse_dashes(s).len() ==> stem_char(#[trigger] collapse_dashes(s)[k]),
        collapse_dashes(s).len() > 0 ==> collapse_dashes(s)[0] != '-',
        collapse_dashes(s).len() > 0 ==> collapse_dashes(s).last() != '-',
        forall|k: int|
            0 <= k < collapse_dashes(s).len() - 1 ==> !(#[trigger] collapse_dashes(s)[k] == '-'
                && collapse_dashes(s)[k + 1] == '-'),
        collapse_dashes(s).len() > 0 && s.len() > 0 && s.last() != '-' ==> collapse_dashes(s).last()
            == s.last(),
    decreases s.len(),
{
    if s.len() > 0 {
        lemma_collapse_shape(s.drop_last());
        let r = collapse_dashes(s.drop_last());
        let c = s.last();
        assert(stem_char(c));
        if c == '-' {
        } else if r.len() > 0 && s[s.len() - 2] == '-' {
            let t = r + seq!['-', c];
            assert(t[r.len() as int] == '-');
            assert forall|k: int| 0 <= k < t.len() - 1 implies !(#[trigger] t[k] == '-' && t[k + 1] == '-') by {
                if k < r.len() - 1 {
                    assert(t[k] == r[k] && t[k + 1] == r[k + 1]);
                } else if k == r.len() - 1 {
                    assert(t[k] == r.last());
                }
            }
            assert forall|k: int| 0 <= k < t.len() implies stem_char(#[trigger] t[k]) by {
                if k < r.len() {
                    assert(t[k] == r[k]);
                }
            }
        } else {
            let t = r.push(c);
            assert forall|k: int| 0 <= k < t.len() - 1 implies !(#[trigger] t[k] == '-' && t[k + 1] == '-') by {
                if k < r.len() - 1 {
                    assert(t[k] == r[k] && t[k + 1] == r[k + 1]);
                }
            }
            assert forall|k: int| 0 <= k < t.len() implies stem_char(#[trigger] t[k]) by {
                if k < r.len() {
                    assert(t[k] == r[k]);
                }
            }
        }
    }
}

/// A text already in file-name-stem shape: stem characters, no leading
/// dash, no two dashes in a row.
pub open spec fn stem_shaped(t: Seq<char>) -> bool {
    &&& forall|k: int| 0 <= k < t.len() ==> stem_char(#[trigger] t[k])
    &&& t.len() > 0 ==> t[0] != '-'
    &&& forall|k: int| 0 <= k < t.len() - 1 ==> !(#[trigger] t[k] == '-' && t[k + 1] == '-')
}

proof fn lemma_collapse_shaped(t: Seq<char>)
    requires
        stem_shaped(t),
    ensures
        collapse_dashes(t) == (if t.len() > 0 && t.last() == '-' {
            t.drop_last()
        } else {
            t
        }),
    decreases t.len(),
{
    if t.len() > 0 {
        let f = t.drop_last();
        assert(stem_shaped(f)) by {
            assert forall|k: int| 0 <= k < f.len() - 1 implies !(#[trigger] f[k] == '-' && f[k + 1]
                == '-') by {
                assert(f[k] == t[k] && f[k + 1] == t[k + 1]);
            }
            assert forall|k: int| 0 <= k < f.len() implies stem_char(#[trigger] f[k]) by {
                assert(f[k] == t[k]);
            }
            if f.len() > 0 {
                assert(f[0] == t[0]);
            }
        }
        lemma_collapse_shaped(f);
        if t.len() >= 2 {
            assert(t[t.len() - 2] == f.last());
            assert(!(t[t.len() - 2] == '-' && t[t.len() - 1] == '-'));
        }
        if t.last() != '-' && f.len() > 0 && f.last() == '-' {
            assert(f.len() >= 2) by {
                if f.len() == 1 {
                    assert(f[0] == t[0]);
                }
            }
            assert(f.drop_last() + seq!['-', t.last()] =~= t);
        } else if t.last() != '-' {
            assert(f.push(t.last()) =~= t);
        }
    }
}

/// Sanitizing a deck name twice gives what sanitizing it once gave: the
/// stem of a quote file names that file again.
pub proof fn law_sanitize_idempotent(name: Seq<char>)
    ensures
        sanitized(sanitized(name)) == sanitized(name),
{
    let m = name.map_values(|c: char| deck_char(c));
    assert forall|k: int| 0 <= k < m.len() implies stem_char(#[trigger] m[k]) by {
        assert(m[k] == deck_char(name[k]));
    }
    lemma_collapse_shape(m);
    let s = sanitized(name);
    let m2 = s.map_values(|c: char| deck_char(c));
    assert(m2 =~= s) by {
        assert forall|k: int| 0 <= k < s.len() implies m2[k] == s[k] by {
            assert(stem_char(s[k]));
        }
    }
    lemma_collapse_shaped(s);
}

/// An ASCII letter or digit.
pub open spec fn ascii_alnum(c: char) -> bool {
    ('a' <= c && c <= 'z') || ('A' <= c && c <= 'Z') || ('0' <= c && c <= '9')
}

proof fn lemma_collapse_empty(s: Seq<char>)
    ensures
        collapse_dashes(s).len() == 0 <==> forall|k: int| 0 <= k < s.len() ==> s[k] == '-',
    decreases s.len(),
{
    if s.len() > 0 {
        lemma_collapse_empty(s.drop_last());
        if s.last() == '-' {
            assert((forall|k: int| 0 <= k < s.len() ==> s[k] == '-') <==> (forall|k: int|
                0 <= k < s.drop_last().len() ==> s.drop_last()[k] == '-')) by {
                if forall|k: int| 0 <= k < s.drop_last().len() ==> s.drop_last()[k] == '-' {
                    assert forall|k: int| 0 <= k < s.len() implies s[k] == '-' by {
                        if k < s.len() - 1 {
                            assert(s[k] == s.drop_last()[k]);
                        }
                    }
                }
            }
        } else {
            assert(s[s.len() - 1] != '-');
        }
    }
}

/// A deck name sanitizes to the empty text exactly when it holds no ASCII
/// letter or digit.
pub proof fn law_sanitized_empty(name: Seq<char>)
    ensures
        sanitized(name).len() == 0 <==> forall|k: int| 0 <= k < name.len() ==> !ascii_alnum(
            #[trigger] name[k],
        ),
{
    let m = name.map_values(|c: char| deck_char(c));
    lemma_collapse_empty(m);
    assert forall|k: int| 0 <= k < name.len() implies (m[k] == '-' <==> !ascii_alnum(
        #[trigger] name[k],
    )) by {
        let c = name[k];
        assert(m[k] == deck_char(c));
        if 'A' <= c && c <= 'Z' {
            assert(((c as u32) + 32) as char != '-');
        }
    }
}

fn deck_char_exec(c: char) -> (r: char)
    ensures
        r == deck_char(c),
{
    if ('a' <= c && c <= 'z') || ('0' <= c && c <= '9') {
        c
    } else if 'A' <= c && c <= 'Z' {
        ((c as u8) + 32) as char
    } else {
        '-'
    }
}

/// Turns a deck name into a file-name stem: ASCII letters lowercased, digits
/// kept, every other character a dash, runs of dashes collapsed to one and
/// dashes at either end dropped.
pub fn sanitize_deck_name(name: &str) -> (r: String)
    ensures
        r@ == sanitized(name@),
        forall|k: int| 0 <= k < r@.len() ==> stem_char(#[trigger] r@[k]),
        r@.len() > 0 ==> r@[0] != '-' && r@.last() != '-',
        forall|k: int| 0 <= k < r@.len() - 1 ==> !(#[trigger] r@[k] == '-' && r@[k + 1] == '-'),
{
    let v = chars_of(name);
    let ghost m = v@.map_values(|c: char| deck_char(c));
    let mut out: Vec<char> = Vec::new();
    let mut prev_dash = false;
    let mut i: usize = 0;
    while i < v.len()
        invariant
            i <= v.len(),
            m == v@.map_values(|c: char| deck_char(c)),
            out@ == collapse_dashes(m.take(i as int)),
            prev_dash == (i > 0 && m[i - 1] == '-'),
        decreases v.len() - i,
    {
        let c = deck_char_exec(v[i]);
        assert(m.take(i + 1).drop_last() == m.take(i as int));
        assert(m.take(i + 1).last() == c);
        if c == '-' {
            prev_dash = true;
        } else {
            if prev_dash && out.len() > 0 {
                out.push('-');
            }
            out.push(c);
            prev_dash = false;
        }
        i += 1;
    }
    assert(m.take(v.len() as int) == m);
    proof {
        assert forall|k: int| 0 <= k < m.len() implies stem_char(#[trigger] m[k]) by {
            assert(m[k] == deck_char(v@[k]));
        }
        lemma_collapse_shape(m);
    }
    string_of(&out)
}

/// The name of the quote file for a deck.
pub fn quote_file_name(deck: &str) -> (r: String)
    ensures
        r@ == sanitized(deck@) + ".toml"@,
{
    let mut r = sanitize_deck_name(deck);
    r.append(".toml");
    r
}

/// The AnkiConnect query that finds the notes of a deck.
pub fn deck_query(deck: &str) -> (r: String)
    ensures
        r@ == "deck:\""@ + deck@ + "\""@,
{
    let mut r = String::from_str("deck:\"");
    r.append(deck);
    r.append("\"");
    r
}

/// Whether an answer to "Overwrite? (y/n)" confirms: it starts with `y` or `Y`.
pub fn confirms_overwrite(answer: &str) -> (b: bool)
    ensures
        b == (answer@.len() > 0 && (answer@[0] == 'y' || answer@[0] == 'Y')),
{
    let v = chars_of(answer);
    v.len() > 0 && (v[0] == 'y' || v[0] == 'Y')
}

} // verus!

verus! {

/// Lexicographic order of texts by character code (for UTF-8 strings the
/// same order as by their bytes).
pub open spec fn text_lt(a: Seq<char>, b: Seq<char>) -> bool
    decreases a.len(),
{
    if a.len() == 0 {
        b.len() > 0
    } else if b.len() == 0 {
        false
    } else if a[0] != b[0] {
        a[0] < b[0]
    } else {
        text_lt(a.skip(1), b.skip(1))
    }
}

proof fn lemma_text_lt_asym(a: Seq<char>, b: Seq<char>)
    ensures
        text_lt(a, b) ==> !text_lt(b, a),
        !text_lt(a, a),
    decreases a.len(),
{
    if a.len() > 0 && b.len() > 0 && a[0] == b[0] {
        lemma_text_lt_asym(a.skip(1), b.skip(1));
    }
    if a.len() > 0 {
        lemma_text_lt_asym(a.skip(1), a.skip(1));
    }
}

proof fn lemma_text_lt_total(a: Seq<char>, b: Seq<char>)
    ensures
        a != b ==> text_lt(a, b) || text_lt(b, a),
    decreases a.len(),
{
    if a.len() > 0 && b.len() > 0 && a[0] == b[0] {
        lemma_text_lt_total(a.skip(1), b.skip(1));
        if a.skip(1) == b.skip(1) {
            assert(a =~= seq![a[0]] + a.skip(1));
            assert(b =~= seq![b[0]] + b.skip(1));
        }
    } else if a.len() == 0 && b.len() == 0 {
        assert(a =~= b);
    }
}

proof fn lemma_text_lt_trans(a: Seq<char>, b: Seq<char>, c: Seq<char>)
    requires
        text_lt(a, b),
        text_lt(b, c),
    ensures
        text_lt(a, c),
    decreases a.len(),
{
    if a.len() > 0 && b.len() > 0 && c.len() > 0 && a[0] == b[0] && b[0] == c[0] {
        lemma_text_lt_trans(a.skip(1), b.skip(1), c.skip(1));
    }
}

fn text_less(a: &Vec<char>, b: &Vec<char>) -> (r: bool)
    ensures
        r == text_lt(a@, b@),
{
    let mut i: usize = 0;
    assert(a@.skip(0) == a@ && b@.skip(0) == b@);
    while i < a.len() && i < b.len() && a[i] == b[i]
        invariant
            i <= a.len(),
            i <= b.len(),
            text_lt(a@, b@) == text_lt(a@.skip(i as int), b@.skip(i as int)),
        decreases a.len() - i,
    {
        assert(a@.skip(i as int).skip(1) == a@.skip(i + 1));
        assert(b@.skip(i as int).skip(1) == b@.skip(i + 1));
        i += 1;
    }
    if i == a.len() {
        i < b.len()
    } else if i == b.len() {
        false
    } else {
        a[i] < b[i]
    }
}

/// `dst` holds the texts of `src`, in non-decreasing order.
pub open spec fn sorted_permutation(src: Seq<String>, dst: Seq<String>) -> bool {
    &&& dst.to_multiset() == src.to_multiset()
    &&& forall|k: int, l: int| 0 <= k < l < dst.len() ==> !text_lt(#[trigger] dst[l]@, #[trigger] dst[k]@)
}

/// The deck names in lexicographic order.
pub fn sort_decks(decks: &[String]) -> (r: Vec<String>)
    ensures
        sorted_permutation(decks@, r@),
{
    broadcast use vstd::seq_lib::group_to_multiset_ensures;
    let mut sorted: Vec<String> = Vec::new();
    let mut keys: Vec<Vec<char>> = Vec::new();
    let mut i: usize = 0;
    while i < decks.len()
        invariant
            i <= decks.len(),
            keys.len() == sorted.len(),
            forall|k: int| 0 <= k < keys.len() ==> (#[trigger] keys@[k])@ == sorted@[k]@,
            sorted@.to_multiset() == decks@.take(i as int).to_multiset(),
            forall|k: int, l: int|
                0 <= k < l < sorted.len() ==> !text_lt(#[trigger] sorted@[l]@, #[trigger] sorted@[k]@),
        decreases decks.len() - i,
    {
        let x = decks[i].clone();
        let xk = chars_of(x.as_str());
        let mut pos: usize = 0;
        while pos < sorted.len() && !text_less(&xk, &keys[pos])
            invariant
                pos <= sorted.len(),
                xk@ == x@,
                keys.len() == sorted.len(),
                forall|k: int| 0 <= k < keys.len() ==> (#[trigger] keys@[k])@ == sorted@[k]@,
                forall|k: int| 0 <= k < pos ==> !text_lt(x@, #[trigger] sorted@[k]@),
            decreases sorted.len() - pos,
        {
            pos += 1;
        }
        proof {
            assert forall|k: int| 0 <= k < pos implies !text_lt(x@, #[trigger] sorted@[k]@) by {}
            assert forall|k: int| pos <= k < sorted.len() implies !text_lt(#[trigger] sorted@[k]@, x@) by {
                assert(text_lt(x@, sorted@[pos as int]@));
                if k > pos {
                    lemma_text_lt_total(sorted@[pos as int]@, sorted@[k]@);
                    if sorted@[pos as int]@ != sorted@[k]@ {
                        if text_lt(sorted@[k]@, sorted@[pos as int]@) {
                        } else {
                            lemma_text_lt_trans(x@, sorted@[pos as int]@, sorted@[k]@);
                        }
                    }
                    lemma_text_lt_asym(x@, sorted@[k]@);
                } else {
                    lemma_text_lt_asym(x@, sorted@[k]@);
                }
            }
            assert forall|k: int| 0 <= k < pos implies !text_lt(x@, #[trigger] sorted@[k]@) by {}
        }
        let ghost old_sorted = sorted@;
        sorted.insert(pos, x);
        keys.insert(pos, xk);
        proof {
            assert(decks@.take(i + 1) == decks@.take(i as int).push(decks@[i as int]));
            vstd::seq_lib::to_multiset_insert(old_sorted, pos as int, decks@[i as int]);
            vstd::seq_lib::to_multiset_build(decks@.take(i as int), decks@[i as int]);
            assert forall|k: int, l: int|
                0 <= k < l < sorted.len() implies !text_lt(#[trigger] sorted@[l]@, #[trigger] sorted@[k]@) by {
                if k < pos && l > pos {
                    assert(sorted@[k] == old_sorted[k]);
                    assert(sorted@[l] == old_sorted[l - 1]);
                } else if k < pos && l < pos {
                    assert(sorted@[k] == old_sorted[k] && sorted@[l] == old_sorted[l]);
                } else if k > pos && l > pos {
                    assert(sorted@[k] == old_sorted[k - 1] && sorted@[l] == old_sorted[l - 1]);
                } else if k == pos {
                    assert(sorted@[l] == old_sorted[l - 1]);
                } else {
                    assert(sorted@[k] == old_sorted[k]);
                }
            }
        }
        i += 1;
    }
    assert(decks@.take(decks.len() as int) == decks@);
    sorted
}

} // verus!

verus! {

/// The pieces of `s` between commas, from position `p` on (std's
/// `str::split(',')`: empty pieces included).
pub open spec fn split_commas_from(s: Seq<char>, p: int) -> Seq<Seq<char>>
    decreases s.len() - p,
{
    if p < 0 || p > s.len() {
        Seq::empty()
    } else {
        proof {
            lemma_find_from(s, seq![','], p);
        }
        match find_from(s, seq![','], p) {
            None => seq![s.skip(p)],
            Some(c) => seq![s.subrange(p, c)] + split_commas_from(s, c + 1),
        }
    }
}

pub open spec fn split_commas(s: Seq<char>) -> Seq<Seq<char>> {
    split_commas_from(s, 0)
}

pub open spec fn is_digit(c: char) -> bool {
    '0' <= c && c <= '9'
}

/// The decimal value of a run of digits.
pub open spec fn digits_value(d: Seq<char>) -> int
    decreases d.len(),
{
    if d.len() == 0 {
        0
    } else {
        digits_value(d.drop_last()) * 10 + (d.last() as int - '0' as int)
    }
}

/// An index as std's `usize::from_str` reads it: an optional `+`, then one or
/// more ASCII digits, whose value fits in a `usize`.
/// The digits part of an index: the text after an optional leading `+`.
pub open spec fn index_digits(s: Seq<char>) -> Seq<char> {
    if s.len() > 0 && s[0] == '+' {
        s.skip(1)
    } else {
        s
    }
}

pub open spec fn parsed_index(s: Seq<char>) -> Option<int> {
    let d = index_digits(s);
    if d.len() == 0 || exists|k: int| 0 <= k < d.len() && !is_digit(#[trigger] d[k]) {
        None
    } else if digits_value(d) > usize::MAX {
        None
    } else {
        Some(digits_value(d))
    }
}

proof fn lemma_digits_value_mono(d: Seq<char>, i: int)
    requires
        0 <= i <= d.len(),
        forall|k: int| 0 <= k < d.len() ==> is_digit(#[trigger] d[k]),
    ensures
        0 <= digits_value(d.take(i)) <= digits_value(d),
    decreases d.len() - i,
{
    if i < d.len() {
        lemma_digits_value_mono(d, i + 1);
        assert(d.take(i + 1).drop_last() == d.take(i));
    } else {
        assert(d.take(i) == d);
    }
    if i > 0 {
        lemma_digits_nonneg(d.take(i));
    }
}

proof fn lemma_digits_nonneg(d: Seq<char>)
    requires
        forall|k: int| 0 <= k < d.len() ==> is_digit(#[trigger] d[k]),
    ensures
        digits_value(d) >= 0,
    decreases d.len(),
{
    if d.len() > 0 {
        lemma_digits_nonneg(d.drop_last());
    }
}

/// Reads an index as std's `usize::from_str` does.
pub fn parse_index(s: &Vec<char>) -> (r: Option<usize>)
    ensures
        match r {
            Some(n) => parsed_index(s@) == Some(n as int),
            None => parsed_index(s@) is None,
        },
{
    let start: usize = if s.len() > 0 && s[0] == '+' {
        1
    } else {
        0
    };
    let ghost d = s@.skip(start as int);
    proof {
        if start == 0 {
            assert(s@.skip(0) == s@);
        }
        assert(d == index_digits(s@));
        assert(d.len() == s.len() - start);
    }
    if start == s.len() {
        return None;
    }
    let mut k = start;
    while k < s.len()
        invariant
            start <= k <= s.len(),
            d == s@.skip(start as int),
            d == index_digits(s@),
            forall|j: int| 0 <= j < k - start ==> is_digit(#[trigger] d[j]),
        decreases s.len() - k,
    {
        assert(d[k - start] == s@[k as int]);
        if !('0' <= s[k] && s[k] <= '9') {
            assert(!is_digit(d[k - start]));
            return None;
        }
        k += 1;
    }
    let mut value: usize = 0;
    let mut i = start;
    assert(d.take(0) == Seq::<char>::empty());
    while i < s.len()
        invariant
            start <= i <= s.len(),
            d == s@.skip(start as int),
            d == index_digits(s@),
            forall|j: int| 0 <= j < d.len() ==> is_digit(#[trigger] d[j]),
            value as int == digits_value(d.take(i - start)),
        decreases s.len() - i,
    {
        assert(d[i - start] == s@[i as int]);
        assert(is_digit(d[i - start]));
        let digit = (s[i] as u32 - '0' as u32) as usize;
        assert(d.take(i + 1 - start).drop_last() == d.take(i - start));
        assert(d.take(i + 1 - start).last() == s@[i as int]);
        match value.checked_mul(10) {
            None => {
                proof {
                    lemma_digits_value_mono(d, i + 1 - start);
                    lemma_digits_nonneg(d.take(i - start));
                }
                return None;
            },
            Some(v10) => match v10.checked_add(digit) {
                None => {
                    proof {
                        lemma_digits_value_mono(d, i + 1 - start);
                    }
                    return None;
                },
                Some(v) => {
                    value = v;
                },
            },
        }
        i += 1;
    }
    assert(d.take(s.len() - start) == d);
    Some(value)
}

/// Why the decks to import could not be chosen.
pub enum DeckError {
    /// A deck named on the command line does not exist.
    NotFound(String),
    /// A piece of the answer is not an index.
    InvalidIndex(String),
    /// An index is past the end of the list of `count` decks.
    OutOfRange(usize, usize),
}

pub enum DeckIssue {
    NotFound(Seq<char>),
    InvalidIndex(Seq<char>),
    OutOfRange(int, int),
}

impl View for DeckError {
    type V = DeckIssue;

    open spec fn view(&self) -> DeckIssue {
        match self {
            DeckError::NotFound(d) => DeckIssue::NotFound(d@),
            DeckError::InvalidIndex(p) => DeckIssue::InvalidIndex(p@),
            DeckError::OutOfRange(i, n) => DeckIssue::OutOfRange(*i as int, *n as int),
        }
    }
}

/// The decks that the comma-separated indices from piece `k` on select.
pub open spec fn selected_from(parts: Seq<Seq<char>>, sorted: Seq<Seq<char>>, k: int) -> Result<
    Seq<Seq<char>>,
    DeckIssue,
>
    decreases parts.len() - k,
{
    if k < 0 || k >= parts.len() {
        Ok(Seq::empty())
    } else {
        let t = trim(parts[k]);
        match parsed_index(t) {
            None => Err(DeckIssue::InvalidIndex(t)),
            Some(idx) => if idx >= sorted.len() {
                Err(DeckIssue::OutOfRange(idx, sorted.len() as int))
            } else {
                match selected_from(parts, sorted, k + 1) {
                    Err(e) => Err(e),
                    Ok(rest) => Ok(seq![sorted[idx]] + rest),
                }
            },
        }
    }
}

/// The decks an answer selects from the sorted list: all of them for `all`,
/// else those at the comma-separated indices, the first bad index failing.
pub open spec fn selection(answer: Seq<char>, sorted: Seq<Seq<char>>) -> Result<
    Seq<Seq<char>>,
    DeckIssue,
> {
    if trim(answer) == "all"@ {
        Ok(sorted)
    } else {
        selected_from(split_commas(answer), sorted, 0)
    }
}

/// The first deck, from position `k` of `wanted` on, that is not in `decks`.
pub open spec fn first_missing(decks: Seq<Seq<char>>, wanted: Seq<Seq<char>>, k: int) -> Option<
    Seq<char>,
>
    decreases wanted.len() - k,
{
    if k < 0 || k >= wanted.len() {
        None
    } else if !decks.contains(wanted[k]) {
        Some(wanted[k])
    } else {
        first_missing(decks, wanted, k + 1)
    }
}

/// The decks named on the command line, if all of them exist; else the first
/// one that does not.
pub open spec fn requested(decks: Seq<Seq<char>>, wanted: Seq<Seq<char>>) -> Result<
    Seq<Seq<char>>,
    DeckIssue,
> {
    match first_missing(decks, wanted, 0) {
        Some(d) => Err(DeckIssue::NotFound(d)),
        None => Ok(wanted),
    }
}

pub open spec fn decks_view(r: Result<Vec<String>, DeckError>) -> Result<Seq<Seq<char>>, DeckIssue> {
    match r {
        Ok(v) => Ok(string_views(v@)),
        Err(e) => Err(e@),
    }
}

fn has_deck(decks: &[String], d: &String) -> (b: bool)
    ensures
        b == string_views(decks@).contains(d@),
{
    let ghost dv = string_views(decks@);
    let mut i: usize = 0;
    while i < decks.len()
        invariant
            i <= decks.len(),
            dv == string_views(decks@),
            forall|k: int| 0 <= k < i ==> dv[k] != d@,
        decreases decks.len() - i,
    {
        if decks[i] == *d {
            assert(dv[i as int] == d@);
            return true;
        }
        i += 1;
    }
    proof {
        if dv.contains(d@) {
            let k = choose|k: int| 0 <= k < dv.len() && dv[k] == d@;
            assert(dv[k] != d@);
        }
    }
    false
}

fn copy_strings(v: &[String]) -> (r: Vec<String>)
    ensures
        string_views(r@) == string_views(v@),
{
    let mut r: Vec<String> = Vec::new();
    let mut i: usize = 0;
    while i < v.len()
        invariant
            i <= v.len(),
            string_views(r@) == string_views(v@.take(i as int)),
        decreases v.len() - i,
    {
        let ghost before = r@;
        r.push(v[i].clone());
        assert(v@.take(i + 1) == v@.take(i as int).push(v@[i as int]));
        assert(string_views(r@) =~= string_views(before).push(v@[i as int]@));
        i += 1;
    }
    assert(v@.take(v.len() as int) == v@);
    r
}

/// The decks named on the command line, or the first of them that does not
/// exist.
pub fn requested_decks(decks: &[String], wanted: &Vec<String>) -> (r: Result<Vec<String>, DeckError>)
    ensures
        decks_view(r) == requested(string_views(decks@), string_views(wanted@)),
{
    let ghost dv = string_views(decks@);
    let ghost wv = string_views(wanted@);
    let mut i: usize = 0;
    while i < wanted.len()
        invariant
            i <= wanted.len(),
            dv == string_views(decks@),
            wv == string_views(wanted@),
            first_missing(dv, wv, 0) == first_missing(dv, wv, i as int),
        decreases wanted.len() - i,
    {
        assert(wv[i as int] == wanted@[i as int]@);
        if !has_deck(decks, &wanted[i]) {
            return Err(DeckError::NotFound(wanted[i].clone()));
        }
        i += 1;
    }
    Ok(copy_strings(wanted.as_slice()))
}

fn split_commas_exec(v: &Vec<char>) -> (r: Vec<Vec<char>>)
    ensures
        r@.map_values(|p: Vec<char>| p@) == split_commas(v@),
{
    let comma = vec![','];
    assert(comma@ == seq![',']);
    let mut parts: Vec<Vec<char>> = Vec::new();
    let mut p: usize = 0;
    loop
        invariant
            p <= v.len(),
            comma@ == seq![','],
            parts@.map_values(|q: Vec<char>| q@) + split_commas_from(v@, p as int) == split_commas(v@),
        decreases v.len() - p,
    {
        proof {
            lemma_find_from(v@, seq![','], p as int);
        }
        let ghost before = parts@.map_values(|q: Vec<char>| q@);
        match find_vec(v, &comma, p) {
            None => {
                let piece = slice_vec(v, p, v.len());
                parts.push(piece);
                assert(parts@.map_values(|q: Vec<char>| q@) =~= before.push(v@.skip(p as int)));
                assert(before + seq![v@.skip(p as int)] =~= before.push(v@.skip(p as int)));
                return parts;
            },
            Some(c) => {
                let piece = slice_vec(v, p, c);
                parts.push(piece);
                assert(parts@.map_values(|q: Vec<char>| q@) =~= before.push(v@.subrange(p as int, c as int)));
                assert(before + (seq![v@.subrange(p as int, c as int)] + split_commas_from(v@, c + 1))
                    =~= before.push(v@.subrange(p as int, c as int)) + split_commas_from(v@, c + 1));
                p = c + 1;
            },
        }
    }
}

/// The decks that an answer to the deck prompt selects from the sorted list.
pub fn choose_decks(answer: &str, sorted: &[String]) -> (r: Result<Vec<String>, DeckError>)
    ensures
        decks_view(r) == selection(answer@, string_views(sorted@)),
{
    let v = chars_of(answer);
    let t = trim_vec(&v);
    let all = vec!['a', 'l', 'l'];
    proof {
        reveal_strlit("all");
        assert(all@ == "all"@);
    }
    if crate::clean::same_chars(&t, &all) {
        return Ok(copy_strings(sorted));
    }
    let parts = split_commas_exec(&v);
    let ghost pv = parts@.map_values(|q: Vec<char>| q@);
    let ghost sv = string_views(sorted@);
    let mut out: Vec<String> = Vec::new();
    let mut k: usize = 0;
    while k < parts.len()
        invariant
            k <= parts.len(),
            pv == parts@.map_values(|q: Vec<char>| q@),
            pv == split_commas(answer@),
            sv == string_views(sorted@),
            trim(answer@) != "all"@,
            match selected_from(pv, sv, 0) {
                Ok(all_sel) => match selected_from(pv, sv, k as int) {
                    Ok(rest) => all_sel == string_views(out@) + rest,
                    Err(e) => false,
                },
                Err(e) => match selected_from(pv, sv, k as int) {
                    Ok(rest) => false,
                    Err(e2) => e == e2,
                },
            },
        decreases parts.len() - k,
    {
        assert(pv[k as int] == parts@[k as int]@);
        let piece = trim_vec(&parts[k]);
        match parse_index(&piece) {
            None => {
                return Err(DeckError::InvalidIndex(string_of(&piece)));
            },
            Some(idx) => {
                if idx >= sorted.len() {
                    return Err(DeckError::OutOfRange(idx, sorted.len()));
                }
                assert(sv[idx as int] == sorted@[idx as int]@);
                let ghost before = string_views(out@);
                out.push(sorted[idx].clone());
                assert(string_views(out@) =~= before.push(sv[idx as int]));
                proof {
                    match selected_from(pv, sv, k + 1) {
                        Ok(rest) => {
                            assert(before + (seq![sv[idx as int]] + rest) =~= before.push(sv[idx as int]) + rest);
                        },
                        Err(e) => {},
                    }
                }
            },
        }
        k += 1;
    }
    assert(string_views(out@) + Seq::<Seq<char>>::empty() == string_views(out@));
    Ok(out)
}

/// How many notes of a deck are fetched as samples for the field mapping:
/// up to ten.
pub fn sample_size(note_count: usize) -> (r: usize)
    ensures
        r == (if note_count < 10 {
            note_count
        } else {
            10
        }),
{
    if note_count < 10 {
        note_count
    } else {
        10
    }
}

/// Whether to ask before writing over a quote file: only when the file
/// exists and `--yes` was not given.
pub fn asks_to_overwrite(exists: bool, yes: bool) -> (r: bool)
    ensures
        r == (exists && !yes),
{
    exists && !yes
}

/// The quote file an import writes for a deck: its name (the sanitized deck
/// name with `.toml`), its text (every note that yields a quote, in note
/// order), and how many notes were skipped for an empty Japanese field.
pub fn deck_quote_file(deck: &str, notes: &[AnkiNote], mapping: &FieldMapping) -> (r: (
    String,
    String,
    usize,
))
    requires
        forall|k: int| 0 <= k < notes.len() ==> note_convertible(#[trigger] notes@[k], mapping@),
    ensures
        r.0@ == sanitized(deck@) + ".toml"@,
        r.1@ == quotes_file(converted_notes(notes@, mapping@)),
        r.2 as nat == skipped_notes(notes@, mapping@),
{
    let (quotes, skipped) = convert_notes(notes, mapping);
    assert(quote_views(quotes@) == converted_notes(notes@, mapping@));
    let text = quotes_toml(quotes.as_slice());
    (quote_file_name(deck), text, skipped)
}

/// The mode to suggest once an import is done: the sanitized name of the
/// deck when exactly one was imported, none otherwise.
pub fn suggested_mode(selected: &[String]) -> (r: Option<String>)
    ensures
        selected.len() == 1 ==> (r matches Some(m) && m@ == sanitized(selected@[0]@)),
        selected.len() != 1 ==> r is None,
{
    if selected.len() == 1 {
        Some(sanitize_deck_name(selected[0].as_str()))
    } else {
        None
    }
}

/// The answer the deck choice goes by: `0` (the prompt's default) with
/// `--yes`, which skips the prompt; else what the user typed, `0` when empty.
pub open spec fn deck_answer(yes: bool, line: Seq<char>) -> Seq<char> {
    if yes {
        "0"@
    } else {
        answer_of(line, "0"@)
    }
}

/// Chooses the decks to import: those named on the command line, all of
/// which must exist; otherwise those that the answer to the deck prompt
/// selects from the decks in lexicographic order (`line` is what the user
/// typed; an empty answer means `0`). With `args.yes` no prompt is answered:
/// `line` is not read and the first deck in that order is chosen.
pub fn select_decks(decks: &[String], args: &AnkiArgs, line: &str) -> (r: Result<Vec<String>, DeckError>)
    ensures
        args.deck@.len() > 0 ==> decks_view(r) == requested(string_views(decks@), string_views(args.deck@)),
        args.deck@.len() == 0 ==> exists|sorted: Seq<String>|
            #![trigger sorted_permutation(decks@, sorted)]
            sorted_permutation(decks@, sorted) && decks_view(r) == selection(
                deck_answer(args.yes, line@),
                string_views(sorted),
            ),
{
    if args.deck.len() > 0 {
        return requested_decks(decks, &args.deck);
    }
    let sorted = sort_decks(decks);
    let typed = if args.yes {
        ""
    } else {
        line
    };
    let answer = crate::anki::prompt_answer(typed, "0");
    proof {
        reveal_strlit("");
        reveal_strlit("0");
        assert(answer@ == deck_answer(args.yes, line@));
    }
    let r = choose_decks(answer.as_str(), sorted.as_slice());
    assert(sorted_permutation(decks@, sorted@));
    r
}

} // verus!
