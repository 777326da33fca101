//! The quote file an import writes: TOML text with one `[[quote]]` table per
//! quote.

use vstd::prelude::*;
use crate::anki::{ImportedQuote, QuoteView};
use crate::text::{chars_of, push_all, string_of};

verus! {

/// How one character is written inside a TOML basic string: backslash,
/// double quote, newline and tab escaped, carriage return dropped.
pub open spec fn escape_char(c: char) -> Seq<char> {
    if c == '\\' {
        seq!['\\', '\\']
    } else if c == '"' {
        seq!['\\', '"']
    } else if c == '\n' {
        seq!['\\', 'n']
    } else if c == '\r' {
        Seq::empty()
    } else if c == '\t' {
        seq!['\\', 't']
    } else {
        seq![c]
    }
}

/// A text escaped for a TOML basic string.
pub open spec fn toml_escaped(s: Seq<char>) -> Seq<char>
    decreases s.len(),
{
    if s.len() == 0 {
        Seq::empty()
    } else {
        escape_char(s[0]) + toml_escaped(s.skip(1))
    }
}

pub proof fn lemma_escaped_push(s: Seq<char>, c: char)
    ensures
        toml_escaped(s.push(c)) == toml_escaped(s) + escape_char(c),
    decreases s.len(),
{
    if s.len() == 0 {
        assert(s.push(c).skip(1) =~= Seq::<char>::empty());
        assert(toml_escaped(Seq::<char>::empty()) == Seq::<char>::empty());
        assert(escape_char(c) + Seq::<char>::empty() =~= escape_char(c));
    } else {
        lemma_escaped_push(s.skip(1), c);
        assert(s.push(c).skip(1) =~= s.skip(1).push(c));
        assert(s.push(c)[0] == s[0]);
    }
}

fn escape_one(c: char) -> (r: Vec<char>)
    ensures
        r@ == escape_char(c),
{
    if c == '\\' {
        vec!['\\', '\\']
    } else if c == '"' {
        vec!['\\', '"']
    } else if c == '\n' {
        vec!['\\', 'n']
    } else if c == '\r' {
        Vec::new()
    } else if c == '\t' {
        vec!['\\', 't']
    } else {
        vec![c]
    }
}

/// Escapes a text for a TOML basic string.
pub fn toml_escape(s: &str) -> (r: String)
    ensures
        r@ == toml_escaped(s@),
{
    let v = chars_of(s);
    let mut out: Vec<char> = Vec::new();
    let mut i: usize = 0;
    while i < v.len()
        invariant
            i <= v.len(),
            v@ == s@,
            out@ == toml_escaped(v@.take(i as int)),
        decreases v.len() - i,
    {
        let e = escape_one(v[i]);
        push_all(&mut out, &e);
        proof {
            lemma_escaped_push(v@.take(i as int), v@[i as int]);
            assert(v@.take(i + 1) == v@.take(i as int).push(v@[i as int]));
        }
        i += 1;
    }
    assert(v@.take(v.len() as int) == v@);
    string_of(&out)
}

/// How a TOML reader decodes the escapes `\\`, `\"`, `\n` and `\t` of a basic
/// string.
pub open spec fn toml_unescaped(s: Seq<char>) -> Seq<char>
    decreases s.len(),
{
    if s.len() == 0 {
        Seq::empty()
    } else if s[0] == '\\' && s.len() >= 2 {
        let d = if s[1] == 'n' {
            '\n'
        } else if s[1] == 't' {
            '\t'
        } else {
            s[1]
        };
        seq![d] + toml_unescaped(s.skip(2))
    } else {
        seq![s[0]] + toml_unescaped(s.skip(1))
    }
}

/// The text with every carriage return removed.
pub open spec fn without_cr(s: Seq<char>) -> Seq<char>
    decreases s.len(),
{
    if s.len() == 0 {
        Seq::empty()
    } else if s[0] == '\r' {
        without_cr(s.skip(1))
    } else {
        seq![s[0]] + without_cr(s.skip(1))
    }
}

/// Reading back an escaped text gives the original text without its carriage
/// returns: what a quote file stores is what its reader sees.
pub proof fn law_toml_escape_round_trip(s: Seq<char>)
    ensures
        toml_unescaped(toml_escaped(s)) == without_cr(s),
    decreases s.len(),
{
    if s.len() > 0 {
        law_toml_escape_round_trip(s.skip(1));
        let e = escape_char(s[0]);
        let rest = toml_escaped(s.skip(1));
        assert(toml_escaped(s) == e + rest);
        if e.len() == 2 {
            assert((e + rest).skip(2) =~= rest);
            assert((e + rest)[0] == '\\');
            assert((e + rest)[1] == e[1]);
        } else if e.len() == 1 {
            assert((e + rest).skip(1) =~= rest);
            assert((e + rest)[0] == s[0]);
        } else {
            assert(e + rest =~= rest);
        }
    }
}

/// One `[[quote]]` table: the Japanese text, then translation, romaji and
/// source lines for the parts that are present, then a blank line.
pub open spec fn quote_table(q: QuoteView) -> Seq<char> {
    let head = "[[quote]]\n"@ + "japanese = \""@ + toml_escaped(q.japanese) + "\"\n"@;
    let tl = match q.translation {
        Some(t) => "translation = \""@ + toml_escaped(t) + "\"\n"@,
        None => Seq::empty(),
    };
    let ro = match q.romaji {
        Some(r) => "romaji = \""@ + toml_escaped(r) + "\"\n"@,
        None => Seq::empty(),
    };
    let src = match q.source {
        Some(s) => "source = \""@ + toml_escaped(s) + "\"\n"@,
        None => Seq::empty(),
    };
    head + tl + ro + src + "\n"@
}

/// The quote file for a list of quotes.
pub open spec fn quotes_file(qs: Seq<QuoteView>) -> Seq<char>
    decreases qs.len(),
{
    if qs.len() == 0 {
        Seq::empty()
    } else {
        quotes_file(qs.drop_last()) + quote_table(qs.last())
    }
}

fn push_str(out: &mut Vec<char>, s: &str)
    ensures
        final(out)@ == old(out)@ + s@,
{
    let v = chars_of(s);
    push_all(out, &v);
}

fn push_line(out: &mut Vec<char>, key: &str, value: &String)
    ensures
        final(out)@ == old(out)@ + (key@ + "\""@ + toml_escaped(value@) + "\"\n"@),
{
    let ghost before = out@;
    push_str(out, key);
    push_str(out, "\"");
    let e = toml_escape(value.as_str());
    push_str(out, e.as_str());
    push_str(out, "\"\n");
    assert(out@ == before + (key@ + "\""@ + toml_escaped(value@) + "\"\n"@));
}

/// The views of a list of quotes.
pub open spec fn quote_views(qs: Seq<ImportedQuote>) -> Seq<QuoteView> {
    qs.map_values(|q: ImportedQuote| q@)
}

proof fn lemma_key_texts()
    ensures
        "japanese = "@ + "\""@ == "japanese = \""@,
        "translation = "@ + "\""@ == "translation = \""@,
        "romaji = "@ + "\""@ == "romaji = \""@,
        "source = "@ + "\""@ == "source = \""@,
{
    reveal_strlit("japanese = ");
    reveal_strlit("translation = ");
    reveal_strlit("romaji = ");
    reveal_strlit("source = ");
    reveal_strlit("\"");
    reveal_strlit("japanese = \"");
    reveal_strlit("translation = \"");
    reveal_strlit("romaji = \"");
    reveal_strlit("source = \"");
    assert("japanese = "@ + "\""@ =~= "japanese = \""@);
    assert("translation = "@ + "\""@ =~= "translation = \""@);
    assert("romaji = "@ + "\""@ =~= "romaji = \""@);
    assert("source = "@ + "\""@ =~= "source = \""@);
}

fn push_optional_line(out: &mut Vec<char>, key: &str, value: &Option<String>)
    ensures
        final(out)@ == old(out)@ + match value.deep_view() {
            Some(v) => key@ + "\""@ + toml_escaped(v) + "\"\n"@,
            None => Seq::empty(),
        },
{
    match value {
        Some(v) => push_line(out, key, v),
        None => {
            assert(out@ + Seq::<char>::empty() == out@);
        },
    }
}

fn push_quote_table(out: &mut Vec<char>, q: &ImportedQuote)
    ensures
        final(out)@ == old(out)@ + quote_table(q@),
{
    let ghost before = out@;
    push_str(out, "[[quote]]\n");
    push_line(out, "japanese = ", &q.japanese);
    let ghost a = out@;
    push_optional_line(out, "translation = ", &q.translation);
    let ghost b = out@;
    push_optional_line(out, "romaji = ", &q.romaji);
    let ghost c = out@;
    push_optional_line(out, "source = ", &q.source);
    let ghost d = out@;
    push_str(out, "\n");
    proof {
        lemma_key_texts();
        let qv = q@;
        let head = "[[quote]]\n"@ + "japanese = \""@ + toml_escaped(qv.japanese) + "\"\n"@;
        assert(a =~= before + head);
        assert(out@ =~= before + quote_table(qv));
    }
}

/// The text of the quote file that an import writes for `quotes`.
pub fn quotes_toml(quotes: &[ImportedQuote]) -> (r: String)
    ensures
        r@ == quotes_file(quote_views(quotes@)),
{
    let mut out: Vec<char> = Vec::new();
    let mut i: usize = 0;
    while i < quotes.len()
        invariant
            i <= quotes.len(),
            out@ == quotes_file(quote_views(quotes@.take(i as int))),
        decreases quotes.len() - i,
    {
        push_quote_table(&mut out, &quotes[i]);
        proof {
            assert(quote_views(quotes@.take(i + 1)).drop_last() =~= quote_views(quotes@.take(i as int)));
            assert(quote_views(quotes@.take(i + 1)).last() == quotes@[i as int]@);
        }
        i += 1;
    }
    assert(quotes@.take(quotes.len() as int) == quotes@);
    string_of(&out)
}

} // verus!
