//! What is shown of a quote: which quote, which translations under it,
//! whether furigana are drawn, and its lines.

use vstd::prelude::*;
use crate::boxed::{opt_view, BoxContent, BoxLayout, ContentView};
use crate::config::{AnimationType, FuriganaPosition, RuntimeConfig, TranslationMode};
use crate::random::{random_index, random_seed};
use crate::ruby::{
    bases_text, format_ruby, has_ruby_markup, has_ruby_segment, parse_ruby, rows_of,
    ruby_segments, strip_ruby,
};
use crate::style::{font_sized, simulate_font_size};
use crate::text::{chars_of, slice_vec, string_of, string_views, trim_end};
use rand::rngs::StdRng;

verus! {

/// A quote of a quote file.
#[derive(Debug)]
pub struct Quote {
    pub japanese: String,
    pub translation: Option<String>,
    pub romaji: Option<String>,
    pub source: Option<String>,
}

/// The texts of a quote.
pub struct QuoteText {
    pub japanese: Seq<char>,
    pub translation: Option<Seq<char>>,
    pub romaji: Option<Seq<char>>,
    pub source: Option<Seq<char>>,
}

pub open spec fn opt_text(s: Option<String>) -> Option<Seq<char>> {
    match s {
        Some(t) => Some(t@),
        None => None,
    }
}

impl View for Quote {
    type V = QuoteText;

    open spec fn view(&self) -> QuoteText {
        QuoteText {
            japanese: self.japanese@,
            translation: opt_text(self.translation),
            romaji: opt_text(self.romaji),
            source: opt_text(self.source),
        }
    }
}

pub open spec fn quote_views(pool: Seq<Quote>) -> Seq<QuoteText> {
    pool.map_values(|q: Quote| q@)
}

fn copy_text(s: &String) -> (r: String)
    ensures
        r@ == s@,
{
    let c = chars_of(s.as_str());
    string_of(&c)
}

fn copy_opt(s: &Option<String>) -> (r: Option<String>)
    ensures
        opt_text(r) == opt_text(*s),
{
    match s {
        Some(t) => Some(copy_text(t)),
        None => None,
    }
}

/// A copy of a quote, with the same texts.
pub fn copy_quote(q: &Quote) -> (r: Quote)
    ensures
        r@ == q@,
{
    Quote {
        japanese: copy_text(&q.japanese),
        translation: copy_opt(&q.translation),
        romaji: copy_opt(&q.romaji),
        source: copy_opt(&q.source),
    }
}

/// The quote shown when no quote file gave any.
pub open spec fn placeholder() -> QuoteText {
    QuoteText {
        japanese: seq!['(', 'n', 'o', ' ', 'q', 'u', 'o', 't', 'e', ' ', 'f', 'o', 'u', 'n', 'd', ')'],
        translation: None,
        romaji: None,
        source: None,
    }
}

/// The quotes to choose from: those given, or the placeholder
/// "(no quote found)" when none was.
pub fn quote_pool(pool: Vec<Quote>) -> (r: Vec<Quote>)
    ensures
        pool.len() > 0 ==> quote_views(r@) == quote_views(pool@),
        pool.len() == 0 ==> quote_views(r@) == seq![placeholder()],
{
    let mut pool = pool;
    if pool.len() == 0 {
        let mut j: Vec<char> = Vec::new();
        j.push('(');
        j.push('n');
        j.push('o');
        j.push(' ');
        j.push('q');
        j.push('u');
        j.push('o');
        j.push('t');
        j.push('e');
        j.push(' ');
        j.push('f');
        j.push('o');
        j.push('u');
        j.push('n');
        j.push('d');
        j.push(')');
        assert(j@ =~= placeholder().japanese);
        let q = Quote { japanese: string_of(&j), translation: None, romaji: None, source: None };
        pool.push(q);
        assert(quote_views(pool@) =~= seq![placeholder()]);
    }
    pool
}

/// The quote to show: the one at `index` when an index was given, else the
/// one at a position drawn from `0..pool.len()` with `rng` (as
/// `IndexedRandom::choose` draws it).
pub fn pick_quote(pool: &[Quote], index: Option<usize>, rng: &mut StdRng) -> (r: Quote)
    requires
        pool.len() > 0,
        index matches Some(i) ==> i < pool.len(),
    ensures
        index matches Some(i) ==> r@ == pool@[i as int]@,
        index is None ==> exists|i: int| 0 <= i < pool.len() && r@ == #[trigger] pool@[i]@,
{
    match index {
        Some(i) => copy_quote(&pool[i]),
        None => {
            let i = random_index(rng, pool.len());
            copy_quote(&pool[i])
        },
    }
}

/// The seed of the quote choice: the configured one, or a random one when
/// it is 0.
pub fn resolve_seed(seed: u64) -> (r: u64)
    ensures
        seed != 0 ==> r == seed,
{
    if seed == 0 {
        random_seed()
    } else {
        seed
    }
}

/// The lines under the Japanese text, in the order of the modes: the
/// English translation and the romaji where the quote has them.
pub open spec fn translations_of(q: QuoteText, modes: Seq<TranslationMode>) -> Seq<Seq<char>>
    decreases modes.len(),
{
    if modes.len() == 0 {
        seq![]
    } else {
        let front = translations_of(q, modes.drop_last());
        match modes.last() {
            TranslationMode::English => match q.translation {
                Some(t) => front.push(t),
                None => front,
            },
            TranslationMode::Romaji => match q.romaji {
                Some(t) => front.push(t),
                None => front,
            },
            _ => front,
        }
    }
}

/// Furigana are drawn when a mode asks for them and the Japanese text has
/// ruby markup.
pub open spec fn shows_furigana(q: QuoteText, modes: Seq<TranslationMode>) -> bool {
    modes.contains(TranslationMode::Furigana) && has_ruby_segment(ruby_segments(q.japanese))
}

/// The translations to show under the quote, and whether furigana are drawn.
pub fn translations_for(quote: &Quote, modes: &[TranslationMode]) -> (r: (Vec<String>, bool))
    ensures
        string_views(r.0@) == translations_of(quote@, modes@),
        r.1 == shows_furigana(quote@, modes@),
{
    let mut out: Vec<String> = Vec::new();
    let mut furigana = false;
    let ruby = has_ruby_markup(quote.japanese.as_str());
    let mut i: usize = 0;
    assert(modes@.take(0) =~= Seq::<TranslationMode>::empty());
    while i < modes.len()
        invariant
            i <= modes.len(),
            ruby == has_ruby_segment(ruby_segments(quote@.japanese)),
            string_views(out@) == translations_of(quote@, modes@.take(i as int)),
            furigana == (modes@.take(i as int).contains(TranslationMode::Furigana) && ruby),
        decreases modes.len() - i,
    {
        let ghost before = out@;
        proof {
            assert(modes@.take(i + 1).drop_last() =~= modes@.take(i as int));
            assert(modes@.take(i + 1).last() == modes@[i as int]);
        }
        match modes[i] {
            TranslationMode::NoTranslation => {},
            TranslationMode::English => {
                match &quote.translation {
                    Some(t) => {
                        out.push(copy_text(t));
                        assert(string_views(out@) =~= string_views(before).push(t@));
                    },
                    None => {},
                }
            },
            TranslationMode::Romaji => {
                match &quote.romaji {
                    Some(t) => {
                        out.push(copy_text(t));
                        assert(string_views(out@) =~= string_views(before).push(t@));
                    },
                    None => {},
                }
            },
            TranslationMode::Furigana => {
                furigana = ruby;
            },
        }
        proof {
            let t = modes@.take(i + 1);
            assert(t.contains(TranslationMode::Furigana) <==> (modes@.take(i as int).contains(
                TranslationMode::Furigana,
            ) || modes@[i as int] == TranslationMode::Furigana)) by {
                if t.contains(TranslationMode::Furigana) {
                    let j = choose|j: int| 0 <= j < t.len() && t[j] == TranslationMode::Furigana;
                    if j < i {
                        assert(modes@.take(i as int)[j] == TranslationMode::Furigana);
                    }
                }
                if modes@.take(i as int).contains(TranslationMode::Furigana) {
                    let j = choose|j: int|
                        0 <= j < i && modes@.take(i as int)[j] == TranslationMode::Furigana;
                    assert(t[j] == TranslationMode::Furigana);
                }
                if modes@[i as int] == TranslationMode::Furigana {
                    assert(t[i as int] == TranslationMode::Furigana);
                }
            }
        }
        i += 1;
    }
    assert(modes@.take(modes.len() as int) =~= modes@);
    (out, furigana)
}

/// The first newline at or after `i`, or the end of the text.
pub open spec fn next_newline(s: Seq<char>, i: int) -> int
    decreases s.len() - i,
{
    if i < 0 || i >= s.len() {
        s.len() as int
    } else if s[i] == '\n' {
        i
    } else {
        next_newline(s, i + 1)
    }
}

pub proof fn lemma_next_newline(s: Seq<char>, i: int)
    requires
        0 <= i <= s.len(),
    ensures
        i <= next_newline(s, i) <= s.len(),
        next_newline(s, i) < s.len() ==> s[next_newline(s, i)] == '\n',
    decreases s.len() - i,
{
    if i < s.len() && s[i] != '\n' {
        lemma_next_newline(s, i + 1);
    }
}

/// A line without the carriage return that ended it.
pub open spec fn strip_cr(l: Seq<char>) -> Seq<char> {
    if l.len() > 0 && l.last() == '\r' {
        l.drop_last()
    } else {
        l
    }
}

/// The lines of a text from position `i`, as std's `str::lines` splits
/// them: at each newline, a carriage return before it dropped; the last
/// line needs no newline, and a final newline opens no new line.
pub open spec fn lines_from(s: Seq<char>, i: int) -> Seq<Seq<char>>
    decreases s.len() - i,
{
    if i < 0 || i >= s.len() {
        seq![]
    } else {
        let j = next_newline(s, i);
        proof {
            lemma_next_newline(s, i);
        }
        if j >= s.len() {
            seq![s.subrange(i, s.len() as int)]
        } else {
            seq![strip_cr(s.subrange(i, j))] + lines_from(s, j + 1)
        }
    }
}

pub open spec fn text_lines(s: Seq<char>) -> Seq<Seq<char>> {
    lines_from(s, 0)
}

/// The lines of a text (std's `str::lines`).
pub fn lines_of(s: &str) -> (r: Vec<String>)
    ensures
        string_views(r@) == text_lines(s@),
{
    let v = chars_of(s);
    let mut out: Vec<String> = Vec::new();
    let mut i: usize = 0;
    while i < v.len()
        invariant
            i <= v.len(),
            v@ == s@,
            string_views(out@) + lines_from(v@, i as int) == text_lines(v@),
        decreases v.len() - i,
    {
        let mut j = i;
        while j < v.len() && v[j] != '\n'
            invariant
                i <= j <= v.len(),
                next_newline(v@, i as int) == next_newline(v@, j as int),
            decreases v.len() - j,
        {
            j += 1;
        }
        proof {
            lemma_next_newline(v@, i as int);
        }
        let ghost before = out@;
        if j >= v.len() {
            let piece = slice_vec(&v, i, v.len());
            out.push(string_of(&piece));
            assert(string_views(out@) =~= string_views(before).push(piece@));
            assert(lines_from(v@, v.len() as int) =~= Seq::<Seq<char>>::empty());
            assert(string_views(out@) + lines_from(v@, v.len() as int) =~= string_views(before)
                + lines_from(v@, i as int));
            i = v.len();
        } else {
            let mut end = j;
            if end > i && v[end - 1] == '\r' {
                end = end - 1;
            }
            let piece = slice_vec(&v, i, end);
            assert(piece@ =~= strip_cr(v@.subrange(i as int, j as int)));
            out.push(string_of(&piece));
            assert(string_views(out@) =~= string_views(before).push(piece@));
            assert(string_views(out@) + lines_from(v@, j + 1) =~= string_views(before) + lines_from(
                v@,
                i as int,
            ));
            i = j + 1;
        }
    }
    assert(lines_from(v@, i as int) =~= Seq::<Seq<char>>::empty());
    assert(string_views(out@) =~= string_views(out@) + lines_from(v@, i as int));
    out
}

/// The Japanese lines and the reading lines of a quote: with furigana, the
/// base line and the reading line that ruby layout gives, split into lines;
/// without, the text with its readings dropped, spread for the font size,
/// split into lines, and no readings.
pub open spec fn quote_rows(j: Seq<char>, furigana: bool, font_size: Seq<char>) -> (
    Seq<Seq<char>>,
    Seq<Seq<char>>,
) {
    if furigana {
        let rows = rows_of(ruby_segments(j));
        (text_lines(trim_end(rows.0)), text_lines(trim_end(rows.1)))
    } else {
        (text_lines(font_sized(bases_text(ruby_segments(j)), font_size)), seq![])
    }
}

/// The lines drawn for a quote's Japanese text, and its reading lines.
pub fn quote_lines(quote: &Quote, show_furigana: bool, font_size: &str) -> (r: (
    Vec<String>,
    Vec<String>,
))
    ensures
        (string_views(r.0@), string_views(r.1@)) == quote_rows(
            quote@.japanese,
            show_furigana,
            font_size@,
        ),
{
    if show_furigana {
        let segments = parse_ruby(quote.japanese.as_str());
        let (kanji, reading) = format_ruby(segments.as_slice());
        (lines_of(kanji.as_str()), lines_of(reading.as_str()))
    } else {
        let plain = strip_ruby(quote.japanese.as_str());
        let sized = simulate_font_size(plain.as_str(), font_size);
        let none: Vec<String> = Vec::new();
        assert(string_views(none@) =~= Seq::<Seq<char>>::empty());
        (lines_of(sized.as_str()), none)
    }
}

/// The source is shown when the settings ask for it and the quote has one.
pub fn shows_source(source_setting: bool, quote: &Quote) -> (b: bool)
    ensures
        b == (source_setting && quote@.source is Some),
{
    source_setting && quote.source.is_some()
}

/// Blank lines above the box that center it vertically in a terminal
/// `term_height` rows high; one when the box does not fit.
pub fn top_blank(term_height: usize, content_lines: usize) -> (r: usize)
    ensures
        term_height > content_lines ==> r == (term_height - content_lines) / 2,
        term_height <= content_lines ==> r == 1,
{
    if term_height > content_lines {
        (term_height - content_lines) / 2
    } else {
        1
    }
}

/// The paddings in the recentering mode: the configured ones with a
/// border, none without.
pub fn dynamic_paddings(border: bool, vertical_padding: usize, horizontal_padding: usize) -> (r: (
    usize,
    usize,
))
    ensures
        r == (if border {
            (vertical_padding, horizontal_padding)
        } else {
            (0usize, 0usize)
        }),
{
    if border {
        (vertical_padding, horizontal_padding)
    } else {
        (0, 0)
    }
}


/// What the box shows of a quote under the settings: its Japanese lines
/// and readings, the translations the modes ask for, the source when the
/// settings ask for it and the quote has one, and the readings above or
/// below as set.
pub open spec fn quote_content(runtime: RuntimeConfig, q: QuoteText) -> ContentView {
    let furi = shows_furigana(q, runtime.show_translation@);
    let rows = quote_rows(q.japanese, furi, runtime.font_size@);
    ContentView {
        text: rows.0,
        trans: translations_of(q, runtime.show_translation@),
        source: q.source,
        show_source: runtime.source && q.source is Some,
        furi: rows.1,
        above: runtime.furigana_position == FuriganaPosition::Above,
    }
}

/// The box a quote is drawn in: its content, and the layout the settings
/// give (paddings, width, border, corners, centering).
pub fn quote_box(runtime: &RuntimeConfig, quote: &Quote) -> (r: (BoxContent, BoxLayout))
    ensures
        r.0@ == quote_content(*runtime, quote@),
        r.1 == (BoxLayout {
            horizontal_padding: runtime.horizontal_padding,
            vertical_padding: runtime.vertical_padding,
            width: runtime.width,
            border: runtime.border,
            rounded_border: runtime.rounded_border,
            centered: runtime.centered,
        }),
{
    let (translations, show_furigana) = translations_for(quote, runtime.show_translation.as_slice());
    let (text_lines, furigana_lines) = quote_lines(quote, show_furigana, runtime.font_size.as_str());
    let show_source = shows_source(runtime.source, quote);
    let source = copy_opt(&quote.source);
    let furigana_above = match runtime.furigana_position {
        FuriganaPosition::Above => true,
        FuriganaPosition::Below => false,
    };
    let content = BoxContent {
        text_lines,
        translations,
        source,
        show_source,
        furigana_lines,
        furigana_above,
    };
    assert(opt_view(content.source) == quote@.source);
    let layout = BoxLayout {
        horizontal_padding: runtime.horizontal_padding,
        vertical_padding: runtime.vertical_padding,
        width: runtime.width,
        border: runtime.border,
        rounded_border: runtime.rounded_border,
        centered: runtime.centered,
    };
    (content, layout)
}

/// The quote is animated when an animation is set and the output is a
/// terminal.
pub fn is_animated(animation: AnimationType, is_terminal: bool) -> (b: bool)
    ensures
        b == (animation != AnimationType::NoAnimation && is_terminal),
{
    animation != AnimationType::NoAnimation && is_terminal
}

} // verus!
