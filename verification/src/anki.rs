//! The Anki importer: notes and their fields, field mapping, note
//! conversion, deck names and the quote file that an import writes.

use vstd::prelude::*;
use crate::cli::AnkiArgs;
use crate::clean::{clean_field, cleaned_field, try_clean_field};
use crate::furigana::{anki_furigana_to_inline, anki_to_inline, has_ruby, has_ruby_syntax};
use crate::text::{
    chars_of, lower_seq, lower_vec, slice_vec, str_views, string_of, string_views, to_lowercase,
    trim, trim_vec, unicode_lowercase,
};

verus! {

/// A client of AnkiConnect at a given URL.
pub struct AnkiClient {
    pub url: String,
}

impl AnkiClient {
    pub fn new(url: &str) -> (r: Self)
        ensures
            r.url@ == url@,
    {
        AnkiClient { url: url.to_string() }
    }
}

/// One Anki note: its fields as (name, value) pairs in the order they were
/// read, and the field names in the note type's own field order.
pub struct AnkiNote {
    pub fields: Vec<(String, String)>,
    pub field_order: Vec<String>,
}

/// The field entries of a note as (name, value) pairs.
pub open spec fn entry_views(fields: Seq<(String, String)>) -> Seq<(Seq<char>, Seq<char>)> {
    fields.map_values(|e: (String, String)| (e.0@, e.1@))
}

/// The value of field `name`: the last entry with that name, as a map that
/// is filled in entry order keeps it.
pub open spec fn field_value(fields: Seq<(Seq<char>, Seq<char>)>, name: Seq<char>) -> Option<
    Seq<char>,
>
    decreases fields.len(),
{
    if fields.len() == 0 {
        None
    } else if fields.last().0 == name {
        Some(fields.last().1)
    } else {
        field_value(fields.drop_last(), name)
    }
}

impl AnkiNote {
    pub open spec fn value_of(&self, name: Seq<char>) -> Option<Seq<char>> {
        field_value(entry_views(self.fields@), name)
    }

    /// The value of field `name`, if the note has that field.
    pub fn get(&self, name: &String) -> (r: Option<String>)
        ensures
            r.deep_view() == self.value_of(name@),
    {
        let mut i = self.fields.len();
        assert(self.fields@.take(i as int) == self.fields@);
        while i > 0
            invariant
                i <= self.fields.len(),
                field_value(entry_views(self.fields@), name@) == field_value(
                    entry_views(self.fields@.take(i as int)),
                    name@,
                ),
            decreases i,
        {
            let ghost pre = entry_views(self.fields@.take(i as int));
            assert(pre.drop_last() == entry_views(self.fields@.take(i - 1)));
            if self.fields[i - 1].0 == *name {
                return Some(self.fields[i - 1].1.clone());
            }
            i -= 1;
        }
        None
    }
}

/// Keys by which note fields are ordered: the field's order number, then its
/// position among the entries (so that equal order numbers keep entry order).
pub open spec fn order_key_lt(orders: Seq<usize>, a: int, b: int) -> bool {
    orders[a] < orders[b] || (orders[a] == orders[b] && a < b)
}

/// `perm` lists every entry index once, by increasing order number, entries
/// with equal order numbers in entry order (a stable sort by order number).
pub open spec fn stable_order(orders: Seq<usize>, perm: Seq<int>) -> bool {
    &&& perm.len() == orders.len()
    &&& forall|k: int| 0 <= k < perm.len() ==> 0 <= #[trigger] perm[k] < orders.len()
    &&& forall|k: int, l: int|
        0 <= k < l < perm.len() ==> order_key_lt(orders, #[trigger] perm[k], #[trigger] perm[l])
}

fn key_lt(orders: &Vec<usize>, a: usize, b: usize) -> (r: bool)
    requires
        a < orders.len(),
        b < orders.len(),
    ensures
        r == order_key_lt(orders@, a as int, b as int),
{
    orders[a] < orders[b] || (orders[a] == orders[b] && a < b)
}

/// Entry indices sorted stably by order number.
fn stable_order_indices(orders: &Vec<usize>) -> (r: Vec<usize>)
    ensures
        stable_order(orders@, r@.map_values(|k: usize| k as int)),
{
    let n = orders.len();
    let mut sorted: Vec<usize> = Vec::new();
    let mut i: usize = 0;
    while i < n
        invariant
            n == orders.len(),
            i <= n,
            sorted.len() == i,
            forall|k: int| 0 <= k < sorted.len() ==> #[trigger] sorted@[k] < i,
            forall|k: int, l: int|
                0 <= k < l < sorted.len() ==> order_key_lt(
                    orders@,
                    #[trigger] sorted@[k] as int,
                    #[trigger] sorted@[l] as int,
                ),
        decreases n - i,
    {
        // Entries with a greater key than entry i come after it.
        let mut pos: usize = 0;
        while pos < sorted.len() && key_lt(orders, sorted[pos], i)
            invariant
                n == orders.len(),
                i < n,
                pos <= sorted.len(),
                forall|k: int| 0 <= k < sorted.len() ==> #[trigger] sorted@[k] < i,
                forall|k: int|
                    0 <= k < pos ==> order_key_lt(orders@, #[trigger] sorted@[k] as int, i as int),
            decreases sorted.len() - pos,
        {
            pos += 1;
        }
        proof {
            assert forall|k: int| pos <= k < sorted.len() implies order_key_lt(
                orders@,
                i as int,
                #[trigger] sorted@[k] as int,
            ) by {
                if pos < sorted.len() {
                    assert(!order_key_lt(orders@, sorted@[pos as int] as int, i as int));
                    if k > pos {
                        assert(order_key_lt(orders@, sorted@[pos as int] as int, sorted@[k] as int));
                    }
                }
            }
        }
        sorted.insert(pos, i);
        i += 1;
    }
    let ghost perm = sorted@.map_values(|k: usize| k as int);
    assert(forall|k: int| 0 <= k < perm.len() ==> #[trigger] perm[k] == sorted@[k] as int);
    sorted
}

/// The order numbers of field entries.
pub open spec fn orders_of(entries: Seq<(String, String, usize)>) -> Seq<usize> {
    entries.map_values(|e: (String, String, usize)| e.2)
}

/// A note built from its fields as (name, value, order number) triples.
pub open spec fn note_matches_fields(note: AnkiNote, entries: Seq<(String, String, usize)>) -> bool {
    &&& entry_views(note.fields@) == entries.map_values(
        |e: (String, String, usize)| (e.0@, e.1@),
    )
    &&& exists|perm: Seq<int>|
        #![trigger stable_order(orders_of(entries), perm)]
        {
            &&& stable_order(orders_of(entries), perm)
            &&& note.field_order@.len() == perm.len()
            &&& forall|k: int|
                0 <= k < perm.len() ==> (#[trigger] note.field_order@[k])@ == entries[perm[k]].0@
        }
}

/// Builds a note from its fields, given as (name, value, order number) in
/// the order they were read; the field order sorts the names stably by order
/// number.
pub fn note_from_fields(entries: &Vec<(String, String, usize)>) -> (r: AnkiNote)
    ensures
        note_matches_fields(r, entries@),
{
    let n = entries.len();
    let mut fields: Vec<(String, String)> = Vec::new();
    let mut orders: Vec<usize> = Vec::new();
    let mut i: usize = 0;
    while i < n
        invariant
            n == entries.len(),
            i <= n,
            entry_views(fields@) == entries@.take(i as int).map_values(
                |e: (String, String, usize)| (e.0@, e.1@),
            ),
            orders@ == entries@.take(i as int).map_values(|e: (String, String, usize)| e.2),
        decreases n - i,
    {
        let name = entries[i].0.clone();
        let value = entries[i].1.clone();
        let ghost before = fields@;
        fields.push((name, value));
        assert(entry_views(fields@) =~= entry_views(before).push((entries@[i as int].0@, entries@[i as int].1@)));
        orders.push(entries[i].2);
        i += 1;
        assert(entries@.take(i as int) == entries@.take(i - 1).push(entries@[i - 1]));
    }
    assert(entries@.take(n as int) == entries@);
    let perm = stable_order_indices(&orders);
    assert forall|j: int| 0 <= j < n implies #[trigger] perm@[j] < n by {
        let p = perm@.map_values(|k: usize| k as int);
        assert(0 <= p[j] < orders@.len());
    }
    let mut field_order: Vec<String> = Vec::new();
    let mut k: usize = 0;
    while k < n
        invariant
            n == entries.len(),
            perm.len() == n,
            forall|j: int| 0 <= j < n ==> #[trigger] perm@[j] < n,
            k <= n,
            field_order.len() == k,
            forall|j: int|
                0 <= j < k ==> (#[trigger] field_order@[j])@ == entries@[perm@[j] as int].0@,
        decreases n - k,
    {
        let name = entries[perm[k]].0.clone();
        field_order.push(name);
        k += 1;
    }
    let r = AnkiNote { fields, field_order };
    let ghost p = perm@.map_values(|j: usize| j as int);
    assert(orders@ == entries@.map_values(|e: (String, String, usize)| e.2));
    assert(forall|j: int| 0 <= j < n ==> #[trigger] p[j] == perm@[j] as int);
    assert(r.field_order@.len() == p.len());
    assert(stable_order(orders_of(entries@), p));
    r
}

} // verus!

verus! {

/// Field names that suggest the Japanese text.
pub open spec fn jp_hints() -> Seq<Seq<char>> {
    seq!["Expression"@, "Sentence"@, "Japanese"@, "Front"@, "Word"@, "Text"@]
}

/// Field names that suggest the translation.
pub open spec fn tl_hints() -> Seq<Seq<char>> {
    seq!["Meaning"@, "Translation"@, "English"@, "Definition"@, "Back"@]
}

/// Field names that suggest furigana.
pub open spec fn fu_hints() -> Seq<Seq<char>> {
    seq!["Reading"@, "Furigana"@]
}

/// Field names that suggest romaji.
pub open spec fn ro_hints() -> Seq<Seq<char>> {
    seq!["Romaji"@, "Romanization"@, "Romaji Reading"@]
}

/// Field names that suggest the source.
pub open spec fn src_hints() -> Seq<Seq<char>> {
    seq!["Source"@, "Notes"@, "Deck"@]
}

fn jp_hint_list() -> (r: Vec<&'static str>)
    ensures
        str_views(r@) == jp_hints(),
{
    let r = vec!["Expression", "Sentence", "Japanese", "Front", "Word", "Text"];
    assert(str_views(r@) =~= jp_hints());
    r
}

fn tl_hint_list() -> (r: Vec<&'static str>)
    ensures
        str_views(r@) == tl_hints(),
{
    let r = vec!["Meaning", "Translation", "English", "Definition", "Back"];
    assert(str_views(r@) =~= tl_hints());
    r
}

fn fu_hint_list() -> (r: Vec<&'static str>)
    ensures
        str_views(r@) == fu_hints(),
{
    let r = vec!["Reading", "Furigana"];
    assert(str_views(r@) =~= fu_hints());
    r
}

fn ro_hint_list() -> (r: Vec<&'static str>)
    ensures
        str_views(r@) == ro_hints(),
{
    let r = vec!["Romaji", "Romanization", "Romaji Reading"];
    assert(str_views(r@) =~= ro_hints());
    r
}

fn src_hint_list() -> (r: Vec<&'static str>)
    ensures
        str_views(r@) == src_hints(),
{
    let r = vec!["Source", "Notes", "Deck"];
    assert(str_views(r@) =~= src_hints());
    r
}

/// Two texts are the same once both are lowercased.
pub open spec fn same_lowercase(a: Seq<char>, b: Seq<char>) -> bool {
    unicode_lowercase(a) == unicode_lowercase(b)
}

/// The first field, from position `k` on, whose lowercase equals the hint's.
pub open spec fn first_field_like(fields: Seq<Seq<char>>, hint: Seq<char>, k: int) -> Option<Seq<char>>
    decreases fields.len() - k,
{
    if k < 0 || k >= fields.len() {
        None
    } else if same_lowercase(fields[k], hint) {
        Some(fields[k])
    } else {
        first_field_like(fields, hint, k + 1)
    }
}

/// For the first hint (from position `h` on) that some field matches
/// case-insensitively, the first such field.
pub open spec fn guessed_field(fields: Seq<Seq<char>>, hints: Seq<Seq<char>>, h: int) -> Option<
    Seq<char>,
>
    decreases hints.len() - h,
{
    if h < 0 || h >= hints.len() {
        None
    } else {
        match first_field_like(fields, hints[h], 0) {
            Some(f) => Some(f),
            None => guessed_field(fields, hints, h + 1),
        }
    }
}

/// Guesses which field holds a kind of content from a list of name hints.
pub fn guess_field(fields: &[String], hints: &[&str]) -> (r: Option<String>)
    ensures
        r.deep_view() == guessed_field(string_views(fields@), str_views(hints@), 0),
{
    let ghost fv = string_views(fields@);
    let ghost hv = str_views(hints@);
    let mut h: usize = 0;
    while h < hints.len()
        invariant
            h <= hints.len(),
            fv == string_views(fields@),
            hv == str_views(hints@),
            guessed_field(fv, hv, 0) == guessed_field(fv, hv, h as int),
        decreases hints.len() - h,
    {
        let lh = to_lowercase(hints[h]);
        let mut k: usize = 0;
        while k < fields.len()
            invariant
                h < hints.len(),
                k <= fields.len(),
                fv == string_views(fields@),
                hv == str_views(hints@),
                lh@ == unicode_lowercase(hv[h as int]),
                guessed_field(fv, hv, 0) == guessed_field(fv, hv, h as int),
                first_field_like(fv, hv[h as int], 0) == first_field_like(fv, hv[h as int], k as int),
            decreases fields.len() - k,
        {
            let lf = to_lowercase(fields[k].as_str());
            assert(fv[k as int] == fields@[k as int]@);
            assert(hv[h as int] == hints@[h as int]@);
            if lf == lh {
                return Some(fields[k].clone());
            }
            k += 1;
        }
        h += 1;
    }
    None
}

/// Field names suggested for each kind of content, before any prompt.
pub struct FieldHints {
    pub japanese: Option<String>,
    pub translation: Option<String>,
    pub furigana: Option<String>,
    pub romaji: Option<String>,
    pub source: Option<String>,
}

/// The field given on the command line, or else the guessed one.
pub open spec fn hint_for(given: Option<String>, fields: Seq<String>, hints: Seq<Seq<char>>) -> Option<
    Seq<char>,
> {
    match given {
        Some(g) => Some(g@),
        None => guessed_field(string_views(fields), hints, 0),
    }
}

fn given_or_guess(given: &Option<String>, fields: &[String], hints: &Vec<&'static str>) -> (r:
    Option<String>)
    ensures
        r.deep_view() == hint_for(*given, fields@, str_views(hints@)),
{
    match given {
        Some(g) => Some(g.clone()),
        None => guess_field(fields, hints.as_slice()),
    }
}

/// The field suggested for each kind of content: the one given in `args`, or
/// else the first field whose name matches one of the kind's hints.
pub fn field_hints(field_names: &[String], args: &AnkiArgs) -> (r: FieldHints)
    ensures
        r.japanese.deep_view() == hint_for(args.japanese_field, field_names@, jp_hints()),
        r.translation.deep_view() == hint_for(args.translation_field, field_names@, tl_hints()),
        r.furigana.deep_view() == hint_for(args.furigana_field, field_names@, fu_hints()),
        r.romaji.deep_view() == hint_for(args.romaji_field, field_names@, ro_hints()),
        r.source.deep_view() == hint_for(args.source_field, field_names@, src_hints()),
{
    FieldHints {
        japanese: given_or_guess(&args.japanese_field, field_names, &jp_hint_list()),
        translation: given_or_guess(&args.translation_field, field_names, &tl_hint_list()),
        furigana: given_or_guess(&args.furigana_field, field_names, &fu_hint_list()),
        romaji: given_or_guess(&args.romaji_field, field_names, &ro_hint_list()),
        source: given_or_guess(&args.source_field, field_names, &src_hint_list()),
    }
}

} // verus!

verus! {

/// What a prompt answers: the typed line trimmed, or the default when the
/// trimmed line is empty and there is a default.
pub open spec fn answer_of(line: Seq<char>, default: Seq<char>) -> Seq<char> {
    if trim(line).len() == 0 && default.len() > 0 {
        default
    } else {
        trim(line)
    }
}

/// The answer to a prompt, given the line the user typed.
pub fn prompt_answer(line: &str, default: &str) -> (r: String)
    ensures
        r@ == answer_of(line@, default@),
{
    let v = chars_of(line);
    let t = trim_vec(&v);
    if t.len() == 0 && !default.is_empty() {
        proof {
            reveal_strlit("");
        }
        default.to_string()
    } else {
        string_of(&t)
    }
}

/// Why a field mapping could not be made.
pub enum MappingError {
    /// No Japanese field was given and none could be guessed (with `--yes`).
    NoJapaneseField,
    /// A field for this label is required but the answer was empty.
    FieldRequired(String),
    /// The answer names no field of the note.
    UnknownField(String),
}

/// A mapping error, with its texts as character sequences.
pub enum MappingIssue {
    NoJapaneseField,
    FieldRequired(Seq<char>),
    UnknownField(Seq<char>),
}

impl View for MappingError {
    type V = MappingIssue;

    open spec fn view(&self) -> MappingIssue {
        match self {
            MappingError::NoJapaneseField => MappingIssue::NoJapaneseField,
            MappingError::FieldRequired(l) => MappingIssue::FieldRequired(l@),
            MappingError::UnknownField(f) => MappingIssue::UnknownField(f@),
        }
    }
}

/// The result of prompting for the field of `label`: `None` for a skipped
/// optional field.
pub open spec fn field_choice(
    label: Seq<char>,
    field_names: Seq<Seq<char>>,
    hint: Seq<char>,
    required: bool,
    line: Seq<char>,
) -> Result<Option<Seq<char>>, MappingIssue> {
    let input = answer_of(line, hint);
    if input.len() == 0 {
        if required {
            Err(MappingIssue::FieldRequired(label))
        } else {
            Ok(None)
        }
    } else if !field_names.contains(input) {
        Err(MappingIssue::UnknownField(input))
    } else {
        Ok(Some(input))
    }
}

pub open spec fn opt_text(o: Option<&str>) -> Seq<char> {
    match o {
        Some(s) => s@,
        None => Seq::empty(),
    }
}

pub open spec fn choice_view(r: Result<Option<String>, MappingError>) -> Result<
    Option<Seq<char>>,
    MappingIssue,
> {
    match r {
        Ok(o) => Ok(o.deep_view()),
        Err(e) => Err(e@),
    }
}

fn contains_string(names: &[String], s: &String) -> (b: bool)
    ensures
        b == string_views(names@).contains(s@),
{
    let ghost nv = string_views(names@);
    let mut i: usize = 0;
    while i < names.len()
        invariant
            i <= names.len(),
            nv == string_views(names@),
            forall|k: int| 0 <= k < i ==> nv[k] != s@,
        decreases names.len() - i,
    {
        if names[i] == *s {
            assert(nv[i as int] == s@);
            return true;
        }
        i += 1;
    }
    proof {
        if nv.contains(s@) {
            let k = choose|k: int| 0 <= k < nv.len() && nv[k] == s@;
            assert(nv[k] != s@);
        }
    }
    false
}

/// Checks the answer to the prompt for the field of `label`: `hint` is the
/// default answer, and an empty answer skips an optional field.
pub fn prompt_field(
    label: &str,
    field_names: &[String],
    hint: Option<&str>,
    required: bool,
    line: &str,
) -> (r: Result<Option<String>, MappingError>)
    ensures
        choice_view(r) == field_choice(label@, string_views(field_names@), opt_text(hint), required, line@),
{
    let default = match hint {
        Some(h) => h,
        None => "",
    };
    proof {
        reveal_strlit("");
    }
    let input = prompt_answer(line, default);
    if input.as_str().is_empty() {
        if required {
            return Err(MappingError::FieldRequired(label.to_string()));
        }
        return Ok(None);
    }
    if !contains_string(field_names, &input) {
        return Err(MappingError::UnknownField(input));
    }
    Ok(Some(input))
}

/// Which note field fills each part of a quote.
pub struct FieldMapping {
    pub japanese: String,
    pub translation: Option<String>,
    pub furigana: Option<String>,
    pub romaji: Option<String>,
    pub source: Option<String>,
    pub deck_name: String,
}

/// A field mapping, with its texts as character sequences.
pub struct MappingView {
    pub japanese: Seq<char>,
    pub translation: Option<Seq<char>>,
    pub furigana: Option<Seq<char>>,
    pub romaji: Option<Seq<char>>,
    pub source: Option<Seq<char>>,
    pub deck_name: Seq<char>,
}

impl View for FieldMapping {
    type V = MappingView;

    open spec fn view(&self) -> MappingView {
        MappingView {
            japanese: self.japanese@,
            translation: self.translation.deep_view(),
            furigana: self.furigana.deep_view(),
            romaji: self.romaji.deep_view(),
            source: self.source.deep_view(),
            deck_name: self.deck_name@,
        }
    }
}

pub open spec fn opt_seq(o: Option<Seq<char>>) -> Seq<char> {
    match o {
        Some(s) => s,
        None => Seq::empty(),
    }
}

/// The mapping that the importer settles on. With `yes`, the suggested fields
/// are taken as they are (a Japanese field is then needed); otherwise
/// `answers` are the lines typed at the five prompts (Japanese, translation,
/// furigana, romaji, source), each checked in turn, the first bad one ending
/// the mapping.
pub open spec fn mapping_spec(
    field_names: Seq<String>,
    deck: Seq<char>,
    args: AnkiArgs,
    answers: Seq<Seq<char>>,
) -> Result<MappingView, MappingIssue> {
    let names = string_views(field_names);
    let jp = hint_for(args.japanese_field, field_names, jp_hints());
    let tl = hint_for(args.translation_field, field_names, tl_hints());
    let fu = hint_for(args.furigana_field, field_names, fu_hints());
    let ro = hint_for(args.romaji_field, field_names, ro_hints());
    let src = hint_for(args.source_field, field_names, src_hints());
    if args.yes {
        match jp {
            None => Err(MappingIssue::NoJapaneseField),
            Some(j) => Ok(
                MappingView {
                    japanese: j,
                    translation: tl,
                    furigana: fu,
                    romaji: ro,
                    source: src,
                    deck_name: deck,
                },
            ),
        }
    } else {
        match field_choice("japanese"@, names, opt_seq(jp), true, answers[0]) {
            Err(e) => Err(e),
            Ok(j) => match field_choice("translation"@, names, opt_seq(tl), false, answers[1]) {
                Err(e) => Err(e),
                Ok(t) => match field_choice("furigana"@, names, opt_seq(fu), false, answers[2]) {
                    Err(e) => Err(e),
                    Ok(f) => match field_choice("romaji"@, names, opt_seq(ro), false, answers[3]) {
                        Err(e) => Err(e),
                        Ok(r) => match field_choice(
                            "source"@,
                            names,
                            opt_seq(src),
                            false,
                            answers[4],
                        ) {
                            Err(e) => Err(e),
                            Ok(s) => Ok(
                                MappingView {
                                    japanese: opt_seq(j),
                                    translation: t,
                                    furigana: f,
                                    romaji: r,
                                    source: s,
                                    deck_name: deck,
                                },
                            ),
                        },
                    },
                },
            },
        }
    }
}

pub open spec fn mapping_result_view(r: Result<FieldMapping, MappingError>) -> Result<
    MappingView,
    MappingIssue,
> {
    match r {
        Ok(m) => Ok(m@),
        Err(e) => Err(e@),
    }
}

fn hint_text(h: &Option<String>) -> (r: &str)
    ensures
        r@ == opt_seq(h.deep_view()),
{
    proof {
        reveal_strlit("");
    }
    match h {
        Some(s) => s.as_str(),
        None => "",
    }
}

/// Decides the field mapping for a deck. With `args.yes` the suggested
/// fields are used; otherwise `answers` holds the lines the user typed at the
/// prompts for the Japanese, translation, furigana, romaji and source fields.
pub fn get_field_mapping(field_names: &[String], deck: &str, args: &AnkiArgs, answers: &[String]) -> (r:
    Result<FieldMapping, MappingError>)
    requires
        args.yes || answers.len() >= 5,
    ensures
        mapping_result_view(r) == mapping_spec(field_names@, deck@, *args, string_views(answers@)),
{
    let hints = field_hints(field_names, args);
    if args.yes {
        return match hints.japanese {
            None => Err(MappingError::NoJapaneseField),
            Some(japanese) => Ok(
                FieldMapping {
                    japanese,
                    translation: hints.translation,
                    furigana: hints.furigana,
                    romaji: hints.romaji,
                    source: hints.source,
                    deck_name: deck.to_string(),
                },
            ),
        };
    }
    let ghost av = string_views(answers@);
    assert(av[0] == answers@[0]@ && av[1] == answers@[1]@ && av[2] == answers@[2]@);
    assert(av[3] == answers@[3]@ && av[4] == answers@[4]@);
    let japanese = match prompt_field("japanese", field_names, Some(hint_text(&hints.japanese)), true, answers[0].as_str()) {
        Err(e) => return Err(e),
        Ok(j) => j,
    };
    let translation = match prompt_field("translation", field_names, Some(hint_text(&hints.translation)), false, answers[1].as_str()) {
        Err(e) => return Err(e),
        Ok(t) => t,
    };
    let furigana = match prompt_field("furigana", field_names, Some(hint_text(&hints.furigana)), false, answers[2].as_str()) {
        Err(e) => return Err(e),
        Ok(f) => f,
    };
    let romaji = match prompt_field("romaji", field_names, Some(hint_text(&hints.romaji)), false, answers[3].as_str()) {
        Err(e) => return Err(e),
        Ok(r) => r,
    };
    let source = match prompt_field("source", field_names, Some(hint_text(&hints.source)), false, answers[4].as_str()) {
        Err(e) => return Err(e),
        Ok(s) => s,
    };
    let japanese = match japanese {
        Some(j) => j,
        None => String::new(),
    };
    Ok(FieldMapping { japanese, translation, furigana, romaji, source, deck_name: deck.to_string() })
}

} // verus!

verus! {

/// A quote made from one note.
pub struct ImportedQuote {
    pub japanese: String,
    pub translation: Option<String>,
    pub romaji: Option<String>,
    pub source: Option<String>,
}

/// A quote, with its texts as character sequences.
pub struct QuoteView {
    pub japanese: Seq<char>,
    pub translation: Option<Seq<char>>,
    pub romaji: Option<Seq<char>>,
    pub source: Option<Seq<char>>,
}

impl View for ImportedQuote {
    type V = QuoteView;

    open spec fn view(&self) -> QuoteView {
        QuoteView {
            japanese: self.japanese@,
            translation: self.translation.deep_view(),
            romaji: self.romaji.deep_view(),
            source: self.source.deep_view(),
        }
    }
}

/// The value of the field that `name` designates, if any.
pub open spec fn mapped_value(note: AnkiNote, name: Option<Seq<char>>) -> Option<Seq<char>> {
    match name {
        Some(n) => note.value_of(n),
        None => None,
    }
}

/// A raw field's cleaned text, kept only when it is not empty.
pub open spec fn cleaned_nonempty(raw: Option<Seq<char>>) -> Option<Seq<char>> {
    match raw {
        Some(r) => match cleaned_field(r) {
            Some(c) => if c.len() > 0 {
                Some(c)
            } else {
                None
            },
            None => None,
        },
        None => None,
    }
}

/// The raw field can be cleaned, or is absent.
pub open spec fn cleanable(raw: Option<Seq<char>>) -> bool {
    match raw {
        Some(r) => cleaned_field(r) is Some,
        None => true,
    }
}

/// The Japanese text that a note yields before the check for emptiness: its
/// cleaned Japanese field, or, when that has no furigana notation, the
/// cleaned furigana field if that one has; Anki's notation then rewritten
/// inline. `None` when the note lacks the Japanese field.
pub open spec fn japanese_of(note: AnkiNote, m: MappingView) -> Option<Seq<char>> {
    match note.value_of(m.japanese) {
        None => None,
        Some(raw) => {
            let j = cleaned_field(raw).unwrap();
            let fu = mapped_value(note, m.furigana);
            let chosen = if !has_ruby(j) && fu is Some && has_ruby(cleaned_field(fu.unwrap()).unwrap()) {
                cleaned_field(fu.unwrap()).unwrap()
            } else {
                j
            };
            Some(anki_to_inline(chosen))
        },
    }
}

/// The inputs on which converting the note cleans only fields that can be
/// cleaned (the conversion of the others fails).
pub open spec fn note_convertible(note: AnkiNote, m: MappingView) -> bool {
    match note.value_of(m.japanese) {
        None => true,
        Some(raw) => {
            &&& cleaned_field(raw) is Some
            &&& !has_ruby(cleaned_field(raw).unwrap()) ==> cleanable(mapped_value(note, m.furigana))
            &&& japanese_of(note, m).unwrap().len() > 0 ==> {
                &&& cleanable(mapped_value(note, m.translation))
                &&& cleanable(mapped_value(note, m.romaji))
                &&& cleanable(mapped_value(note, m.source))
            }
        },
    }
}

/// The quote a note yields under a mapping: none when the Japanese field is
/// missing or comes out empty; the other parts cleaned and kept when not
/// empty, the deck name standing in for a missing source.
pub open spec fn converted_note(note: AnkiNote, m: MappingView) -> Option<QuoteView> {
    match japanese_of(note, m) {
        None => None,
        Some(j) => if j.len() == 0 {
            None
        } else {
            Some(
                QuoteView {
                    japanese: j,
                    translation: cleaned_nonempty(mapped_value(note, m.translation)),
                    romaji: cleaned_nonempty(mapped_value(note, m.romaji)),
                    source: match cleaned_nonempty(mapped_value(note, m.source)) {
                        Some(s) => Some(s),
                        None => Some(m.deck_name),
                    },
                },
            )
        },
    }
}

fn clean_mapped_field(note: &AnkiNote, name: &Option<String>) -> (r: Option<String>)
    requires
        cleanable(mapped_value(*note, name.deep_view())),
    ensures
        r.deep_view() == cleaned_nonempty(mapped_value(*note, name.deep_view())),
{
    match name {
        None => None,
        Some(n) => match note.get(n) {
            None => None,
            Some(raw) => {
                let c = clean_field(raw.as_str());
                if c.as_str().is_empty() {
                    None
                } else {
                    Some(c)
                }
            },
        },
    }
}

/// A note yields no quote exactly when it lacks the mapped Japanese field
/// or that field comes out empty; a quote it yields always has a source,
/// and its translation and romaji are each absent or not empty.
pub proof fn law_converted_note_shape(note: AnkiNote, m: MappingView)
    ensures
        converted_note(note, m) is None <==> (note.value_of(m.japanese) is None || japanese_of(
            note,
            m,
        ).unwrap().len() == 0),
        converted_note(note, m) matches Some(q) ==> {
            &&& q.japanese.len() > 0
            &&& q.source is Some
            &&& q.translation matches Some(t) ==> t.len() > 0
            &&& q.romaji matches Some(t) ==> t.len() > 0
        },
{
}

/// A quote takes its translation, romaji and source from the note's mapped
/// fields. Each of them is the field's cleaned text when the mapping names
/// the field, the note has that field, and its text cleans to something not
/// empty. Otherwise the translation and the romaji are absent, and the source
/// is the deck's name.
pub proof fn law_converted_note_fields(note: AnkiNote, m: MappingView)
    requires
        converted_note(note, m) is Some,
    ensures
        ({
            let q = converted_note(note, m)->0;
            &&& (m.source is Some && note.value_of(m.source->0) is Some && cleaned_field(
                note.value_of(m.source->0)->0,
            ) is Some && cleaned_field(note.value_of(m.source->0)->0)->0.len() > 0) ==> q.source
                == Some(cleaned_field(note.value_of(m.source->0)->0)->0)
            &&& !(m.source is Some && note.value_of(m.source->0) is Some && cleaned_field(
                note.value_of(m.source->0)->0,
            ) is Some && cleaned_field(note.value_of(m.source->0)->0)->0.len() > 0) ==> q.source
                == Some(m.deck_name)
            &&& (m.translation is Some && note.value_of(m.translation->0) is Some && cleaned_field(
                note.value_of(m.translation->0)->0,
            ) is Some && cleaned_field(note.value_of(m.translation->0)->0)->0.len() > 0)
                ==> q.translation == Some(cleaned_field(note.value_of(m.translation->0)->0)->0)
            &&& !(m.translation is Some && note.value_of(m.translation->0) is Some && cleaned_field(
                note.value_of(m.translation->0)->0,
            ) is Some && cleaned_field(note.value_of(m.translation->0)->0)->0.len() > 0)
                ==> q.translation is None
            &&& (m.romaji is Some && note.value_of(m.romaji->0) is Some && cleaned_field(
                note.value_of(m.romaji->0)->0,
            ) is Some && cleaned_field(note.value_of(m.romaji->0)->0)->0.len() > 0) ==> q.romaji
                == Some(cleaned_field(note.value_of(m.romaji->0)->0)->0)
            &&& !(m.romaji is Some && note.value_of(m.romaji->0) is Some && cleaned_field(
                note.value_of(m.romaji->0)->0,
            ) is Some && cleaned_field(note.value_of(m.romaji->0)->0)->0.len() > 0) ==> q.romaji is None
        }),
{
}

fn cleanable_exec(note: &AnkiNote, name: &Option<String>) -> (b: bool)
    ensures
        b == cleanable(mapped_value(*note, name.deep_view())),
{
    match name {
        None => true,
        Some(n) => match note.get(n) {
            None => true,
            Some(raw) => try_clean_field(raw.as_str()).is_some(),
        },
    }
}

/// Whether converting the note under the mapping cleans only fields that
/// can be cleaned.
pub fn note_is_convertible(note: &AnkiNote, mapping: &FieldMapping) -> (b: bool)
    ensures
        b == note_convertible(*note, mapping@),
{
    let raw = match note.get(&mapping.japanese) {
        None => return true,
        Some(raw) => raw,
    };
    let j = match try_clean_field(raw.as_str()) {
        None => return false,
        Some(j) => j,
    };
    let ruby = has_ruby_syntax(j.as_str());
    if !ruby && !cleanable_exec(note, &mapping.furigana) {
        return false;
    }
    let mut chosen = j;
    if !ruby {
        if let Some(fu_field) = &mapping.furigana {
            if let Some(raw_fu) = note.get(fu_field) {
                let fu = clean_field(raw_fu.as_str());
                if has_ruby_syntax(fu.as_str()) {
                    chosen = fu;
                }
            }
        }
    }
    let japanese = anki_furigana_to_inline(chosen.as_str());
    if japanese.as_str().is_empty() {
        true
    } else {
        cleanable_exec(note, &mapping.translation) && cleanable_exec(note, &mapping.romaji)
            && cleanable_exec(note, &mapping.source)
    }
}

/// Turns one note into a quote under the field mapping.
pub fn convert_note(note: &AnkiNote, mapping: &FieldMapping) -> (r: Option<ImportedQuote>)
    requires
        note_convertible(*note, mapping@),
    ensures
        match r {
            Some(q) => converted_note(*note, mapping@) == Some(q@),
            None => converted_note(*note, mapping@) is None,
        },
        r matches Some(q) ==> {
            let m = mapping@;
            &&& (m.source is Some && note.value_of(m.source->0) is Some && cleaned_field(
                note.value_of(m.source->0)->0,
            ) is Some && cleaned_field(note.value_of(m.source->0)->0)->0.len() > 0) ==> q@.source
                == Some(cleaned_field(note.value_of(m.source->0)->0)->0)
            &&& !(m.source is Some && note.value_of(m.source->0) is Some && cleaned_field(
                note.value_of(m.source->0)->0,
            ) is Some && cleaned_field(note.value_of(m.source->0)->0)->0.len() > 0) ==> q@.source
                == Some(m.deck_name)
        },
{
    let raw_jp = match note.get(&mapping.japanese) {
        None => return None,
        Some(raw) => raw,
    };
    let mut japanese = clean_field(raw_jp.as_str());
    if !has_ruby_syntax(japanese.as_str()) {
        if let Some(fu_field) = &mapping.furigana {
            if let Some(raw_fu) = note.get(fu_field) {
                let fu = clean_field(raw_fu.as_str());
                if has_ruby_syntax(fu.as_str()) {
                    japanese = fu;
                }
            }
        }
    }
    let japanese = anki_furigana_to_inline(japanese.as_str());
    if japanese.as_str().is_empty() {
        return None;
    }
    let translation = clean_mapped_field(note, &mapping.translation);
    let romaji = clean_mapped_field(note, &mapping.romaji);
    let source = match clean_mapped_field(note, &mapping.source) {
        Some(s) => Some(s),
        None => Some(mapping.deck_name.clone()),
    };
    Some(ImportedQuote { japanese, translation, romaji, source })
}

} // verus!

verus! {

/// Whether the answer at the sample prompt asks for the next sample note:
/// `next` in any ASCII case, surrounding whitespace ignored.
pub open spec fn asks_next(line: Seq<char>) -> bool {
    lower_seq(trim(line)) == "next"@
}

/// The sample shown after the answer `line` at the sample prompt: the next
/// one (cycling to the first) when the answer is `next`; `None` to go on to
/// the field prompts.
pub fn next_sample_index(idx: usize, sample_count: usize, line: &str) -> (r: Option<usize>)
    requires
        idx < sample_count,
    ensures
        r == (if asks_next(line@) {
            Some(((idx + 1) % (sample_count as int)) as usize)
        } else {
            None
        }),
{
    let v = chars_of(line);
    let t = trim_vec(&v);
    let l = lower_vec(&t);
    let next = vec!['n', 'e', 'x', 't'];
    proof {
        reveal_strlit("next");
        assert(next@ == "next"@);
    }
    if crate::clean::same_chars(&l, &next) {
        Some((idx + 1) % sample_count)
    } else {
        None
    }
}

/// A field's preview in the sample listing: its first 40 characters, with
/// `...` when there were more.
pub open spec fn preview_of(clean: Seq<char>) -> Seq<char> {
    if clean.len() > 40 {
        clean.take(40) + "..."@
    } else {
        clean
    }
}

/// The raw value of a field, or the empty text when the note lacks it.
pub open spec fn value_or_empty(note: AnkiNote, name: Seq<char>) -> Seq<char> {
    match note.value_of(name) {
        Some(v) => v,
        None => Seq::empty(),
    }
}

/// Every field of the note's field order can be cleaned.
pub open spec fn sample_cleanable(note: AnkiNote) -> bool {
    forall|k: int|
        0 <= k < note.field_order@.len() ==> cleaned_field(
            value_or_empty(note, (#[trigger] note.field_order@[k])@),
        ) is Some
}

/// Whether every field of the note's field order can be cleaned.
pub fn sample_is_cleanable(note: &AnkiNote) -> (b: bool)
    ensures
        b == sample_cleanable(*note),
{
    let mut k: usize = 0;
    while k < note.field_order.len()
        invariant
            k <= note.field_order.len(),
            forall|j: int|
                0 <= j < k ==> cleaned_field(value_or_empty(*note, (#[trigger] note.field_order@[j])@))
                    is Some,
        decreases note.field_order.len() - k,
    {
        let raw = match note.get(&note.field_order[k]) {
            Some(v) => v,
            None => String::new(),
        };
        if try_clean_field(raw.as_str()).is_none() {
            return false;
        }
        k += 1;
    }
    true
}

/// The lines of the sample listing of a note: each field name, in field
/// order, with a preview of its cleaned value.
pub fn sample_previews(note: &AnkiNote) -> (r: Vec<(String, String)>)
    requires
        sample_cleanable(*note),
    ensures
        r.len() == note.field_order.len(),
        forall|k: int|
            0 <= k < r.len() ==> (#[trigger] r@[k]).0@ == note.field_order@[k]@ && r@[k].1@
                == preview_of(cleaned_field(value_or_empty(*note, note.field_order@[k]@)).unwrap()),
{
    let mut r: Vec<(String, String)> = Vec::new();
    let mut k: usize = 0;
    while k < note.field_order.len()
        invariant
            k <= note.field_order.len(),
            sample_cleanable(*note),
            r.len() == k,
            forall|j: int|
                0 <= j < k ==> (#[trigger] r@[j]).0@ == note.field_order@[j]@ && r@[j].1@
                    == preview_of(cleaned_field(value_or_empty(*note, note.field_order@[j]@)).unwrap()),
        decreases note.field_order.len() - k,
    {
        let name = &note.field_order[k];
        let raw = match note.get(name) {
            Some(v) => v,
            None => String::new(),
        };
        let c = clean_field(raw.as_str());
        let cv = chars_of(c.as_str());
        let preview = if cv.len() > 40 {
            let mut p = slice_vec(&cv, 0, 40);
            p.push('.');
            p.push('.');
            p.push('.');
            proof {
                reveal_strlit("...");
                assert(cv@.subrange(0, 40) == cv@.take(40));
                assert(p@ =~= cv@.take(40) + "..."@);
            }
            string_of(&p)
        } else {
            string_of(&cv)
        };
        r.push((name.clone(), preview));
        k += 1;
    }
    r
}

/// The quotes that a list of notes yields, in order.
pub open spec fn converted_notes(notes: Seq<AnkiNote>, m: MappingView) -> Seq<QuoteView>
    decreases notes.len(),
{
    if notes.len() == 0 {
        Seq::empty()
    } else {
        let rest = converted_notes(notes.drop_last(), m);
        match converted_note(notes.last(), m) {
            Some(q) => rest.push(q),
            None => rest,
        }
    }
}

/// How many notes of a list yield no quote.
pub open spec fn skipped_notes(notes: Seq<AnkiNote>, m: MappingView) -> nat
    decreases notes.len(),
{
    if notes.len() == 0 {
        0
    } else {
        skipped_notes(notes.drop_last(), m) + if converted_note(notes.last(), m) is Some {
            0nat
        } else {
            1nat
        }
    }
}

/// Converts every note of a deck; returns the quotes and how many notes
/// were skipped for an empty Japanese field.
pub fn convert_notes(notes: &[AnkiNote], mapping: &FieldMapping) -> (r: (Vec<ImportedQuote>, usize))
    requires
        forall|k: int| 0 <= k < notes.len() ==> note_convertible(#[trigger] notes@[k], mapping@),
    ensures
        r.0@.map_values(|q: ImportedQuote| q@) == converted_notes(notes@, mapping@),
        r.1 as nat == skipped_notes(notes@, mapping@),
{
    let mut quotes: Vec<ImportedQuote> = Vec::new();
    let mut skipped: usize = 0;
    let mut i: usize = 0;
    while i < notes.len()
        invariant
            i <= notes.len(),
            forall|k: int| 0 <= k < notes.len() ==> note_convertible(#[trigger] notes@[k], mapping@),
            quotes@.map_values(|q: ImportedQuote| q@) == converted_notes(notes@.take(i as int), mapping@),
            skipped as nat == skipped_notes(notes@.take(i as int), mapping@),
            skipped <= i,
        decreases notes.len() - i,
    {
        assert(notes@.take(i + 1).drop_last() == notes@.take(i as int));
        assert(notes@.take(i + 1).last() == notes@[i as int]);
        let ghost before = quotes@;
        match convert_note(&notes[i], mapping) {
            Some(q) => {
                quotes.push(q);
                assert(quotes@.map_values(|q: ImportedQuote| q@) =~= before.map_values(
                    |q: ImportedQuote| q@,
                ).push(quotes@.last()@));
            },
            None => {
                skipped += 1;
            },
        }
        i += 1;
    }
    assert(notes@.take(notes.len() as int) == notes@);
    (quotes, skipped)
}

} // verus!
