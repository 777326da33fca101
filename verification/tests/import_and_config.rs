use kotofetch::anki::{
    convert_note, convert_notes, field_hints, get_field_mapping, guess_field, next_sample_index,
    note_from_fields, note_is_convertible, prompt_answer, prompt_field, sample_is_cleanable,
    sample_previews, AnkiClient, AnkiNote, FieldMapping, ImportedQuote, MappingError,
};
use kotofetch::clean::{clean_field, try_clean_field};
use kotofetch::cli::{AnkiArgs, Cli, FuriganaPosition as CliPosition, TranslationMode as CliMode};
use kotofetch::config::{
    make_runtime_config, AnimationType, DisplayConfig, FileConfig, FuriganaPosition,
    RuntimeConfig, TranslationMode,
};
use kotofetch::decks::{
    asks_to_overwrite, confirms_overwrite, deck_query, deck_quote_file, sample_size, suggested_mode, quote_file_name, sanitize_deck_name, select_decks, sort_decks,
    DeckError,
};
use kotofetch::furigana::{anki_furigana_to_inline, has_anki_ruby, has_inline_ruby, has_ruby_syntax, is_kanji_char};
use kotofetch::render::{
    dynamic_paddings, is_animated, lines_of, pick_quote, quote_box, quote_lines, quote_pool, resolve_seed, shows_source,
    top_blank, translations_for, Quote,
};
use kotofetch::ruby::has_ruby_markup;
use kotofetch::toml_out::{quotes_toml, toml_escape};
use rand::rngs::StdRng;
use rand::SeedableRng;

fn strings(v: &[&str]) -> Vec<String> {
    v.iter().map(|s| s.to_string()).collect()
}

fn args() -> AnkiArgs {
    AnkiArgs {
        url: "http://localhost:8765".to_string(),
        deck: vec![],
        japanese_field: None,
        translation_field: None,
        furigana_field: None,
        romaji_field: None,
        source_field: None,
        output_dir: None,
        yes: false,
    }
}

fn empty_cli() -> Cli {
    Cli {
        command: None,
        config: None,
        horizontal_padding: None,
        vertical_padding: None,
        width: None,
        translation: None,
        translation_color: None,
        quote_color: None,
        bold: None,
        border: None,
        rounded_border: None,
        border_color: None,
        source: None,
        modes: None,
        index: None,
        seed: None,
        centered: None,
        dynamic: None,
        furigana_position: None,
    }
}

fn empty_display() -> DisplayConfig {
    DisplayConfig {
        horizontal_padding: None,
        vertical_padding: None,
        width: None,
        show_translation: None,
        translation_color: None,
        quote_color: None,
        font_size: None,
        bold: None,
        border: None,
        rounded_border: None,
        border_color: None,
        source: None,
        modes: None,
        seed: None,
        centered: None,
        dynamic: None,
        furigana_position: None,
        animation: None,
        animation_duration_ms: None,
    }
}

fn note(fields: &[(&str, &str)]) -> AnkiNote {
    let entries: Vec<(String, String, usize)> = fields
        .iter()
        .enumerate()
        .map(|(i, (n, v))| (n.to_string(), v.to_string(), i))
        .collect();
    note_from_fields(&entries)
}

fn quote(j: &str, t: Option<&str>, r: Option<&str>, s: Option<&str>) -> Quote {
    Quote {
        japanese: j.to_string(),
        translation: t.map(|x| x.to_string()),
        romaji: r.map(|x| x.to_string()),
        source: s.map(|x| x.to_string()),
    }
}

#[test]
fn fields_are_cleaned() {
    assert_eq!(clean_field("<b>猫</b>[sound:neko.mp3]"), "猫");
    assert_eq!(clean_field("<ruby>漢字<rt>かんじ</rt></ruby>"), "漢字(かんじ)");
    assert_eq!(clean_field("<RUBY><rb>漢</rb><RT>かん</RT></RUBY>"), "漢(かん)");
    assert_eq!(clean_field("a<br>b<div>c</div>"), "a\nb\nc");
    assert_eq!(clean_field("x<div>a</div>b"), "x\nab");
    assert_eq!(clean_field("a<br/>b"), "a\nb");
    assert_eq!(clean_field("a<BR />b"), "a\nb");
    assert_eq!(clean_field("a</p>b"), "ab");
    assert_eq!(clean_field("&lt;tag&gt; &amp; &quot;x&quot; &#39;y&apos;"), "<tag> & \"x\" 'y'");
    assert_eq!(clean_field("a<br><br><br><br>b"), "a\n\nb");
    assert_eq!(clean_field("  x&nbsp; "), "x");
    assert_eq!(clean_field("[sound:unclosed"), "[sound:unclosed");
}

#[test]
fn reading_tags_in_the_wrong_order_cannot_be_cleaned() {
    assert_eq!(try_clean_field("<ruby></rb>x<rb><rt>y</rt></ruby>"), None);
    assert_eq!(try_clean_field("<i>ok</i>"), Some("ok".to_string()));
}

#[test]
fn anki_furigana_becomes_inline() {
    assert_eq!(anki_furigana_to_inline("漢字[かんじ] 読[よ]む"), "漢字(かんじ)読(よ)む");
    assert_eq!(anki_furigana_to_inline("猫[ねこ] です"), "猫(ねこ) です");
    assert_eq!(anki_furigana_to_inline("plain text"), "plain text");
    assert!(has_anki_ruby("漢[かん]"));
    assert!(!has_anki_ruby("a[b]"));
    assert!(has_inline_ruby("漢(かん)"));
    assert!(has_ruby_syntax("漢(かん)"));
    assert!(!has_ruby_syntax("漢 (かん)"));
    assert!(is_kanji_char('字'));
    assert!(!is_kanji_char('ア'));
}

#[test]
fn inline_conversion_leaves_text_without_brackets() {
    let s = "漢字です (plain)";
    assert_eq!(anki_furigana_to_inline(s), s);
}

#[test]
fn fields_are_guessed_case_insensitively() {
    let names = strings(&["expression", "Meaning", "Reading"]);
    assert_eq!(guess_field(&names, &["Sentence", "Expression"]), Some("expression".to_string()));
    assert_eq!(guess_field(&names, &["Romaji"]), None);
    let hints = field_hints(&names, &args());
    assert_eq!(hints.japanese, Some("expression".to_string()));
    assert_eq!(hints.translation, Some("Meaning".to_string()));
    assert_eq!(hints.furigana, Some("Reading".to_string()));
    assert_eq!(hints.romaji, None);
    let mut a = args();
    a.romaji_field = Some("Custom".to_string());
    assert_eq!(field_hints(&names, &a).romaji, Some("Custom".to_string()));
}

#[test]
fn prompt_answers() {
    assert_eq!(prompt_answer("  abc ", "d"), "abc");
    assert_eq!(prompt_answer("   ", "d"), "d");
    assert_eq!(prompt_answer("", ""), "");
}

#[test]
fn prompt_field_checks_the_answer() {
    let names = strings(&["Front", "Back"]);
    assert!(matches!(prompt_field("japanese", &names, Some("Front"), true, ""), Ok(Some(f)) if f == "Front"));
    assert!(matches!(prompt_field("translation", &names, None, false, " "), Ok(None)));
    assert!(matches!(prompt_field("japanese", &names, None, true, ""), Err(MappingError::FieldRequired(l)) if l == "japanese"));
    assert!(matches!(prompt_field("romaji", &names, None, false, "Nope"), Err(MappingError::UnknownField(f)) if f == "Nope"));
}

#[test]
fn field_mapping_with_and_without_prompts() {
    let names = strings(&["Expression", "Meaning"]);
    let mut a = args();
    a.yes = true;
    let m = get_field_mapping(&names, "Deck", &a, &[]).ok().expect("mapping");
    assert_eq!(m.japanese, "Expression");
    assert_eq!(m.translation, Some("Meaning".to_string()));
    assert_eq!(m.furigana, None);
    assert_eq!(m.deck_name, "Deck");
    let none = strings(&["A", "B"]);
    assert!(matches!(get_field_mapping(&none, "Deck", &a, &[]), Err(MappingError::NoJapaneseField)));
    let answers = strings(&["", "", "", "", ""]);
    let m = get_field_mapping(&names, "Deck", &args(), &answers).ok().expect("mapping");
    assert_eq!(m.japanese, "Expression");
    assert_eq!(m.translation, Some("Meaning".to_string()));
    assert_eq!(m.source, None);
    let answers = strings(&["Nope", "", "", "", ""]);
    assert!(matches!(get_field_mapping(&names, "Deck", &args(), &answers), Err(MappingError::UnknownField(f)) if f == "Nope"));
}

#[test]
fn notes_become_quotes() {
    let n = note(&[("Front", "<b>猫</b>"), ("Back", "cat"), ("Extra", "")]);
    let mapping = FieldMapping {
        japanese: "Front".to_string(),
        translation: Some("Back".to_string()),
        furigana: None,
        romaji: Some("Extra".to_string()),
        source: None,
        deck_name: "Animals".to_string(),
    };
    assert!(note_is_convertible(&n, &mapping));
    let q = convert_note(&n, &mapping).expect("quote");
    assert_eq!(q.japanese, "猫");
    assert_eq!(q.translation, Some("cat".to_string()));
    assert_eq!(q.romaji, None);
    assert_eq!(q.source, Some("Animals".to_string()));
    let empty = note(&[("Front", "  "), ("Back", "x")]);
    assert!(convert_note(&empty, &mapping).is_none());
    let (quotes, skipped) = convert_notes(&[n, empty], &mapping);
    assert_eq!(quotes.len(), 1);
    assert_eq!(skipped, 1);
}

#[test]
fn furigana_field_supplies_the_reading() {
    let n = note(&[("Expr", "漢字"), ("Reading", "漢字[かんじ]")]);
    let mapping = FieldMapping {
        japanese: "Expr".to_string(),
        translation: None,
        furigana: Some("Reading".to_string()),
        romaji: None,
        source: None,
        deck_name: "D".to_string(),
    };
    let q = convert_note(&n, &mapping).expect("quote");
    assert_eq!(q.japanese, "漢字(かんじ)");
}

#[test]
fn later_field_entry_wins_and_order_is_stable() {
    let entries = vec![
        ("B".to_string(), "1".to_string(), 1usize),
        ("A".to_string(), "2".to_string(), 0usize),
        ("C".to_string(), "3".to_string(), 1usize),
    ];
    let n = note_from_fields(&entries);
    assert_eq!(n.field_order, strings(&["A", "B", "C"]));
    assert_eq!(n.get(&"C".to_string()), Some("3".to_string()));
    assert_eq!(n.get(&"Z".to_string()), None);
}

#[test]
fn sample_listing() {
    let long = "あ".repeat(45);
    let n = note(&[("Front", "<i>猫</i>"), ("Back", long.as_str())]);
    assert!(sample_is_cleanable(&n));
    let p = sample_previews(&n);
    assert_eq!(p[0], ("Front".to_string(), "猫".to_string()));
    assert_eq!(p[1].1, format!("{}...", "あ".repeat(40)));
    assert_eq!(next_sample_index(0, 3, " NEXT "), Some(1));
    assert_eq!(next_sample_index(2, 3, "next"), Some(0));
    assert_eq!(next_sample_index(0, 3, ""), None);
}

#[test]
fn toml_escaping() {
    assert_eq!(toml_escape("a\"b\\c\nd\re\tf"), "a\\\"b\\\\c\\nde\\tf");
    assert_eq!(toml_escape("plain"), "plain");
}

#[test]
fn quote_file_text() {
    let qs = vec![
        ImportedQuote {
            japanese: "猫".to_string(),
            translation: Some("cat".to_string()),
            romaji: None,
            source: Some("deck".to_string()),
        },
        ImportedQuote { japanese: "犬\"".to_string(), translation: None, romaji: Some("inu".to_string()), source: None },
    ];
    assert_eq!(
        quotes_toml(&qs),
        "[[quote]]\njapanese = \"猫\"\ntranslation = \"cat\"\nsource = \"deck\"\n\n[[quote]]\njapanese = \"犬\\\"\"\nromaji = \"inu\"\n\n"
    );
    assert_eq!(quotes_toml(&[]), "");
}

#[test]
fn deck_names_and_files() {
    assert_eq!(sanitize_deck_name("Japanese::Core 2k"), "japanese-core-2k");
    assert_eq!(sanitize_deck_name("__Hello__World!!"), "hello-world");
    assert_eq!(sanitize_deck_name("日本語"), "");
    assert_eq!(quote_file_name("My Deck"), "my-deck.toml");
    assert_eq!(deck_query("Core"), "deck:\"Core\"");
    assert!(confirms_overwrite("yes"));
    assert!(confirms_overwrite("Y"));
    assert!(!confirms_overwrite("n"));
    assert!(!confirms_overwrite(""));
    assert_eq!(sort_decks(&strings(&["b", "a", "C"])), strings(&["C", "a", "b"]));
}

#[test]
fn deck_selection() {
    let decks = strings(&["b", "a", "c"]);
    assert_eq!(select_decks(&decks, &args(), "1,2").ok(), Some(strings(&["b", "c"])));
    assert_eq!(select_decks(&decks, &args(), " all ").ok(), Some(strings(&["a", "b", "c"])));
    assert_eq!(select_decks(&decks, &args(), "").ok(), Some(strings(&["a"])));
    assert!(matches!(select_decks(&decks, &args(), "1,x"), Err(DeckError::InvalidIndex(p)) if p == "x"));
    assert!(matches!(select_decks(&decks, &args(), "5"), Err(DeckError::OutOfRange(5, 3))));
    let mut y = args();
    y.yes = true;
    assert_eq!(select_decks(&decks, &y, "2").ok(), Some(strings(&["a"])));
    let mut a = args();
    a.deck = strings(&["c", "zz"]);
    assert!(matches!(select_decks(&decks, &a, ""), Err(DeckError::NotFound(d)) if d == "zz"));
    a.deck = strings(&["c"]);
    assert_eq!(select_decks(&decks, &a, "").ok(), Some(strings(&["c"])));
}

#[test]
fn client_keeps_its_url() {
    assert_eq!(AnkiClient::new("http://x:1").url, "http://x:1");
}

#[test]
fn defaults_when_nothing_is_configured() {
    let r = make_runtime_config(None, &empty_cli());
    assert_eq!(r.horizontal_padding, 3);
    assert_eq!(r.vertical_padding, 1);
    assert_eq!(r.width, 0);
    assert_eq!(r.show_translation, vec![TranslationMode::English]);
    assert_eq!(r.translation_color, "dim");
    assert_eq!(r.quote_color, "white");
    assert_eq!(r.border_color, "white");
    assert_eq!(r.font_size, "medium");
    assert!(r.bold && r.border && r.rounded_border && r.centered);
    assert!(!r.source && !r.dynamic);
    assert_eq!(
        r.modes,
        strings(&["proverb.toml", "haiku.toml", "anime.toml", "lyrics.toml", "yojijukugo.toml"])
    );
    assert_eq!(r.seed, 0);
    assert_eq!(r.furigana_position, FuriganaPosition::Below);
    assert_eq!(r.animation, AnimationType::NoAnimation);
    let d = RuntimeConfig::default();
    assert_eq!(d.horizontal_padding, 3);
    assert_eq!(d.modes, r.modes);
}

#[test]
fn command_line_overrides_file_overrides_default() {
    let mut display = empty_display();
    display.width = Some(40);
    display.horizontal_padding = Some(2);
    display.show_translation = Some(TranslationMode::Romaji);
    display.font_size = Some("large".to_string());
    display.animation = Some(AnimationType::Scramble);
    let file = FileConfig { display: Some(display) };
    let mut cli = empty_cli();
    cli.horizontal_padding = Some(5);
    cli.furigana_position = Some(CliPosition::Above);
    let r = make_runtime_config(Some(file), &cli);
    assert_eq!(r.horizontal_padding, 5);
    assert_eq!(r.width, 40);
    assert_eq!(r.vertical_padding, 1);
    assert_eq!(r.show_translation, vec![TranslationMode::Romaji]);
    assert_eq!(r.font_size, "large");
    assert_eq!(r.animation, AnimationType::Scramble);
    assert_eq!(r.furigana_position, FuriganaPosition::Above);
    cli.translation = Some(vec![CliMode::Furigana, CliMode::NoTranslation, CliMode::English]);
    let r = make_runtime_config(None, &cli);
    assert_eq!(
        r.show_translation,
        vec![TranslationMode::Furigana, TranslationMode::NoTranslation, TranslationMode::English]
    );
}

#[test]
fn str_lines_split() {
    assert_eq!(lines_of("a\r\nb\n"), strings(&["a", "b"]));
    assert_eq!(lines_of(""), Vec::<String>::new());
    assert_eq!(lines_of("\n"), strings(&[""]));
    assert_eq!(lines_of("a\rb"), strings(&["a\rb"]));
    assert_eq!(lines_of("a\n\nb"), strings(&["a", "", "b"]));
    assert_eq!(lines_of("x\r"), strings(&["x\r"]));
}

#[test]
fn translations_follow_the_modes() {
    let q = quote("猫(ねこ)", Some("Cat"), Some("neko"), None);
    let (t, f) = translations_for(
        &q,
        &[TranslationMode::Romaji, TranslationMode::English, TranslationMode::Furigana],
    );
    assert_eq!(t, strings(&["neko", "Cat"]));
    assert!(f);
    let (t, f) = translations_for(&q, &[TranslationMode::NoTranslation]);
    assert!(t.is_empty() && !f);
    let plain = quote("猫", None, None, None);
    let (t, f) = translations_for(&plain, &[TranslationMode::English, TranslationMode::Furigana]);
    assert!(t.is_empty() && !f);
}

#[test]
fn quote_pool_and_choice() {
    let pool = quote_pool(vec![]);
    assert_eq!(pool.len(), 1);
    assert_eq!(pool[0].japanese, "(no quote found)");
    let pool = quote_pool(vec![quote("一", None, None, None), quote("二", None, None, None)]);
    assert_eq!(pool.len(), 2);
    let mut rng = StdRng::seed_from_u64(5);
    assert_eq!(pick_quote(&pool, Some(1), &mut rng).japanese, "二");
    let chosen = pick_quote(&pool, None, &mut rng).japanese;
    assert!(chosen == "一" || chosen == "二");
    assert_eq!(resolve_seed(42), 42);
}

#[test]
fn quote_lines_with_and_without_furigana() {
    let q = quote("漢字(かんじ)\n猫", None, None, Some("src"));
    let (k, r) = quote_lines(&q, true, "medium");
    assert_eq!(k, strings(&[" 漢字 ", "猫"]));
    assert_eq!(r, strings(&["かんじ"]));
    let (k, r) = quote_lines(&q, false, "medium");
    assert_eq!(k, strings(&["漢 字 ", "猫"]));
    assert!(r.is_empty());
    assert!(shows_source(true, &q));
    assert!(!shows_source(false, &q));
}

#[test]
fn vertical_centering_and_paddings() {
    assert_eq!(top_blank(24, 10), 7);
    assert_eq!(top_blank(5, 10), 1);
    assert_eq!(top_blank(10, 10), 1);
    assert_eq!(dynamic_paddings(true, 1, 3), (1, 3));
    assert_eq!(dynamic_paddings(false, 1, 3), (0, 0));
}

#[test]
fn sanitizing_twice_changes_nothing() {
    for name in ["Japanese::Core 2k", "--A--b--", "日本語 Deck", "x"] {
        let once = sanitize_deck_name(name);
        assert_eq!(sanitize_deck_name(&once), once);
    }
}

#[test]
fn cleaned_fields_are_trimmed_without_triple_newlines() {
    for raw in ["<div></div><div></div><div></div>a<br><br><br>b&nbsp;", "\n\n\n\nx\n\n\n", " <p>y</p> "] {
        let c = clean_field(raw);
        assert_eq!(c.trim(), c);
        assert!(!c.contains("\n\n\n"));
    }
    assert_eq!(clean_field("<div></div><div></div><div></div>a<br><br><br>b&nbsp;"), "a\n\nb");
}

#[test]
fn per_deck_decisions() {
    assert_eq!(sample_size(3), 3);
    assert_eq!(sample_size(25), 10);
    assert!(asks_to_overwrite(true, false));
    assert!(!asks_to_overwrite(true, true));
    assert!(!asks_to_overwrite(false, false));
}

#[test]
fn sanitized_name_empty_without_ascii_alnum() {
    assert_eq!(sanitize_deck_name("日本語::デッキ"), "");
    assert_eq!(sanitize_deck_name("日本語 N5"), "n5");
}

#[test]
fn ideographic_space_is_whitespace() {
    assert_eq!(prompt_answer("\u{3000}x\u{2003}", ""), "x");
    assert_eq!("\u{3000}x\u{2003}".trim(), "x");
}

#[test]
fn anki_notation_is_read_as_furigana() {
    for s in ["漢[かん]", "ab 字[じ)x] y", "漢(abc\n字[じ]"] {
        assert!(has_anki_ruby(s));
        assert!(has_ruby_markup(&anki_furigana_to_inline(s)));
    }
}

#[test]
fn deck_quote_file_for_an_import() {
    let mapping = FieldMapping {
        japanese: "Front".to_string(),
        translation: Some("Back".to_string()),
        furigana: None,
        romaji: None,
        source: None,
        deck_name: "My Deck".to_string(),
    };
    let notes = vec![note(&[("Front", "猫"), ("Back", "cat")]), note(&[("Front", ""), ("Back", "x")])];
    let (name, text, skipped) = deck_quote_file("My Deck", &notes, &mapping);
    assert_eq!(name, "my-deck.toml");
    assert_eq!(text, "[[quote]]\njapanese = \"猫\"\ntranslation = \"cat\"\nsource = \"My Deck\"\n\n");
    assert_eq!(skipped, 1);
}

#[test]
fn suggested_mode_after_import() {
    assert_eq!(suggested_mode(&strings(&["My Deck"])), Some("my-deck".to_string()));
    assert_eq!(suggested_mode(&strings(&["a", "b"])), None);
    assert_eq!(suggested_mode(&[]), None);
}

#[test]
fn quote_box_follows_the_settings() {
    let mut r = make_runtime_config(None, &empty_cli());
    r.show_translation = vec![TranslationMode::Furigana, TranslationMode::English];
    r.source = true;
    r.furigana_position = FuriganaPosition::Above;
    let q = quote("猫(ねこ)", Some("cat"), None, Some("src"));
    let (c, l) = quote_box(&r, &q);
    assert_eq!(c.text_lines, strings(&[" 猫"]));
    assert_eq!(c.furigana_lines, strings(&["ねこ"]));
    assert_eq!(c.translations, strings(&["cat"]));
    assert_eq!(c.source, Some("src".to_string()));
    assert!(c.show_source && c.furigana_above);
    assert_eq!((l.horizontal_padding, l.vertical_padding, l.width), (3, 1, 0));
    assert!(l.border && l.rounded_border && l.centered);
    assert!(is_animated(AnimationType::Slide, true));
    assert!(!is_animated(AnimationType::Slide, false));
    assert!(!is_animated(AnimationType::NoAnimation, true));
}
