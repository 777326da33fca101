use kotofetch::anim::{
    animation_frame, anim_typewriter, checked_animation_frame, collect_chars, jap_pool, latin_pool,
    plan_animation,
};
use kotofetch::boxed::{box_height, box_lines, boxed_lines, BoxContent, BoxLayout};
use kotofetch::config::AnimationType;
use kotofetch::layout::{align_in_box, blank_line, center_in_terminal, pad_to_center, Span, Tone};
use kotofetch::ruby::{format_ruby, has_ruby_markup, is_kanji_display, parse_ruby, strip_ruby, Segment};
use kotofetch::style::{
    checked_color_from_hex, color_from_hex, rgb_to_ansi256, simulate_font_size, BasicColor,
    ColorSpec,
};
use rand::rngs::StdRng;
use rand::SeedableRng;

fn strings(v: &[&str]) -> Vec<String> {
    v.iter().map(|s| s.to_string()).collect()
}

fn row(spans: &[Span]) -> Vec<(Tone, String)> {
    spans.iter().map(|s| (s.tone, s.text.clone())).collect()
}

fn content(text: &[&str], trans: &[&str], source: Option<&str>, furi: &[&str]) -> BoxContent {
    BoxContent {
        text_lines: strings(text),
        translations: strings(trans),
        source: source.map(|s| s.to_string()),
        show_source: source.is_some(),
        furigana_lines: strings(furi),
        furigana_above: false,
    }
}

#[test]
fn font_size_spreads_characters() {
    assert_eq!(simulate_font_size("日本", "small"), "日本");
    assert_eq!(simulate_font_size("日本", "medium"), "日 本");
    assert_eq!(simulate_font_size("日本", "large"), "日  本");
    assert_eq!(simulate_font_size("日本", "huge"), "日本");
    assert_eq!(simulate_font_size("ab\ncd", "medium"), "a b \nc d");
}

#[test]
fn rgb_maps_to_the_color_cube() {
    assert_eq!(rgb_to_ansi256(0, 0, 0), 16);
    assert_eq!(rgb_to_ansi256(255, 255, 255), 231);
    assert_eq!(rgb_to_ansi256(255, 0, 0), 196);
    assert_eq!(rgb_to_ansi256(128, 128, 128), 145);
    assert_eq!(rgb_to_ansi256(0, 51, 0), 22);
}

#[test]
fn colors_by_name_hex_and_fallback() {
    assert_eq!(color_from_hex("red"), ColorSpec::Basic(BasicColor::Red));
    assert_eq!(color_from_hex("CYAN"), ColorSpec::Basic(BasicColor::Cyan));
    assert_eq!(color_from_hex("dim"), ColorSpec::Dim);
    assert_eq!(color_from_hex("#FF0000"), ColorSpec::Palette(196));
    assert_eq!(color_from_hex("#888888"), ColorSpec::Palette(145));
    assert_eq!(color_from_hex("lightgray"), ColorSpec::Dim);
    assert_eq!(color_from_hex("Grey"), ColorSpec::Dim);
    assert_eq!(color_from_hex("#12345"), ColorSpec::Plain);
    assert_eq!(color_from_hex("#gg0000"), ColorSpec::Plain);
    assert_eq!(color_from_hex("nonsense"), ColorSpec::Plain);
}

#[test]
fn hex_cut_inside_a_character_is_refused() {
    assert_eq!(checked_color_from_hex("#aéaé"), None);
    assert_eq!(checked_color_from_hex("#00ff00"), Some(ColorSpec::Palette(46)));
}

#[test]
fn ruby_markup_is_parsed() {
    let segs = parse_ruby("漢字(かんじ)です");
    assert_eq!(segs.len(), 2);
    match &segs[0] {
        Segment::Ruby { base, reading } => {
            assert_eq!(base, "漢字");
            assert_eq!(reading, "かんじ");
        }
        _ => panic!("expected ruby"),
    }
    assert!(matches!(&segs[1], Segment::Plain(t) if t == "です"));
    assert!(has_ruby_markup("漢字(かんじ)です"));
    assert!(!has_ruby_markup("hello (world)"));
    assert_eq!(strip_ruby("漢字(かんじ)です"), "漢字です");
    assert!(is_kanji_display('漢'));
    assert!(!is_kanji_display('か'));
}

#[test]
fn unclosed_reading_stays_plain() {
    assert_eq!(strip_ruby("漢(かん"), "漢(かん");
    assert!(!has_ruby_markup("漢(かん"));
}

#[test]
fn text_without_ruby_is_unchanged_by_strip() {
    assert_eq!(strip_ruby("ただのテキスト"), "ただのテキスト");
}

#[test]
fn ruby_layout_centers_base_over_reading() {
    let segs = parse_ruby("漢字(かんじ)");
    let (kanji, reading) = format_ruby(&segs);
    assert_eq!(kanji, " 漢字");
    assert_eq!(reading, "かんじ");
    let segs = parse_ruby("猫(ねこ)だ");
    let (kanji, reading) = format_ruby(&segs);
    assert_eq!(kanji, " 猫 だ");
    assert_eq!(reading, "ねこ");
}

#[test]
fn lines_align_in_the_box() {
    assert_eq!(align_in_box("ab", 6, true), "  ab  ");
    assert_eq!(align_in_box("ab", 5, true), " ab  ");
    assert_eq!(align_in_box("ab", 6, false), "ab    ");
    assert_eq!(align_in_box("abcdef", 4, true), "abcdef");
}

#[test]
fn blank_lines_with_and_without_border() {
    let b = blank_line(4, 1, true);
    assert_eq!(
        row(&b),
        vec![
            (Tone::Border, "│".to_string()),
            (Tone::Plain, "      ".to_string()),
            (Tone::Border, "│".to_string())
        ]
    );
    let b = blank_line(4, 1, false);
    assert_eq!(row(&b), vec![(Tone::Plain, "     ".to_string())]);
}

#[test]
fn centering_in_the_terminal() {
    assert_eq!(center_in_terminal("x", 10, true, Some(20)), "     x");
    assert_eq!(center_in_terminal("x", 10, false, Some(20)), "x");
    assert_eq!(center_in_terminal("x", 10, true, None), "x");
    assert_eq!(center_in_terminal("x", 20, true, Some(20)), "x");
    assert!(pad_to_center("x", 10, false) == "x");
}

#[test]
fn small_bordered_box() {
    let c = content(&["猫"], &[], None, &[]);
    let layout = BoxLayout {
        horizontal_padding: 1,
        vertical_padding: 0,
        width: 0,
        border: true,
        rounded_border: true,
        centered: false,
    };
    let rows = box_lines(&c, layout, None);
    assert_eq!(rows.len(), 3);
    assert_eq!(row(&rows[0]), vec![(Tone::Border, "╭────╮".to_string())]);
    assert_eq!(
        row(&rows[1]),
        vec![
            (Tone::Plain, "".to_string()),
            (Tone::Border, "│".to_string()),
            (Tone::Plain, " ".to_string()),
            (Tone::Japanese, "猫".to_string()),
            (Tone::Plain, " ".to_string()),
            (Tone::Border, "│".to_string())
        ]
    );
    assert_eq!(row(&rows[2]), vec![(Tone::Border, "╰────╯".to_string())]);
    assert_eq!(box_height(&c, layout), 3);
}

#[test]
fn square_corners_without_rounding() {
    let c = content(&["ab"], &[], None, &[]);
    let layout = BoxLayout {
        horizontal_padding: 0,
        vertical_padding: 0,
        width: 0,
        border: true,
        rounded_border: false,
        centered: false,
    };
    let rows = box_lines(&c, layout, None);
    assert_eq!(row(&rows[0]), vec![(Tone::Border, "┌──┐".to_string())]);
    assert_eq!(row(&rows[2]), vec![(Tone::Border, "└──┘".to_string())]);
}

#[test]
fn box_with_translation_source_and_centering() {
    let c = content(&["abc"], &["xy"], Some("src"), &[]);
    let layout = BoxLayout {
        horizontal_padding: 0,
        vertical_padding: 1,
        width: 10,
        border: false,
        rounded_border: true,
        centered: true,
    };
    let rows = box_lines(&c, layout, Some(20));
    let pad = " ".repeat(5);
    let blank = vec![(Tone::Plain, pad.clone()), (Tone::Plain, " ".repeat(10))];
    assert_eq!(rows.len(), 7);
    assert_eq!(row(&rows[0]), blank);
    assert_eq!(
        row(&rows[1]),
        vec![
            (Tone::Plain, pad.clone()),
            (Tone::Plain, "".to_string()),
            (Tone::Japanese, "   abc    ".to_string())
        ]
    );
    assert_eq!(row(&rows[2]), blank);
    assert_eq!(
        row(&rows[3]),
        vec![
            (Tone::Plain, pad.clone()),
            (Tone::Plain, "".to_string()),
            (Tone::Translation, "    xy    ".to_string())
        ]
    );
    assert_eq!(row(&rows[4]), blank);
    assert_eq!(
        row(&rows[5]),
        vec![
            (Tone::Plain, pad.clone()),
            (Tone::Plain, "".to_string()),
            (Tone::Source, "  - src   ".to_string())
        ]
    );
    assert_eq!(row(&rows[6]), blank);
    assert_eq!(box_height(&c, layout), 7);
}

#[test]
fn narrow_terminal_narrows_and_wraps() {
    let c = content(&["aaa bbb"], &[], None, &[]);
    let layout = BoxLayout {
        horizontal_padding: 1,
        vertical_padding: 0,
        width: 0,
        border: true,
        rounded_border: true,
        centered: false,
    };
    let rows = box_lines(&c, layout, Some(7));
    assert_eq!(rows.len(), 4);
    assert_eq!(row(&rows[1])[3], (Tone::Japanese, "aaa".to_string()));
    assert_eq!(row(&rows[2])[3], (Tone::Japanese, "bbb".to_string()));
}

#[test]
fn furigana_below_and_above() {
    let mut c = content(&["漢字"], &[], None, &["かんじ"]);
    let layout = BoxLayout {
        horizontal_padding: 0,
        vertical_padding: 0,
        width: 0,
        border: false,
        rounded_border: true,
        centered: true,
    };
    let rows = box_lines(&c, layout, None);
    assert_eq!(rows.len(), 3);
    assert_eq!(row(&rows[0])[2], (Tone::Japanese, " 漢字 ".to_string()));
    assert_eq!(row(&rows[1]), vec![(Tone::Plain, "".to_string()), (Tone::Plain, "      ".to_string())]);
    assert_eq!(row(&rows[2])[2], (Tone::Translation, " かんじ".to_string()));
    c.furigana_above = true;
    let rows = box_lines(&c, layout, None);
    assert_eq!(row(&rows[0])[2], (Tone::Translation, " かんじ".to_string()));
    assert_eq!(row(&rows[2])[2], (Tone::Japanese, " 漢字 ".to_string()));
}

#[test]
fn boxed_lines_reads_the_terminal() {
    let c = content(&["ab"], &[], None, &[]);
    let layout = BoxLayout {
        horizontal_padding: 1,
        vertical_padding: 0,
        width: 0,
        border: true,
        rounded_border: true,
        centered: false,
    };
    let rows = boxed_lines(&c, layout).expect("fits");
    assert_eq!(rows.len(), 3);
}

#[test]
fn typewriter_reveals_characters_in_order() {
    let lines = strings(&["abc", "de"]);
    assert_eq!(anim_typewriter(&lines, 4), strings(&["abc", "d "]));
    assert_eq!(anim_typewriter(&lines, 0), strings(&["   ", "  "]));
    assert_eq!(anim_typewriter(&lines, 9), strings(&["abc", "de"]));
    assert_eq!(anim_typewriter(&strings(&["猫だ"]), 1), strings(&["猫  "]));
}

#[test]
fn collected_characters_skip_newlines() {
    let out = collect_chars(&strings(&["aé\n", "b"]));
    assert_eq!(out, vec![(0, 0, 'a', 1), (0, 1, 'é', 1), (1, 0, 'b', 1)]);
    let out = collect_chars(&strings(&["猫"]));
    assert_eq!(out, vec![(0, 0, '猫', 2)]);
}

#[test]
fn animation_plans() {
    let c = content(&["abc"], &["de"], None, &[]);
    let p = plan_animation(AnimationType::NoAnimation, 1500, &c);
    assert_eq!((p.frame_count, p.frame_delay_ms), (0, 0));
    let p = plan_animation(AnimationType::Typewriter, 1500, &c);
    assert_eq!((p.frame_count, p.frame_delay_ms, p.n_total, p.n_jap_chars), (5, 200, 5, 3));
    let p = plan_animation(AnimationType::Scramble, 1500, &c);
    assert_eq!((p.frame_count, p.frame_delay_ms), (40, 37));
    let p = plan_animation(AnimationType::Slide, 1500, &c);
    assert_eq!((p.frame_count, p.frame_delay_ms), (30, 50));
    let p = plan_animation(AnimationType::Slide, 100, &c);
    assert_eq!(p.frame_delay_ms, 16);
    let empty = content(&[], &[], None, &[]);
    let p = plan_animation(AnimationType::Typewriter, 1500, &empty);
    assert_eq!((p.n_total, p.frame_count), (1, 1));
}

#[test]
fn pools_of_scramble_characters() {
    let kana = jap_pool();
    assert_eq!(kana.len(), 172);
    assert_eq!(kana[0], 'ぁ');
    assert_eq!(kana[85], 'ゖ');
    assert_eq!(kana[86], 'ァ');
    assert_eq!(kana[171], 'ヶ');
    let latin = latin_pool();
    assert_eq!(latin.len(), 62);
    assert_eq!(latin[0], 'a');
    assert_eq!(latin[26], 'A');
    assert_eq!(latin[61], '9');
}

#[test]
fn typewriter_frames() {
    let c = content(&["abc"], &["de"], Some("src"), &[]);
    let plan = plan_animation(AnimationType::Typewriter, 1500, &c);
    let mut rng = StdRng::seed_from_u64(7);
    let kana = jap_pool();
    let latin = latin_pool();
    let f = animation_frame(AnimationType::Typewriter, &plan, 2, &c, &mut rng, &kana, &latin);
    assert_eq!(f.text_lines, strings(&["ab "]));
    assert_eq!(f.translations, strings(&["  "]));
    assert_eq!(f.source, Some("   ".to_string()));
    let f = animation_frame(AnimationType::Typewriter, &plan, 4, &c, &mut rng, &kana, &latin);
    assert_eq!(f.text_lines, strings(&["abc"]));
    assert_eq!(f.translations, strings(&["d "]));
    let f = animation_frame(AnimationType::Typewriter, &plan, 5, &c, &mut rng, &kana, &latin);
    assert_eq!(f.text_lines, strings(&["abc"]));
    assert_eq!(f.translations, strings(&["de"]));
    assert_eq!(f.source, Some("src".to_string()));
}

#[test]
fn slide_frames() {
    let c = content(&["abcd"], &[], None, &[]);
    let plan = plan_animation(AnimationType::Slide, 1500, &c);
    let mut rng = StdRng::seed_from_u64(7);
    let (kana, latin) = (jap_pool(), latin_pool());
    let f = animation_frame(AnimationType::Slide, &plan, 0, &c, &mut rng, &kana, &latin);
    assert_eq!(f.text_lines, strings(&["    "]));
    let f = animation_frame(AnimationType::Slide, &plan, 15, &c, &mut rng, &kana, &latin);
    assert_eq!(f.text_lines, strings(&["  cd"]));
    let f = animation_frame(AnimationType::Slide, &plan, 30, &c, &mut rng, &kana, &latin);
    assert_eq!(f.text_lines, strings(&["abcd"]));
}

#[test]
fn scramble_frames_settle_on_the_quote() {
    let c = content(&["猫 だ"], &["a cat"], None, &[]);
    let plan = plan_animation(AnimationType::Scramble, 1500, &c);
    let mut rng = StdRng::seed_from_u64(3);
    let (kana, latin) = (jap_pool(), latin_pool());
    let f = animation_frame(AnimationType::Scramble, &plan, 0, &c, &mut rng, &kana, &latin);
    let chars: Vec<char> = f.text_lines[0].chars().collect();
    assert!(kana.contains(&chars[0]));
    assert_eq!(chars[1], ' ');
    assert!(kana.contains(&chars[2]));
    let t: Vec<char> = f.translations[0].chars().collect();
    assert!(latin.contains(&t[0]));
    assert_eq!(t[1], ' ');
    let last = animation_frame(AnimationType::Scramble, &plan, 40, &c, &mut rng, &kana, &latin);
    assert_eq!(last.text_lines, strings(&["猫 だ"]));
    assert_eq!(last.translations, strings(&["a cat"]));
    let checked =
        checked_animation_frame(AnimationType::Scramble, &plan, 40, &c, &mut rng, &kana, &latin);
    assert_eq!(checked.map(|f| f.text_lines), Some(strings(&["猫 だ"])));
}

#[test]
fn furigana_typed_along_with_japanese() {
    let c = content(&["漢字"], &[], None, &["かんじ"]);
    let plan = plan_animation(AnimationType::Typewriter, 1500, &c);
    let mut rng = StdRng::seed_from_u64(1);
    let (kana, latin) = (jap_pool(), latin_pool());
    let f = animation_frame(AnimationType::Typewriter, &plan, 1, &c, &mut rng, &kana, &latin);
    assert_eq!(f.text_lines, strings(&["漢  "]));
    assert_eq!(f.furigana_lines, strings(&["か    "]));
}

#[test]
fn box_too_wide_for_usize_is_refused() {
    let c = content(&["ab"], &[], None, &[]);
    let layout = BoxLayout {
        horizontal_padding: usize::MAX / 2,
        vertical_padding: 0,
        width: 0,
        border: true,
        rounded_border: true,
        centered: false,
    };
    assert!(boxed_lines(&c, layout).is_none());
}
