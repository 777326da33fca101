//! Runtime configuration: built-in defaults, overridden by the user's
//! config file, overridden by command-line options.

use vstd::prelude::*;
use crate::cli::Cli;
use crate::text::string_views;

verus! {

/// What is shown under the Japanese text.
#[derive(Clone, Copy, Debug, PartialEq, Eq, Structural)]
pub enum TranslationMode {
    /// Nothing (`none` in the config file).
    NoTranslation,
    English,
    Romaji,
    Furigana,
}

/// Whether furigana are shown above or below the Japanese text.
#[derive(Clone, Copy, Debug, PartialEq, Eq, Structural)]
pub enum FuriganaPosition {
    Above,
    Below,
}

/// How the quote appears on screen.
#[derive(Clone, Copy, Debug, PartialEq, Eq, Structural)]
pub enum AnimationType {
    /// Drawn at once (`none`).
    NoAnimation,
    Typewriter,
    Scramble,
    Slide,
}

/// The user's config file.
pub struct FileConfig {
    pub display: Option<DisplayConfig>,
}

/// The `[display]` table of the config file.
pub struct DisplayConfig {
    pub horizontal_padding: Option<usize>,
    pub vertical_padding: Option<usize>,
    pub width: Option<usize>,
    pub show_translation: Option<TranslationMode>,
    pub translation_color: Option<String>,
    pub quote_color: Option<String>,
    pub font_size: Option<String>,
    pub bold: Option<bool>,
    pub border: Option<bool>,
    pub rounded_border: Option<bool>,
    pub border_color: Option<String>,
    pub source: Option<bool>,
    /// Quote files to draw from, by name.
    pub modes: Option<Vec<String>>,
    pub seed: Option<u64>,
    pub centered: Option<bool>,
    pub dynamic: Option<bool>,
    pub furigana_position: Option<FuriganaPosition>,
    pub animation: Option<AnimationType>,
    pub animation_duration_ms: Option<u64>,
}

/// The settings the quote is shown with.
pub struct RuntimeConfig {
    pub horizontal_padding: usize,
    pub vertical_padding: usize,
    /// Inner width of the box (0 = automatic).
    pub width: usize,
    /// The lines shown under the Japanese text, in order.
    pub show_translation: Vec<TranslationMode>,
    pub translation_color: String,
    pub quote_color: String,
    pub font_size: String,
    pub bold: bool,
    pub border: bool,
    pub rounded_border: bool,
    pub border_color: String,
    pub source: bool,
    /// Quote files to draw from, by name.
    pub modes: Vec<String>,
    /// Seed of the quote choice (0 = random).
    pub seed: u64,
    pub centered: bool,
    pub dynamic: bool,
    pub furigana_position: FuriganaPosition,
    pub animation: AnimationType,
    pub animation_duration_ms: u64,
}

fn copy_texts(v: &Vec<String>) -> (r: Vec<String>)
    ensures
        string_views(r@) == string_views(v@),
{
    let mut r: Vec<String> = Vec::new();
    let mut i: usize = 0;
    while i < v.len()
        invariant
            i <= v.len(),
            string_views(r@) == string_views(v@).take(i as int),
        decreases v.len() - i,
    {
        let c = v[i].clone();
        let ghost before = r@;
        r.push(c);
        assert(string_views(r@) =~= string_views(before).push(v@[i as int]@));
        i += 1;
        assert(string_views(v@).take(i as int) =~= string_views(v@).take(i - 1).push(v@[i - 1]@));
    }
    assert(string_views(v@).take(v.len() as int) =~= string_views(v@));
    r
}

/// The quote files drawn from by default: the five bundled ones.
pub open spec fn default_mode_names() -> Seq<Seq<char>> {
    seq!["proverb.toml"@, "haiku.toml"@, "anime.toml"@, "lyrics.toml"@, "yojijukugo.toml"@]
}

/// The texts of the default settings.
pub open spec fn default_texts(r: RuntimeConfig) -> bool {
    &&& r.translation_color@ == "dim"@
    &&& r.quote_color@ == "white"@
    &&& r.border_color@ == "white"@
    &&& r.font_size@ == "medium"@
}

/// The built-in defaults.
pub open spec fn is_default(r: RuntimeConfig) -> bool {
    &&& r.horizontal_padding == 3
    &&& r.vertical_padding == 1
    &&& r.width == 0
    &&& r.show_translation@ == seq![TranslationMode::English]
    &&& default_texts(r)
    &&& r.bold
    &&& r.border
    &&& r.rounded_border
    &&& !r.source
    &&& string_views(r.modes@) == default_mode_names()
    &&& r.seed == 0
    &&& r.centered
    &&& !r.dynamic
    &&& r.furigana_position == FuriganaPosition::Below
    &&& r.animation == AnimationType::NoAnimation
    &&& r.animation_duration_ms == 1500
}

impl Default for RuntimeConfig {
    /// The built-in defaults; the quote files are the five bundled ones.
    fn default() -> (r: Self)
        ensures
            is_default(r),
    {
        let modes = default_modes();
        let mut show_translation = Vec::new();
        show_translation.push(TranslationMode::English);
        RuntimeConfig {
            horizontal_padding: 3,
            vertical_padding: 1,
            width: 0,
            show_translation,
            translation_color: String::from_str("dim"),
            quote_color: String::from_str("white"),
            font_size: String::from_str("medium"),
            bold: true,
            border: true,
            rounded_border: true,
            border_color: String::from_str("white"),
            source: false,
            modes,
            seed: 0,
            centered: true,
            dynamic: false,
            furigana_position: FuriganaPosition::Below,
            animation: AnimationType::NoAnimation,
            animation_duration_ms: 1500,
        }
    }
}

} // verus!

verus! {

/// A setting from the `[display]` table of the config file, if given there.
pub open spec fn from_file<T>(user: Option<FileConfig>, pick: spec_fn(DisplayConfig) -> Option<T>) -> Option<T> {
    match user {
        Some(u) => match u.display {
            Some(d) => pick(d),
            None => None,
        },
        None => None,
    }
}

/// The command-line value if given, else the file's, else the default.
pub open spec fn layered<T>(cli: Option<T>, file: Option<T>, default: T) -> T {
    match cli {
        Some(c) => c,
        None => match file {
            Some(f) => f,
            None => default,
        },
    }
}

/// The config-file mode that a command-line translation mode stands for.
pub open spec fn mode_of(m: crate::cli::TranslationMode) -> TranslationMode {
    match m {
        crate::cli::TranslationMode::NoTranslation => TranslationMode::NoTranslation,
        crate::cli::TranslationMode::English => TranslationMode::English,
        crate::cli::TranslationMode::Romaji => TranslationMode::Romaji,
        crate::cli::TranslationMode::Furigana => TranslationMode::Furigana,
    }
}

pub open spec fn position_of(p: crate::cli::FuriganaPosition) -> FuriganaPosition {
    match p {
        crate::cli::FuriganaPosition::Above => FuriganaPosition::Above,
        crate::cli::FuriganaPosition::Below => FuriganaPosition::Below,
    }
}

pub open spec fn text_of(o: Option<String>) -> Option<Seq<char>> {
    match o {
        Some(s) => Some(s@),
        None => None,
    }
}

/// The translation modes the command line gives, if any.
pub open spec fn cli_modes(cli: &Cli) -> Option<Seq<TranslationMode>> {
    match cli.translation {
        Some(v) => Some(v@.map_values(|m: crate::cli::TranslationMode| mode_of(m))),
        None => None,
    }
}

/// The translation modes the config file gives, if any.
pub open spec fn file_modes(user: Option<FileConfig>) -> Option<Seq<TranslationMode>> {
    match from_file(user, |d: DisplayConfig| d.show_translation) {
        Some(m) => Some(seq![m]),
        None => None,
    }
}

/// The texts of a list of strings, if given.
pub open spec fn texts_of(o: Option<Vec<String>>) -> Option<Seq<Seq<char>>> {
    match o {
        Some(v) => Some(string_views(v@)),
        None => None,
    }
}

fn map_cli_mode(m: crate::cli::TranslationMode) -> (r: TranslationMode)
    ensures
        r == mode_of(m),
{
    match m {
        crate::cli::TranslationMode::NoTranslation => TranslationMode::NoTranslation,
        crate::cli::TranslationMode::English => TranslationMode::English,
        crate::cli::TranslationMode::Romaji => TranslationMode::Romaji,
        crate::cli::TranslationMode::Furigana => TranslationMode::Furigana,
    }
}

/// Combines the built-in defaults, the user's config file and the command
/// line: each setting comes from the command line when given there, else
/// from the config file's `[display]` table when given there, else from the
/// defaults.
pub fn make_runtime_config(user: Option<FileConfig>, cli: &Cli) -> (r: RuntimeConfig)
    ensures
        r.horizontal_padding == layered(cli.horizontal_padding, from_file(user, |d: DisplayConfig| d.horizontal_padding), 3),
        r.vertical_padding == layered(cli.vertical_padding, from_file(user, |d: DisplayConfig| d.vertical_padding), 1),
        r.width == layered(cli.width, from_file(user, |d: DisplayConfig| d.width), 0),
        r.show_translation@ == layered(cli_modes(cli), file_modes(user), seq![TranslationMode::English]),
        r.translation_color@ == layered(text_of(cli.translation_color), text_of(from_file(user, |d: DisplayConfig| d.translation_color)), "dim"@),
        r.quote_color@ == layered(text_of(cli.quote_color), text_of(from_file(user, |d: DisplayConfig| d.quote_color)), "white"@),
        r.font_size@ == layered(None, text_of(from_file(user, |d: DisplayConfig| d.font_size)), "medium"@),
        r.bold == layered(cli.bold, from_file(user, |d: DisplayConfig| d.bold), true),
        r.border == layered(cli.border, from_file(user, |d: DisplayConfig| d.border), true),
        r.rounded_border == layered(cli.rounded_border, from_file(user, |d: DisplayConfig| d.rounded_border), true),
        r.border_color@ == layered(text_of(cli.border_color), text_of(from_file(user, |d: DisplayConfig| d.border_color)), "white"@),
        r.source == layered(cli.source, from_file(user, |d: DisplayConfig| d.source), false),
        string_views(r.modes@) == layered(
            texts_of(cli.modes),
            texts_of(from_file(user, |d: DisplayConfig| d.modes)),
            default_mode_names(),
        ),
        r.seed == layered(cli.seed, from_file(user, |d: DisplayConfig| d.seed), 0),
        r.centered == layered(cli.centered, from_file(user, |d: DisplayConfig| d.centered), true),
        r.dynamic == layered(cli.dynamic, from_file(user, |d: DisplayConfig| d.dynamic), false),
        r.furigana_position == layered(
            match cli.furigana_position {
                Some(p) => Some(position_of(p)),
                None => None,
            },
            from_file(user, |d: DisplayConfig| d.furigana_position),
            FuriganaPosition::Below,
        ),
        r.animation == layered(None, from_file(user, |d: DisplayConfig| d.animation), AnimationType::NoAnimation),
        r.animation_duration_ms == layered(None, from_file(user, |d: DisplayConfig| d.animation_duration_ms), 1500),
{
    let f = file_display(user);
    let show_translation = match &cli.translation {
        Some(modes) => map_cli_modes(modes),
        None => match f.show_translation {
            Some(m) => {
                let mut v = Vec::new();
                v.push(m);
                v
            },
            None => {
                let mut v = Vec::new();
                v.push(TranslationMode::English);
                v
            },
        },
    };
    let modes = match &cli.modes {
        Some(m) => copy_texts(m),
        None => match f.modes {
            Some(m) => m,
            None => default_modes(),
        },
    };
    let furigana_position = pick(
        match cli.furigana_position {
            Some(crate::cli::FuriganaPosition::Above) => Some(FuriganaPosition::Above),
            Some(crate::cli::FuriganaPosition::Below) => Some(FuriganaPosition::Below),
            None => None,
        },
        f.furigana_position,
        FuriganaPosition::Below,
    );
    RuntimeConfig {
        horizontal_padding: pick(cli.horizontal_padding, f.horizontal_padding, 3),
        vertical_padding: pick(cli.vertical_padding, f.vertical_padding, 1),
        width: pick(cli.width, f.width, 0),
        show_translation,
        translation_color: pick_text(&cli.translation_color, f.translation_color, "dim"),
        quote_color: pick_text(&cli.quote_color, f.quote_color, "white"),
        font_size: pick_text(&None, f.font_size, "medium"),
        bold: pick(cli.bold, f.bold, true),
        border: pick(cli.border, f.border, true),
        rounded_border: pick(cli.rounded_border, f.rounded_border, true),
        border_color: pick_text(&cli.border_color, f.border_color, "white"),
        source: pick(cli.source, f.source, false),
        modes,
        seed: pick(cli.seed, f.seed, 0),
        centered: pick(cli.centered, f.centered, true),
        dynamic: pick(cli.dynamic, f.dynamic, false),
        furigana_position,
        animation: pick(None, f.animation, AnimationType::NoAnimation),
        animation_duration_ms: pick(None, f.animation_duration_ms, 1500),
    }
}

fn pick<T>(cli: Option<T>, file: Option<T>, default: T) -> (r: T)
    ensures
        r == layered(cli, file, default),
{
    match cli {
        Some(c) => c,
        None => match file {
            Some(f) => f,
            None => default,
        },
    }
}

fn pick_text(cli: &Option<String>, file: Option<String>, default: &str) -> (r: String)
    ensures
        r@ == layered(text_of(*cli), text_of(file), default@),
{
    match cli {
        Some(c) => c.clone(),
        None => match file {
            Some(f) => f,
            None => default.to_string(),
        },
    }
}

fn map_cli_modes(modes: &Vec<crate::cli::TranslationMode>) -> (r: Vec<TranslationMode>)
    ensures
        r@ == modes@.map_values(|m: crate::cli::TranslationMode| mode_of(m)),
{
    let mut v: Vec<TranslationMode> = Vec::new();
    let mut i: usize = 0;
    while i < modes.len()
        invariant
            i <= modes.len(),
            v@ == modes@.take(i as int).map_values(|m: crate::cli::TranslationMode| mode_of(m)),
        decreases modes.len() - i,
    {
        v.push(map_cli_mode(modes[i]));
        i += 1;
        assert(v@ =~= modes@.take(i as int).map_values(|m: crate::cli::TranslationMode| mode_of(m)));
    }
    assert(modes@.take(modes.len() as int) == modes@);
    v
}

fn default_modes() -> (r: Vec<String>)
    ensures
        string_views(r@) == default_mode_names(),
{
    let mut modes: Vec<String> = Vec::new();
    modes.push(String::from_str("proverb.toml"));
    modes.push(String::from_str("haiku.toml"));
    modes.push(String::from_str("anime.toml"));
    modes.push(String::from_str("lyrics.toml"));
    modes.push(String::from_str("yojijukugo.toml"));
    assert(string_views(modes@) =~= default_mode_names());
    modes
}

/// The `[display]` table of the config file, or a table that sets nothing.
fn file_display(user: Option<FileConfig>) -> (r: DisplayConfig)
    ensures
        r.horizontal_padding == from_file(user, |d: DisplayConfig| d.horizontal_padding),
        r.vertical_padding == from_file(user, |d: DisplayConfig| d.vertical_padding),
        r.width == from_file(user, |d: DisplayConfig| d.width),
        r.show_translation == from_file(user, |d: DisplayConfig| d.show_translation),
        r.translation_color == from_file(user, |d: DisplayConfig| d.translation_color),
        r.quote_color == from_file(user, |d: DisplayConfig| d.quote_color),
        r.font_size == from_file(user, |d: DisplayConfig| d.font_size),
        r.bold == from_file(user, |d: DisplayConfig| d.bold),
        r.border == from_file(user, |d: DisplayConfig| d.border),
        r.rounded_border == from_file(user, |d: DisplayConfig| d.rounded_border),
        r.border_color == from_file(user, |d: DisplayConfig| d.border_color),
        r.source == from_file(user, |d: DisplayConfig| d.source),
        r.modes == from_file(user, |d: DisplayConfig| d.modes),
        r.seed == from_file(user, |d: DisplayConfig| d.seed),
        r.centered == from_file(user, |d: DisplayConfig| d.centered),
        r.dynamic == from_file(user, |d: DisplayConfig| d.dynamic),
        r.furigana_position == from_file(user, |d: DisplayConfig| d.furigana_position),
        r.animation == from_file(user, |d: DisplayConfig| d.animation),
        r.animation_duration_ms == from_file(user, |d: DisplayConfig| d.animation_duration_ms),
{
    match user {
        Some(u) => match u.display {
            Some(d) => d,
            None => empty_display(),
        },
        None => empty_display(),
    }
}

fn empty_display() -> (r: DisplayConfig)
    ensures
        r.horizontal_padding is None && r.vertical_padding is None && r.width is None,
        r.show_translation is None && r.translation_color is None && r.quote_color is None,
        r.font_size is None && r.bold is None && r.border is None && r.rounded_border is None,
        r.border_color is None && r.source is None && r.modes is None && r.seed is None,
        r.centered is None && r.dynamic is None && r.furigana_position is None,
        r.animation is None && r.animation_duration_ms is None,
{
    DisplayConfig {
        horizontal_padding: None,
        vertical_padding: None,
        width: None,
        show_translation: None,
        translation_color: None,
        quote_color: None,
        font_size: None,
        bold: None,
        border: None,
        rounded_border: None,
        border_color: None,
        source: None,
        modes: None,
        seed: None,
        centered: None,
        dynamic: None,
        furigana_position: None,
        animation: None,
        animation_duration_ms: None,
    }
}

} // verus!
