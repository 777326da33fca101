//! Command-line options of the program, as plain data.

use vstd::prelude::*;

verus! {

/// A filesystem path, carried through the library unchanged.
#[verifier::external_type_specification]
#[verifier::external_body]
pub struct ExPathBuf(std::path::PathBuf);

/// The shell a completion script is generated for.
#[verifier::external_type_specification]
#[verifier::external_body]
pub struct ExShell(clap_complete::Shell);

/// Options of the `kotofetch` command.
pub struct Cli {
    pub command: Option<Commands>,
    /// Path to the config file (TOML).
    pub config: Option<std::path::PathBuf>,
    pub horizontal_padding: Option<usize>,
    pub vertical_padding: Option<usize>,
    /// Override width (0 = automatic).
    pub width: Option<usize>,
    /// Translation modes, in the order given.
    pub translation: Option<Vec<TranslationMode>>,
    pub translation_color: Option<String>,
    pub quote_color: Option<String>,
    pub bold: Option<bool>,
    pub border: Option<bool>,
    pub rounded_border: Option<bool>,
    pub border_color: Option<String>,
    pub source: Option<bool>,
    /// Quote files to draw from.
    pub modes: Option<Vec<String>>,
    /// A specific quote by index (0-based).
    pub index: Option<usize>,
    /// Seed for random selection (0 = random).
    pub seed: Option<u64>,
    pub centered: Option<bool>,
    pub dynamic: Option<bool>,
    pub furigana_position: Option<FuriganaPosition>,
}

/// Subcommands.
pub enum Commands {
    /// Import quotes from external sources.
    Init { source: InitSource },
    /// Output the completion script.
    Completion { shell: clap_complete::Shell },
}

/// Sources that quotes can be imported from.
pub enum InitSource {
    /// Import Anki decks via AnkiConnect.
    Anki(AnkiArgs),
}

/// Options of `kotofetch init anki`.
pub struct AnkiArgs {
    /// AnkiConnect URL.
    pub url: String,
    /// Deck names to import (skips the interactive deck picker).
    pub deck: Vec<String>,
    pub japanese_field: Option<String>,
    pub translation_field: Option<String>,
    /// Field with Anki furigana markup (used if the japanese field has none).
    pub furigana_field: Option<String>,
    pub romaji_field: Option<String>,
    pub source_field: Option<String>,
    /// Output directory.
    pub output_dir: Option<std::path::PathBuf>,
    /// Skip all prompts; use heuristic field mapping and overwrite files.
    pub yes: bool,
}

/// Translation modes that can be chosen on the command line.
#[derive(Clone, Copy, Debug, PartialEq, Eq, Structural)]
pub enum TranslationMode {
    /// No translation line (`none` on the command line).
    NoTranslation,
    English,
    Romaji,
    Furigana,
}

/// Whether furigana are shown above or below the Japanese text.
#[derive(Clone, Copy, Debug, PartialEq, Eq, Structural)]
pub enum FuriganaPosition {
    Above,
    Below,
}

} // verus!
