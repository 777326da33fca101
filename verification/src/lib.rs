//! Quotes in Japanese for the terminal: field cleaning and furigana handling
//! for Anki imports, runtime configuration, and the layout of the quote box.

pub mod text;
pub mod furigana;
pub mod clean;
pub mod cli;
pub mod anki;
pub mod toml_out;
pub mod decks;
pub mod config;
pub mod widths;
pub mod ruby;
pub mod style;
pub mod layout;
pub mod boxed;
pub mod random;
pub mod anim;
pub mod render;
