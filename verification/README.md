# kotofetch

A small terminal program that shows a Japanese quote in a box, with
translations, furigana and an optional intro animation, and that imports
Anki decks as quote files.

The library in `src/` holds the logic, verified with Verus:

- `clean`, `furigana`, `anki`, `decks`, `toml_out`: cleaning Anki fields,
  rewriting `kanji[reading]` as `kanji(reading)`, field mapping, note
  conversion, deck selection and the quote files an import writes;
- `config`: the runtime settings, command line over config file over defaults;
- `ruby`, `style`, `layout`, `boxed`: ruby markup, colors, and every row of
  the quote box;
- `anim`, `render`: animation frames, and which quote and which lines are shown.

Display widths (`unicode-width`), line wrapping (`textwrap`), the terminal's
size (`term_size`) and random numbers (`rand`) come from their crates through
a few trusted wrappers, whose contracts state what those crates document.

`app/` is the program around it: argument parsing, the config and quote
files, AnkiConnect, and printing.
