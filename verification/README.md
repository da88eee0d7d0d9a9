# anker

A strongly-typed Rust library for [AnkiConnect](https://foosoft.net/projects/anki-connect/),
written in Verus: the library (`src/`) is verified, the HTTP client around it
(`app/`) is ordinary Rust.

## Layout

- `src/notes.rs` – note payloads, the note requests, and the text helpers:
  `format_cloze`, `format_obsidian`, `typst_inline`/`typst_block`,
  `mathjax_inline`/`mathjax_block`, with the laws they obey (cloze
  formatting is idempotent and leaves existing clozes alone; Obsidian math
  becomes MathJax math).
- `src/markdown.rs` – Markdown to Anki HTML through `pulldown_cmark`, with math
  rewritten to MathJax, and the Typst variant that takes Pandoc's output.
- `src/client.rs`, `src/json.rs` – the request envelope, its JSON model, the
  choice of the endpoint URL, and what a reply comes to.
- `src/cards.rs`, `src/decks.rs`, `src/gui.rs`, `src/media.rs`,
  `src/models.rs` – the requests of each group of actions.
- `src/text.rs` – character-level helpers (searching, trimming, decimals).
- `app/` – `AnkiClient` with `reqwest`, the async action methods, decoding of
  replies with `serde`, running Pandoc, and `launch_anki`.
- `tests/` – tests of the library.
