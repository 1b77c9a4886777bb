# clipboard_replacer

A background utility that watches the clipboard and rewrites copied text: it strips
tracking parameters (uBlock Origin `removeparam` rules) from links, then applies literal
replacements and regular-expression rules from `config.toml`.

The logic is a library verified with Verus; the program around it is ordinary Rust.

- `src/text.rs` — character-level text operations (search, split, trim, replace,
  trailing punctuation, one-line truncation).
- `src/matcher.rs` — regular expressions through the `regex` crate.
- `src/ubo.rs` — parsing `removeparam` filter lists and removing parameters from links.
- `src/config.rs` — the configuration, its defaults, compiling rules, reloading.
- `src/pipeline.rs` — the whole rewrite of a clipboard text.
- `src/monitor.rs` — the clipboard polling state machine and its messages.
- `src/service.rs` — logging, retry and download schedules, file locations.
- `app/main.rs` — clipboard, files, network, logging and the Windows process lookup.
- `tests/` — tests of the library.
