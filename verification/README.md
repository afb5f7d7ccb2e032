# OBS Overlay Exporter

A desktop tool that turns a scene of an OBS Studio scene collection (`.json`)
into a self-contained HTML overlay folder: an `index.html` that places every
source of the scene as OBS does, the scene's local media copied under
`assets/`, and Google Fonts stand-ins for Windows fonts downloaded under
`assets/fonts/`.

## Layout

- `src/` — the library, written in Verus and verified:
  - `json.rs` — the JSON model the parser reads;
  - `parser.rs` — scenes, items and filters read from a collection, groups
    and nested scenes included, hidden items left out on request;
  - `generator.rs` — the overlay page and the HTML of each item;
  - `assets.rs` — which media files are copied where, the export summary,
    the fonts to download and the rewriting of their stylesheets;
  - `app.rs` — the window's state and the decisions it takes (loading a
    collection, the scene preview log, starting and finishing an export);
  - `doc.rs` — overlay text as tokens: characters and the numbers that are
    written with floating-point formatting;
  - `text.rs`, `utils.rs` — string helpers, repair of text that was read as
    Latin-1, the Windows font map.
- `app/` — the program around the library: the egui window, reading files,
  JSON parsing with serde_json, copying files, downloading fonts with reqwest,
  and writing the numbers of the overlay text.
- `tests/` — tests of the library on concrete values.
