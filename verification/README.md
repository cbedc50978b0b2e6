# cbn-tui

A terminal browser for Cataclysm: Bright Nights JSON data: a searchable item
list, a syntax-highlighted details pane whose values can be clicked to filter
by them, filter history, a version picker and cached downloads of the game
data.

## Layout

- `src/` is the library, written in Verus and verified. Its modules:
  - `json`, `model`: the JSON document model and the dataset types;
  - `matcher`, `search_index`: the query language (terms, classifiers,
    quoted exact patterns) and the word and field indexes it is answered
    from;
  - `highlight`, `ui`: JSON highlighting into spans, wrapping, display names,
    the filter viewport and hit-testing of the details pane;
  - `app_core`: input events, layout geometry, the application state with
    its invariant, the key and mouse reducers, the actions they leave for
    the runtime, and the filter history as text;
  - `data`: the download and cache decisions;
  - `theme`, `text`, `width`: colors and character-level helpers;
  - `laws`: properties of the library as a whole, proved.
- `tests/` runs the library on concrete inputs.
- `app/` is the terminal program around the library: argument handling,
  files and downloads, conversion from `serde_json` values, and drawing with
  ratatui.
