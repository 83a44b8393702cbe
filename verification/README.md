# webapp

The verified core of a streaming Markdown viewer that renders into a canvas
(WebGPU, WebGL2 or Canvas2D): the logic that decides what is drawn and how
the reader interacts with it, with contracts proved against mathematical
models.

## Layout

- `src/` — the library. Every function has a contract, proved except for a
  handful of small wrappers around single std or `png` calls, whose
  contracts state only what those functions document:
  - `compat` — which renderer a page asks for, the fallback order, and the
    per-backend policy (scene rebuild interval, glyph coverage quantization).
  - `highlight`, `lexer`, `scan`, `shell`, `language`, `code` — the code
    block highlighter: a scanner whose tokens tile the source, driven by a
    language profile.
  - `pack`, `binary`, `packs`, `registry` — language profiles in text and
    binary form, the built-in packs, and resolving a fence name to a profile.
  - `japanese` — Japanese prose fences: morpheme classes, span merging, and
    the per-line span cache (the analyzer itself is handed in).
  - `search`, `document`, `canvas` — the case-insensitive word index, text
    positions, selections, search navigation, and the Canvas2D text model.
  - `controls`, `feed` — what a key press, click or drag asks for, and how
    the simulated stream is handed to the Markdown parser frame by frame.
  - `math` — `$`/`$$` spans, decoding formula PNGs (through the `png`
    crate) into RGBA images, and their pixel runs.
- `tests/` — ordinary Rust tests against the library.
- `app/` — a command-line front end (file I/O, font loading, and the
  floating-point colour, layout and downsampling helpers).
