# snifferlauncher

The core of the Sniffer launcher as a verified library: every function under
`src/` carries a contract, and Verus proves each one except five small trusted
wrappers (`str::to_lowercase`, `String::push`, serde_json's reading and writing
of snapshot text, and its quoting of a string as JSON), whose contracts are
taken as given.

- `src/` — the library: widget ids (`widget`), runtime data and style override
  maps (`data_map`, `style_map`), the data vault with paged app search and
  per-plugin namespaces (`vault`, `apps`), the launcher state machine and the
  Android intents it starts (`launcher`, `intent`), the UI element tree and its
  edits (`element`), the style class language (`style`, `tailwind`, `color`),
  key-to-text mapping (`input`), RGBA pixel buffers (`raster`), the integer part
  of glyph distance fields (`sdf`), the packing of glyphs into a font atlas
  (`atlas`), the least-recently-used texture cache with its memory and count
  budgets (`texture_cache`), the event queue (`event`) and the text helpers
  they share (`text`).
- `tests/` — tests of the library on concrete values.
- `app/` — a console preview around the library: float styles and layout (with
  taffy), scroll and touch dynamics, frame statistics, the vault's files
  (listing the cache directory, reading and writing the files), and the glue
  that keeps image pixels and glyph metrics beside the cache and the atlas.
