# poe_data_tools

Parsing tools for Path of Exile game files, verified with Verus.

`src/` is the verified library:

- `dat/` — data tables (`.datc64`): the raw file layout, column views, reading columns by
  schema type, whole-table reading (with a check that its strings decode), schema lookup, a
  hex dump, JSON-shaped plain and reference cells (`parser`, `refs`), one step of resolving
  table keys depth first and the stack it works through (`keys`), and when to refresh the
  cached schema file.
- `file_parsers/` — file formats; `.tdt` tile data is parsed in full, the other formats carry
  their data types.
- `arm/` — room layout types, the grammar of their one-line records (slots, zones, ...), the
  sections that span lines (string table, zones, doodad connections, tags), and whole room
  files (`map`), whose point of interest, doodad and decal lines are kept as text.
- `art/` — the layout of minimap sprite (`.mtp`) files.
- `fs/cdn/` — the CDN side of the game's file system: patch version folders, the cache and its
  fallbacks, CDN addresses and the patch server's answer, the bundle index lookup and batch
  planning, and the steps of loading a bundle through the cache (`loader`); and `fs/steam.rs`, where a Steam install is looked for.
- `bundle.rs` — reading ranges of a bundle's Oodle-compressed blocks.
- `hasher.rs` — the MurmurHash64A hasher of file paths.
- `patch.rs`, `translate.rs`, `text.rs`, `utf16.rs`, `bytes.rs` — patch versions, parser choice by
  extension, and text and byte helpers.

`app/` is the command line program around it: network and disk access, the CSV export with
arrow, the schema file's serde types, and the room records with floating-point fields (doodads).
