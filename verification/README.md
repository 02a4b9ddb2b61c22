# rage

The logic of a command-line tool for RAGE game files, written in Verus. Every
function in `src/` has its contract stated; all are proved, but for the small
wrappers around calls of outside crates, whose contracts are taken on trust.

- `src/index/`: the game-wide index of where things live in the archives, its
  cache files, and the order in which the game loads its archives.
- `src/names.rs`, `src/name_table.rs`: name lists and the table that hashes are
  resolved through.
- `src/rpf.rs`, `src/commands/extract.rs`: archives, their files, and which of
  them are extracted.
- `src/commands/resource/`, `src/metadata.rs`: what a resource or metadata file
  is, what is printed of it as text and as JSON, and metadata trees written out
  in full.
- `src/commands/textures.rs`, `src/images.rs`, `src/layout.rs`: exporting
  textures as pictures, encoding pictures, and building texture dictionaries.
- `src/plot_inputs.rs`, `src/plot_files.rs`, `src/props.rs`,
  `src/commands/plot.rs`, `src/commands/plot_geometry.rs`: what belongs on the
  plan of an interior.
- `src/cells.rs`, `src/commands/navmesh.rs`, `src/commands/nav_build.rs`:
  navmesh cells.
- `src/formats.rs`, `src/sections.rs`, `src/nesting.rs`: the game's file formats
  as plain values, and which files their readers are given.
- `src/text.rs`, `src/utils.rs`, `src/bits.rs`, `src/order.rs`, ...: texts,
  patterns, fractional numbers by their bits, sorting.

`tests/` runs the library, and `app/` is the command line around it: files, the
network, plans of interiors and what else computes with floating point.

The library calls `rage_formats`, `rage_render`, `rpf_archive`, `roxmltree`,
`json` and `sha2` for the formats that are theirs. Each such call stands in a
small function marked `external_body` whose doc comment says what is taken on
trust.
