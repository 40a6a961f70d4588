# dungeon_manager

The rules and data model of a dungeon-keeper game, written in Verus and
proved against their contracts.

- `src/` is the verified library: room detection and validation (flood fill,
  contiguity, work-station packing, placement rules), campaign progress and
  the mission menu, spell-cast checks, the outcome of a finished dig,
  merging content packs by id, scenario reference checks,
  tutorial validation, trace-log tag parsing, and the data types these read.
- `tests/` runs the library on concrete values.
- `app/` is the ordinary Rust around it: the environment variable that turns
  tracing on, reading manifests, load orders and campaign files from disk,
  and finding pack assets on disk.

Trusted items are marked `#[verifier::external_body]`; each says in its doc
comment what it is believed to do.
