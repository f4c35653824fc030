# tracing-wide

Typed wide events for `tracing`: one struct per event, a static message
text, and all variance in typed fields.

## Layout

- `src/` is the verified library (Verus):
  - `expansion` decides what `#[message]` accepts and what it records for a
    message type: level, message text (and its brace-escaped recorded
    form), sorted lowercase tags, metadata pairs, deprecation and doc
    harvesting, and per-field metadata, or the error a bad input gets.
  - `catalogue` holds the descriptor types and the check that every `msg`
    (the catalogue's join key) is registered once.
  - `instrument` models ambient capture: the per-span field store, the
    innermost-first scope lookup, and the lossless conversions into field
    types.
  - `subscriber` holds subscriber sets, the set-once install, the thread
    scope with its restoring guard, and the choice of the active set.
  - `text` holds the string order, sorting, escaping and decimal rendering
    the rest relies on.
- `app/` is the runtime around it: the `tracing` handoff, the process-wide
  registries, the capture layer on `tracing_subscriber`, the serde and facet
  hooks and manifests, and the code generation of `#[message]` with `syn` and
  `quote`.
- `tests/` exercises the library on concrete inputs.
