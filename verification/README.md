# acta

A themed line layout for `tracing`: configuration types, level filters, colour selection and
the coloured pieces of each event line, verified with Verus.

- `src/` — the verified library: `config` (levels, labels, icons, themes, writers, the
  configuration builder), `filter` (base directive plus per-target overrides), `path` (fitting
  `file:line` into a fixed-width column), `color` (colour depth and terminal colours), `fmt`
  (the formatter settings and the pieces of one event line), `writer` (where each writer's lines go, and the drop warnings of the
  asynchronous writer), `text` (UTF-8 widths, decimal digits, string building).
- `app/` — the program side: installs the subscriber, formats times, renders pieces with
  `owo-colors`, and runs the asynchronous writer.
- `tests/` — tests of the library.

## Per-target overrides

A `Filter` keeps its per-target overrides in a `Vec` of `(target, level)` pairs rather than a
hash map keyed by target. A map keyed by `String` gives Verus nothing to reason with about its
contents, so the overrides are a sequence whose type invariant says that no target occurs
twice; setting a target again replaces its level in place, removing it keeps the others in
order. The directive therefore lists the overrides in the order their targets were first set,
an order a hash map would leave open.
