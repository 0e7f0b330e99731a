# aethellib

Loaders, corpus builders and generators for aethel datasets: TOML documents
with a `[header]` table and target-specific sections of string lists.

The library in `src/` is written in Verus; every function carries a contract
that Verus proves.

- `text`, `toml_model`, `hashing`: character-level helpers (trimming,
  canonical source text, decimal and hex rendering, template replacement),
  the shape of a parsed TOML document, and content hashing.
- `corpus`: documents with sections and fields, pooled values with
  provenance, and the builder that assembles a corpus from sources.
- `loader`: the typed view of a document (header plus a body that each
  target's loader reads), and corpus loading from several sources.
- `merge`, `merger`: typed corpora of one target, merging of mixed file lists
  grouped by target, options and validation hooks.
- `generators`, `generator`: candidate pools with deduplicated provenance,
  weapon and person generation from a seeded generator, and compiled fields
  that can draw themselves again.
- `engine`: rules, combinators and the engine that runs them.

`app/` holds what the library leaves to its caller: reading files,
thread-seeded randomness, the probability combinator, and the serialised
form of parsed documents.
