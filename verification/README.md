# baumhard

The glyph model of a text-based graphics engine, with proved contracts.

- `src/util/grapheme_chad.rs`: string helpers that count, split, delete and replace
  by unicode grapheme cluster, and find lines in a text.
- `src/util/strings.rs`: character and UTF-8 facts the helpers share.
- `src/util/color.rs`, `src/util/primes.rs`: 8-bit colors and color codes; the primes
  up to a ceiling by the sieve of Eratosthenes.
- `src/gfx_structs/model.rs`: glyph components, lines and matrices, with expanding and
  overriding inserts and the component-wise operators.
- `src/gfx_structs/placement.rs`: writing a matrix into a text, recording the style
  of every component in regions.
- `src/core_model/regions.rs`: styled regions of text, kept ordered by range.
- `src/gfx_structs/tree_walker.rs`: the walk of a mutator tree over a target tree, on
  trees of channels: which mutator node goes with which target node, and the steps of
  a conditional repeat.
- `src/gfx_structs/predicate.rs`: the verdict of a predicate from its field tests.
- `src/application/renderer_control.rs`: the renderer's state and action on each decree.
- `src/core_model`, `src/application`, `src/font`: ranges, anchors, timelines and the
  enums of the application.
- `app/`: what computes with floats or reads the clock, and the walk over `indextree`
  arenas, which numbers their nodes into trees of channels and applies what the
  library plans.

Grapheme segmentation is `unicode-segmentation`'s; the library names its result
(`grapheme_clusters`) and states what it relies on in one trusted wrapper.
