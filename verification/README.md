# material_color

Material Design color utilities with a machine-checked integer core.

## Layout

- `src/` — the library, verified with Verus. It holds everything that works
  on integers: packed ARGB colors and their channels, hex formatting, hue
  wrapping, the Wu color quantizer (histograms, cumulative moments, the
  greedy box cutting and the box means), the integer bookkeeping of the
  weighted k-means quantizer (pixel counting, the seeded pseudo-random
  start, per-cluster counts, merging clusters by color, dropping
  transparent pixels), the dynamic-color role and variant catalogs with
  their background, palette, contrast-curve, tone-pair and base-tone-rule
  tables, the
  key-tone search steps of tonal palettes, the order of analogous colors,
  the hue histogram of scoring, and version parsing. Each public function
  states its result exactly in its contract; the `lemma_*` proof functions
  state properties that span calls.
- `tests/` — tests of the library on concrete values.
- `app/` — the floating-point color science (CAM16, HCT, tonal and core
  palettes, contrast, blending, dislike correction, dynamic schemes,
  temperature, scoring, L*a*b* and the k-means refinement), the C ABI and the
  Python module. These call into the library for every integer step.

## Checking

The library verifies with Verus; the tests run with the ordinary test
harness.
