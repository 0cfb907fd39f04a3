# pixel-analyzer

Colour-palette analysis of PNG, JPEG and WebP images, for the browser and
Node.js through WebAssembly.

## Layout

- `src/` is the verified library. Each public function has a contract, and
  Verus proves the code against it. Where an outside decoder decides, the
  contract ties the result to what the decoder gives for the bytes; whether
  the PNG and WebP decoders accept them, which also depends on the machine's
  address space, is left to them:
  - `types`: `RgbColor`, its `#RRGGBB` form and the reading back of it
    (proved to lose nothing), the hue bands and image shapes.
  - `error`: the error taxonomy and the message of each error.
  - `config`: sampling qualities and the range checks of the settings.
  - `decoder`: format detection by signature, and the widening of what the
    decoders return to RGBA.
  - `codecs`: the calls into the `png`, `zune-jpeg` and `image-webp`
    decoders, with what is assumed of each.
  - `sampler`: nearest-neighbour scaling and stratified 32 x 32 grid
    sampling of opaque pixels.
  - `kmeans`: the seeding generator, cluster sizes and the population
    order of clusters.
  - `metrics`, `report`, `color_theory`: hue bands, orientation, warnings
    and the harmony record.
  - `pipeline`: the front of an analysis, from bytes to sampled colours.
- `app/` holds what stays outside the proofs: the floating-point colour
  science (CIELAB, WCAG and APCA contrast, k-means iterations, statistics),
  the report, and the JavaScript bindings.
- `tests/` runs the library on concrete inputs.
