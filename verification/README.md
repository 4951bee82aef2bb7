# bigsryai

Renders the "nexryai" benchmark: a text stamp is drawn many times as
decorated cells, the cells are laid out in a strip or a grid, and a result
picture with the score is produced.

- `src/` — the verified library: the RGBA canvas and its operations
  (`canvas`, `paint`, `raw`), the cell effects (`cell`), the grid search and
  layout (`layout`, `compose`), text images from rasterised glyph pixels
  (`text`), and the benchmark's decisions (`bench`).
- `app/` — the program: font loading and glyph rasterisation (`ab_glyph`),
  the floating-point effect tables, parallel rendering (`rayon`), timing,
  system information and saving the picture.
- `tests/` — tests of the library.
