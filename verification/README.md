# flakesim

Grows a snow crystal on a hexagonal lattice from a time series of temperature
and humidity, and draws the result as SVG, PNG or an animated GIF.

The project has two halves.

- `src/` is a Verus library. It holds everything about the simulator that is
  discrete, with contracts that Verus proves: the lattice and its twelve
  symmetries, the stack of vapour layers and what feeds what in it, the order in
  which the field is relaxed, the sites that join the crystal, rim distances,
  curvature counts, outlines, palettes, canvases, image files, the history of
  conditions and the course of a run.
- `app/` is the program: the command line, files, threads, the browser API, and
  the growth physics, which is floating-point arithmetic.

Where a decision depends on a number of the physics, the number crosses the line
as its bit pattern (see `src/number.rs`): patterns of non-negative singles and
order codes of doubles compare as the numbers do, which is proved there.

## Layout of the library

| modules | what they hold |
| --- | --- |
| `hex`, `lattice`, `symmetry`, `draw` | cells, arrays, images of cells, random draws |
| `layers`, `stencil`, `schedule`, `relax` | the field's grid, its links, its relaxation |
| `automaton`, `sites`, `rim`, `coarse`, `curvature`, `piece`, `growth` | the crystal and how it grows |
| `snapshot`, `outline`, `svg`, `text`, `order` | frozen crystals and their drawings |
| `raster`, `iso`, `canvas`, `diagram`, `encode` | pixels, charts and image files |
| `config`, `history`, `physics`, `session` | settings, conditions, habits, runs |
| `number` | numbers as bit patterns |

What the library takes on trust is in three files: `encode` (the `png` and `gif`
crates), `order` (the standard library's sort) and `text` (`String::push`).
