# expl

A verified library for hexagonal map generation, written in Verus.

- `src/hexgrid`: axial coordinates (`HexCoord`), their text form, grid layouts (hexagonal and
  square) with the order in which grids store their positions, grids, rings, neighbour arrays,
  rotations and reflections as signed permutation matrices, and contiguous regions.
- `src/wfc`: wave function collapse: tiles cut from a sample grid, templates of which tiles fit
  next to each other, cells, the generator that collapses a map cell by cell and takes choices
  back when it runs out of tiles, seeds written as short text, and grids written as and read from
  text.
- `src/codex.rs`: identifiers hashed from string tags, and codices of entries looked up by them.
- `src/game.rs`: the rules of the game that do not depend on the engine: action points, health,
  attacks, the action queue, a combat round, making camp and how enemies move.
- `tests/`: the tests of the library.
- `app/`: a command line map generator around the library, the conversions to and from
  floating point world positions, the types with `serde` and `thiserror` derives, template
  statistics and codex loading from TOML.

Every function in `src/` has a contract that Verus proves. Among the proved properties: the
generator's steps keep its state consistent, so that every two neighbouring collapsed cells hold
tiles that fit together (`Generator::lemma_neighbours_fit`), and a template's compatibility is
symmetric (`Template::lemma_fits_both_ways`). Calls into `fixedbitset`, `rand`,
`rand_xoshiro`, `bincode`, `data-encoding` and `disjoint-hash-set` go through small trusted items
whose contracts state what those crates document.
