//! Hexagonal grids, a codex of tagged identifiers, wave function collapse map generation and the
//! rules of the game.
pub mod codex;
pub mod game;
pub mod hexgrid;
pub mod wfc;
