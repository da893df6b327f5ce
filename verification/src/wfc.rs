//! Map generation by wave function collapse over hexagonal tiles.
pub mod bitset;
pub mod cell;
pub mod error;
pub mod generator;
pub mod order;
pub mod seed;
pub mod template;
pub mod tile;
pub mod util;

pub use error::WFCError;
pub use generator::Generator;
pub use template::Template;
pub use seed::{Seed, SeedType};

use vstd::prelude::*;

verus! {

/// The index of a tile in a template.
pub type TileId = usize;

} // verus!
