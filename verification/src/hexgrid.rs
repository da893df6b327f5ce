//! Hexagonal grid coordinates, layouts, grids, regions and transforms.
pub mod coord;
pub mod grid;
pub mod imat3;
pub mod layout;
pub mod neighbours;
pub mod region;
pub mod ring;
pub mod text;
pub mod transform;

pub use coord::HexCoord;
pub use grid::Grid;
pub use layout::GridLayout;
pub use neighbours::Neighbours;
pub use region::{Region, Regions};
pub use ring::ring;
pub use transform::{Transform, TransformMatrix};
