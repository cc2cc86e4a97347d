//! Minefield game engine: a 2D grid of tiles with bomb placement,
//! cascading reveal (flood fill), flag bookkeeping, a win condition,
//! and a 47-way border-appearance classification of each tile's
//! revealed-neighbour pattern.

pub mod bombs;
pub mod counting;
pub mod digging;
pub mod field;
pub mod tile;

pub use field::MineField;
pub use tile::Tile;
pub use tile::TileNeighbour;
pub use tile::TileState;
