//! Tiles of a grid that is generated in full before the game starts.

pub mod grid;
pub mod tile;
