//! The tiles of the server's own grid of regions.

use vstd::prelude::*;

verus! {

/// A tile: what it holds and how far it has been played.
#[derive(Debug, Clone, Copy)]
pub struct Tile {
    content: TileContent,
    state: TileState,
}

/// What a tile holds.
#[derive(Debug, Clone, Copy, PartialEq, Eq, Structural)]
pub enum TileContent {
    Empty,
    Number(u8),
    Bomb,
}

/// How far a tile has been played.
#[derive(Debug, Clone, Copy, PartialEq, Eq, Structural)]
pub enum TileState {
    Flagged,
    Discovered,
    Untouched,
}

impl Tile {
    /// What the tile holds.
    pub closed spec fn content(&self) -> TileContent {
        self.content
    }

    /// How far the tile has been played.
    pub closed spec fn state(&self) -> TileState {
        self.state
    }
}

impl Default for Tile {
    /// An empty, untouched tile.
    fn default() -> (r: Self)
        ensures
            r.content() == TileContent::Empty,
            r.state() == TileState::Untouched,
    {
        Tile { content: TileContent::Empty, state: TileState::Untouched }
    }
}

} // verus!
