//! Tiles of the board.
//!
//! A `TileContent` is what a tile really holds, a `TileState` is what a
//! player sees of it, and a `Tile` holds both (the server side view).

use vstd::prelude::*;

verus! {

/// What a tile really holds.
#[derive(Debug, Clone, Copy, PartialEq, Eq, Structural)]
pub enum TileContent {
    Empty,
    /// The number of bombs among the eight neighbours.
    Number(u8),
    Bomb,
}

/// What a player sees of a tile.
#[derive(Debug, Clone, Copy, PartialEq, Eq, Structural)]
pub enum TileState {
    Untouched,
    Flagged,
    Discovered(TileContent),
}

/// A tile as the server knows it: its content and the state players see.
#[derive(Debug, Clone, Copy, PartialEq, Eq, Structural)]
pub struct Tile {
    pub content: TileContent,
    pub state: TileState,
}

impl Default for TileContent {
    fn default() -> (r: Self)
        ensures
            r == TileContent::Empty,
    {
        TileContent::Empty
    }
}

impl Default for TileState {
    fn default() -> (r: Self)
        ensures
            r == TileState::Untouched,
    {
        TileState::Untouched
    }
}

impl Default for Tile {
    fn default() -> (r: Self)
        ensures
            r == (Tile { content: TileContent::Empty, state: TileState::Untouched }),
    {
        Tile { content: TileContent::Empty, state: TileState::Untouched }
    }
}

impl Tile {
    /// The part of the tile that is shown to the clients.
    pub fn as_client(&self) -> (r: TileState)
        ensures
            r == self.state,
    {
        self.state
    }
}

} // verus!
