//! The tiles of a grid generated in full before play.

use vstd::prelude::*;

verus! {

/// How far a tile has been played.
#[derive(Debug, Clone, Copy, PartialEq, Eq, Structural)]
pub enum TileState {
    Untouched,
    Flagged,
    Discovered,
}

/// What a tile holds.
#[derive(Debug, Clone, Copy, PartialEq, Eq, Structural)]
pub enum TileContent {
    Empty,
    Number(u8),
    Bomb,
}

/// A tile of the server's grid: what it holds and how far it has been
/// played.
#[derive(Debug, Clone, Copy)]
pub struct ServerTile {
    pub content: TileContent,
    pub state: TileState,
}

impl Default for TileState {
    /// A tile starts untouched.
    fn default() -> (r: Self)
        ensures
            r == TileState::Untouched,
    {
        TileState::Untouched
    }
}

impl Default for TileContent {
    /// A tile starts empty.
    fn default() -> (r: Self)
        ensures
            r == TileContent::Empty,
    {
        TileContent::Empty
    }
}

impl Default for ServerTile {
    /// An empty, untouched tile.
    fn default() -> (r: Self)
        ensures
            r.content == TileContent::Empty,
            r.state == TileState::Untouched,
    {
        ServerTile { content: TileContent::default(), state: TileState::default() }
    }
}

} // verus!
