//! The bodies that the lobby API takes and gives.

use vstd::prelude::*;

verus! {

/// The size of the grid of a lobby to create.
#[derive(Debug, Clone, Copy, PartialEq, Eq, Structural)]
pub struct CreateLobbyBody {
    pub grid_width: u8,
    pub grid_height: u8,
}

/// A lobby, by its identifier.
#[derive(Debug, Clone)]
pub struct Lobby {
    pub id: String,
}

} // verus!
