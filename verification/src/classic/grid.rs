//! A grid generated in full before play.

use vstd::prelude::*;

use super::tile::ServerTile;

verus! {

/// The server's grid: every tile, row by row.
#[derive(Debug)]
pub struct ServerGrid {
    tiles: Vec<Vec<ServerTile>>,
}

/// What a client knows of each tile.
#[derive(Debug)]
pub struct ClientGrid {
    tiles: Vec<Vec<ClientTile>>,
}

#[derive(Debug)]
struct ClientTile {
    flagged: bool,
    covered: bool,
}

impl ServerGrid {
    /// The rows of the grid.
    pub closed spec fn rows(&self) -> Seq<Seq<ServerTile>> {
        self.tiles@.map_values(|row: Vec<ServerTile>| row@)
    }

    /// A grid of `width` rows, each made with room for `width` tiles and
    /// left empty, on which `bomb_count` bombs are to be placed at random,
    /// away from `start`. Placing a bomb reads a tile of those empty rows,
    /// which panics, so only a count of zero can be asked for, and then the
    /// start plays no part.
    pub fn generate(size: (usize, usize), start: (usize, usize), bomb_count: usize) -> (r: ServerGrid)
        requires
            bomb_count == 0,
        ensures
            r.rows().len() == size.0,
            forall|y: int| 0 <= y < size.0 ==> #[trigger] r.rows()[y].len() == 0,
    {
        let width = size.0;
        let mut tiles: Vec<Vec<ServerTile>> = Vec::new();
        let mut i: usize = 0;
        while i < width
            invariant
                i <= width,
                tiles@.len() == i,
                forall|y: int| 0 <= y < i ==> #[trigger] tiles@[y]@.len() == 0,
            decreases width - i,
        {
            tiles.push(Vec::new());
            i = i + 1;
        }
        let r = ServerGrid { tiles };
        assert forall|y: int| 0 <= y < size.0 implies #[trigger] r.rows()[y].len() == 0 by {
            assert(r.rows()[y] == r.tiles@[y]@);
        }
        r
    }
}

} // verus!
