//! Building a populated grid from its dimensions.

use vstd::prelude::*;

use super::bombs::after_bombs;
use super::populate::{lemma_can_populate, lemma_can_populate_fits, valid_bombs, SafeZone};
use super::vec_grid::{blank_tile, filled, VecGrid};
use crate::tile::Tile;

verus! {

/// The dimensions of a grid to build.
#[derive(Debug, Clone, Copy, PartialEq, Eq, Structural)]
pub struct VecGridConfig {
    pub width: u8,
    pub height: u8,
}

impl VecGrid<Tile> {
    /// A `config.width` by `config.height` grid of untouched tiles with a
    /// fifth as many bombs as tiles, placed at random outside the rows and
    /// columns within one of `(init_x, init_y)`.
    pub fn from_config(config: &VecGridConfig, init_x: i32, init_y: i32) -> (r: Self)
        ensures
            exists|bombs: Seq<(u8, u8)>|
                valid_bombs(
                    SafeZone::Cross,
                    filled(config.width as nat, config.height as nat, blank_tile()),
                    bombs,
                    init_x as int,
                    init_y as int,
                ) && r.rows() == after_bombs(
                    filled(config.width as nat, config.height as nat, blank_tile()),
                    bombs,
                ),
    {
        let mut grid = VecGrid::<Tile>::new(config.width, config.height);
        proof {
            lemma_can_populate(grid.rows());
            lemma_can_populate_fits(SafeZone::Cross, grid.rows(), init_x as int, init_y as int);
        }
        grid.place_random_bombs(SafeZone::Cross, init_x, init_y);
        grid
    }
}

impl VecGridConfig {
    /// Builds the grid for a game that starts at `(x, y)`.
    pub fn build(&self, x: i32, y: i32) -> (r: VecGrid<Tile>)
        ensures
            exists|bombs: Seq<(u8, u8)>|
                valid_bombs(
                    SafeZone::Cross,
                    filled(self.width as nat, self.height as nat, blank_tile()),
                    bombs,
                    x as int,
                    y as int,
                ) && r.rows() == after_bombs(filled(self.width as nat, self.height as nat, blank_tile()), bombs),
    {
        VecGrid::<Tile>::from_config(self, x, y)
    }
}

} // verus!
