//! A grid stored as a vector of rows.

use vstd::prelude::*;

use super::{in_bounds, tile_at, Grid};
use crate::tile::{Tile, TileContent, TileState};

verus! {

/// A rectangular (or ragged) grid of tiles stored row by row: `grid[y][x]`.
#[derive(Debug, Clone)]
pub struct VecGrid<T> {
    pub grid: Vec<Vec<T>>,
}

impl<T> VecGrid<T> {
    /// The grid as a sequence of rows.
    pub open spec fn rows(&self) -> Seq<Seq<T>> {
        self.grid@.map_values(|row: Vec<T>| row@)
    }

    /// A grid without any row.
    pub fn empty() -> (r: Self)
        ensures
            r.rows() == Seq::<Seq<T>>::empty(),
    {
        let r = VecGrid { grid: Vec::new() };
        assert(r.rows() =~= Seq::<Seq<T>>::empty());
        r
    }

    /// Replaces the tile at `(x, y)` when it exists; says whether it did.
    pub fn set(&mut self, x: i32, y: i32, value: T) -> (r: bool)
        ensures
            r == in_bounds(old(self).rows(), x as int, y as int),
            r ==> final(self).rows() == old(self).rows().update(
                y as int,
                old(self).rows()[y as int].update(x as int, value),
            ),
            !r ==> final(self).rows() == old(self).rows(),
    {
        if x < 0 || x > 255 || y < 0 || y > 255 {
            return false;
        }
        let xu = x as usize;
        let yu = y as usize;
        if yu < self.grid.len() && xu < self.grid[yu].len() {
            let ghost old_rows = self.rows();
            let mut row: Vec<T> = Vec::new();
            std::mem::swap(&mut row, &mut self.grid[yu]);
            row.set(xu, value);
            self.grid.set(yu, row);
            assert(self.rows() =~= old_rows.update(y as int, old_rows[y as int].update(x as int, value)));
            true
        } else {
            false
        }
    }
}

impl<T> Grid for VecGrid<T> {
    type Tile = T;

    open spec fn tile_at(&self, x: int, y: int) -> Option<T> {
        tile_at(self.rows(), x, y)
    }

    fn get(&self, x: i32, y: i32) -> (r: Option<&T>) {
        if x < 0 || x > 255 || y < 0 || y > 255 {
            return None;
        }
        let xu = x as usize;
        let yu = y as usize;
        if yu < self.grid.len() && xu < self.grid[yu].len() {
            Some(&self.grid[yu][xu])
        } else {
            None
        }
    }
}

} // verus!

verus! {

/// The tile a new grid is filled with: empty and untouched.
pub open spec fn blank_tile() -> Tile {
    Tile { content: TileContent::Empty, state: TileState::Untouched }
}

/// `height` rows of `width` copies of `value`.
pub open spec fn filled<T>(width: nat, height: nat, value: T) -> Seq<Seq<T>> {
    Seq::new(height, |_y: int| Seq::new(width, |_x: int| value))
}

/// The states of the tiles of `g`, tile by tile.
pub open spec fn states_of(g: Seq<Seq<Tile>>) -> Seq<Seq<TileState>> {
    g.map_values(|row: Seq<Tile>| row_states(row))
}

/// The states of the tiles of one row.
pub open spec fn row_states(row: Seq<Tile>) -> Seq<TileState> {
    row.map_values(|t: Tile| t.state)
}

/// A row of `width` copies of `value`.
fn filled_row<T: Copy>(width: u8, value: T) -> (r: Vec<T>)
    ensures
        r@ == Seq::new(width as nat, |_x: int| value),
{
    let mut row: Vec<T> = Vec::new();
    let mut x: u8 = 0;
    while x < width
        invariant
            x <= width,
            row@ == Seq::new(x as nat, |_x: int| value),
        decreases width - x,
    {
        row.push(value);
        x = x + 1;
        assert(row@ =~= Seq::new(x as nat, |_x: int| value));
    }
    row
}

/// `height` rows of `width` copies of `value`.
fn filled_grid<T: Copy>(width: u8, height: u8, value: T) -> (r: VecGrid<T>)
    ensures
        r.rows() == filled(width as nat, height as nat, value),
{
    let mut grid: Vec<Vec<T>> = Vec::new();
    let mut y: u8 = 0;
    while y < height
        invariant
            y <= height,
            grid@.len() == y,
            forall|i: int| 0 <= i < y ==> #[trigger] grid@[i]@ == Seq::new(width as nat, |_x: int| value),
        decreases height - y,
    {
        let row = filled_row(width, value);
        grid.push(row);
        y = y + 1;
    }
    let r = VecGrid { grid };
    assert(r.rows() =~= filled(width as nat, height as nat, value));
    r
}

impl VecGrid<Tile> {
    /// A grid of `height` rows of `width` empty, untouched tiles.
    pub fn new(width: u8, height: u8) -> (r: Self)
        ensures
            r.rows() == filled(width as nat, height as nat, blank_tile()),
    {
        filled_grid(width, height, Tile { content: TileContent::Empty, state: TileState::Untouched })
    }

    /// The grid that clients see: the state of every tile.
    pub fn states(&self) -> (r: VecGrid<TileState>)
        ensures
            r.rows() == states_of(self.rows()),
    {
        let mut grid: Vec<Vec<TileState>> = Vec::new();
        let mut y: usize = 0;
        while y < self.grid.len()
            invariant
                y <= self.grid.len(),
                grid@.len() == y,
                forall|i: int| 0 <= i < y ==> #[trigger] grid@[i]@ == row_states(self.grid@[i]@),
            decreases self.grid.len() - y,
        {
            let src = &self.grid[y];
            let mut row: Vec<TileState> = Vec::new();
            let mut x: usize = 0;
            while x < src.len()
                invariant
                    x <= src.len(),
                    row@ == row_states(src@).take(x as int),
                decreases src.len() - x,
            {
                row.push(src[x].state);
                x = x + 1;
                assert(row@ =~= row_states(src@).take(x as int));
            }
            assert(row@ =~= row_states(src@));
            grid.push(row);
            y = y + 1;
        }
        let r = VecGrid { grid };
        assert(r.rows() =~= states_of(self.rows()));
        r
    }
}

impl Default for VecGrid<Tile> {
    /// A 20 by 20 grid of empty, untouched tiles.
    fn default() -> (r: Self)
        ensures
            r.rows() == filled(20, 20, blank_tile()),
    {
        VecGrid::<Tile>::new(20, 20)
    }
}

impl Default for VecGrid<TileState> {
    /// A 20 by 20 grid of untouched tiles.
    fn default() -> (r: Self)
        ensures
            r.rows() == filled(20, 20, TileState::Untouched),
    {
        filled_grid(20, 20, TileState::Untouched)
    }
}

} // verus!
