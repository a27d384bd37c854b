//! Copies of events, for handing one event to several players.

use vstd::prelude::*;

use super::GameEvent;
use super::cursors::copy_cursors;
use crate::grid::vec_grid::VecGrid;
use crate::tile::TileState;

verus! {

/// `a` and `b` tell the same thing: same variant, same tiles, same names
/// and same positions.
pub open spec fn same_event(a: GameEvent, b: GameEvent) -> bool {
    match a {
        GameEvent::GameStart { grid: g1, cursors: c1 } => match b {
            GameEvent::GameStart { grid: g2, cursors: c2 } => {
                &&& g1.rows() == g2.rows()
                &&& c1@.len() == c2@.len()
                &&& forall|i: int| 0 <= i < c1@.len() ==> (#[trigger] c1@[i]).0@ == c2@[i].0@ && c1@[i].1 == c2@[i].1
            },
            _ => false,
        },
        GameEvent::TileStateUpdate { x, y, state } => b == GameEvent::TileStateUpdate { x, y, state },
        GameEvent::GameOver {  } => b is GameOver,
        GameEvent::CursorMoved(n1, p1) => match b {
            GameEvent::CursorMoved(n2, p2) => n1@ == n2@ && p1 == p2,
            _ => false,
        },
    }
}

/// A copy of a grid of tile states.
pub fn copy_states(grid: &VecGrid<TileState>) -> (r: VecGrid<TileState>)
    ensures
        r.rows() == grid.rows(),
{
    let mut rows: Vec<Vec<TileState>> = Vec::new();
    let mut y: usize = 0;
    while y < grid.grid.len()
        invariant
            y <= grid.grid.len(),
            rows@.len() == y,
            forall|i: int| 0 <= i < y ==> #[trigger] rows@[i]@ == grid.grid@[i]@,
        decreases grid.grid.len() - y,
    {
        let src = &grid.grid[y];
        let mut row: Vec<TileState> = Vec::new();
        let mut x: usize = 0;
        while x < src.len()
            invariant
                x <= src.len(),
                row@ == src@.take(x as int),
            decreases src.len() - x,
        {
            row.push(src[x]);
            x = x + 1;
            assert(row@ =~= src@.take(x as int));
        }
        assert(row@ =~= src@);
        rows.push(row);
        y = y + 1;
    }
    let r = VecGrid { grid: rows };
    assert(r.rows() =~= grid.rows());
    r
}

/// A copy of an event.
pub fn copy_event(event: &GameEvent) -> (r: GameEvent)
    ensures
        same_event(*event, r),
{
    match event {
        GameEvent::GameStart { grid, cursors } => {
            GameEvent::GameStart { grid: copy_states(grid), cursors: copy_cursors(cursors) }
        },
        GameEvent::TileStateUpdate { x, y, state } => GameEvent::TileStateUpdate { x: *x, y: *y, state: *state },
        GameEvent::GameOver {  } => GameEvent::GameOver {  },
        GameEvent::CursorMoved(name, pos) => GameEvent::CursorMoved(name.clone(), *pos),
    }
}

} // verus!
