//! How many times a discovery tells that the game is over: once for each
//! untouched bomb next to each empty tile it reveals.

use vstd::prelude::*;

use super::discover::{newly, reveals_only, same_shape, untouched_bomb};
use super::GameEvent;
use crate::grid::offset;
use crate::tile::{Tile, TileContent};

verus! {

/// How many of the events are game overs.
pub open spec fn game_overs(ev: Seq<GameEvent>) -> nat
    decreases ev.len(),
{
    if ev.len() == 0 {
        0
    } else {
        game_overs(ev.drop_last()) + (if ev.last() is GameOver {
            1nat
        } else {
            0nat
        })
    }
}

/// How many of the first `n` neighbours of `(x, y)` are untouched bombs.
pub open spec fn count_untouched_bombs(g: Seq<Seq<Tile>>, x: int, y: int, n: int) -> nat
    decreases n,
{
    if n <= 0 {
        0
    } else {
        count_untouched_bombs(g, x, y, n - 1) + (if untouched_bomb(g, x + offset(n - 1).0, y + offset(n - 1).1) {
            1nat
        } else {
            0nat
        })
    }
}

/// What the tile `(x, y)` adds to the game overs of a discovery from `g0`
/// to `g1`: the untouched bombs around it, if it is an empty tile that the
/// discovery reveals.
pub open spec fn cell_overs(g0: Seq<Seq<Tile>>, g1: Seq<Seq<Tile>>, x: int, y: int) -> nat {
    if newly(g0, g1, x, y) && g0[y][x].content == TileContent::Empty {
        count_untouched_bombs(g0, x, y, 8)
    } else {
        0
    }
}

/// The sum of `cell_overs` over the first `n` tiles of row `y`.
pub open spec fn row_overs(g0: Seq<Seq<Tile>>, g1: Seq<Seq<Tile>>, y: int, n: int) -> nat
    decreases n,
{
    if n <= 0 {
        0
    } else {
        row_overs(g0, g1, y, n - 1) + cell_overs(g0, g1, n - 1, y)
    }
}

/// The sum of `cell_overs` over the first `m` rows of `g0`.
pub open spec fn rows_overs(g0: Seq<Seq<Tile>>, g1: Seq<Seq<Tile>>, m: int) -> nat
    decreases m,
{
    if m <= 0 {
        0
    } else {
        rows_overs(g0, g1, m - 1) + row_overs(g0, g1, m - 1, g0[m - 1].len() as int)
    }
}

/// The game overs that a discovery from `g0` to `g1` tells besides the
/// one of a bomb at its start: one for each untouched bomb next to each
/// empty tile it reveals.
pub open spec fn flood_overs(g0: Seq<Seq<Tile>>, g1: Seq<Seq<Tile>>) -> nat {
    rows_overs(g0, g1, g0.len() as int)
}

pub proof fn lemma_game_overs_add(a: Seq<GameEvent>, b: Seq<GameEvent>)
    ensures
        game_overs(a + b) == game_overs(a) + game_overs(b),
    decreases b.len(),
{
    if b.len() == 0 {
        assert(a + b =~= a);
    } else {
        lemma_game_overs_add(a, b.drop_last());
        assert((a + b).drop_last() =~= a + b.drop_last());
    }
}

/// Revealing safe tiles leaves every untouched bomb as it was.
proof fn lemma_untouched_bombs_kept(g0: Seq<Seq<Tile>>, g: Seq<Seq<Tile>>, x: int, y: int, n: int)
    requires
        reveals_only(g0, g),
    ensures
        count_untouched_bombs(g, x, y, n) == count_untouched_bombs(g0, x, y, n),
    decreases n,
{
    if n > 0 {
        lemma_untouched_bombs_kept(g0, g, x, y, n - 1);
        let a = x + offset(n - 1).0;
        let b = y + offset(n - 1).1;
        if 0 <= b < g0.len() && 0 <= a < g0[b].len() {
            assert(g[b].len() == g0[b].len());
            assert(g[b][a] == g0[b][a] || newly(g0, g, a, b));
        } else if 0 <= b < g0.len() {
            assert(g[b].len() == g0[b].len());
        }
    }
}

/// A discovery done in two steps tells the game overs of both.
proof fn lemma_cell_overs_split(g0: Seq<Seq<Tile>>, g: Seq<Seq<Tile>>, g2: Seq<Seq<Tile>>, x: int, y: int)
    requires
        reveals_only(g0, g),
        reveals_only(g, g2),
        0 <= y < g0.len(),
        0 <= x < g0[y].len(),
    ensures
        cell_overs(g0, g2, x, y) == cell_overs(g0, g, x, y) + cell_overs(g, g2, x, y),
{
    assert(g[y].len() == g0[y].len());
    assert(g[y][x] == g0[y][x] || newly(g0, g, x, y));
    assert(g2[y].len() == g[y].len());
    assert(g2[y][x] == g[y][x] || newly(g, g2, x, y));
    lemma_untouched_bombs_kept(g0, g, x, y, 8);
}

proof fn lemma_row_overs_split(g0: Seq<Seq<Tile>>, g: Seq<Seq<Tile>>, g2: Seq<Seq<Tile>>, y: int, n: int)
    requires
        reveals_only(g0, g),
        reveals_only(g, g2),
        0 <= y < g0.len(),
        n <= g0[y].len(),
    ensures
        row_overs(g0, g2, y, n) == row_overs(g0, g, y, n) + row_overs(g, g2, y, n),
    decreases n,
{
    if n > 0 {
        lemma_row_overs_split(g0, g, g2, y, n - 1);
        lemma_cell_overs_split(g0, g, g2, n - 1, y);
    }
}

proof fn lemma_rows_overs_split(g0: Seq<Seq<Tile>>, g: Seq<Seq<Tile>>, g2: Seq<Seq<Tile>>, m: int)
    requires
        reveals_only(g0, g),
        reveals_only(g, g2),
        m <= g0.len(),
    ensures
        rows_overs(g0, g2, m) == rows_overs(g0, g, m) + rows_overs(g, g2, m),
    decreases m,
{
    if m > 0 {
        lemma_rows_overs_split(g0, g, g2, m - 1);
        assert(g[m - 1].len() == g0[m - 1].len());
        lemma_row_overs_split(g0, g, g2, m - 1, g0[m - 1].len() as int);
    }
}

/// A discovery done in two steps tells the game overs of both.
pub proof fn lemma_flood_overs_split(g0: Seq<Seq<Tile>>, g: Seq<Seq<Tile>>, g2: Seq<Seq<Tile>>)
    requires
        reveals_only(g0, g),
        reveals_only(g, g2),
    ensures
        flood_overs(g0, g2) == flood_overs(g0, g) + flood_overs(g, g2),
{
    lemma_rows_overs_split(g0, g, g2, g0.len() as int);
    assert(g.len() == g0.len());
}

proof fn lemma_row_overs_one(g0: Seq<Seq<Tile>>, g1: Seq<Seq<Tile>>, sx: int, sy: int, y: int, n: int)
    requires
        forall|a: int, b: int| !(a == sx && b == sy) ==> #[trigger] cell_overs(g0, g1, a, b) == 0,
    ensures
        row_overs(g0, g1, y, n) == (if y == sy && 0 <= sx < n {
            cell_overs(g0, g1, sx, sy)
        } else {
            0
        }),
    decreases n,
{
    if n > 0 {
        lemma_row_overs_one(g0, g1, sx, sy, y, n - 1);
        assert(cell_overs(g0, g1, n - 1, y) == 0 || (n - 1 == sx && y == sy));
    }
}

proof fn lemma_rows_overs_one(g0: Seq<Seq<Tile>>, g1: Seq<Seq<Tile>>, sx: int, sy: int, m: int)
    requires
        forall|a: int, b: int| !(a == sx && b == sy) ==> #[trigger] cell_overs(g0, g1, a, b) == 0,
        0 <= sy < g0.len(),
        0 <= sx < g0[sy].len(),
        m <= g0.len(),
    ensures
        rows_overs(g0, g1, m) == (if 0 <= sy < m {
            cell_overs(g0, g1, sx, sy)
        } else {
            0
        }),
    decreases m,
{
    if m > 0 {
        lemma_rows_overs_one(g0, g1, sx, sy, m - 1);
        lemma_row_overs_one(g0, g1, sx, sy, m - 1, g0[m - 1].len() as int);
    }
}

/// When at most the tile `(sx, sy)` adds game overs, the discovery tells
/// just its own.
pub proof fn lemma_flood_overs_one(g0: Seq<Seq<Tile>>, g1: Seq<Seq<Tile>>, sx: int, sy: int)
    requires
        forall|a: int, b: int| !(a == sx && b == sy) ==> #[trigger] cell_overs(g0, g1, a, b) == 0,
        0 <= sy < g0.len(),
        0 <= sx < g0[sy].len(),
    ensures
        flood_overs(g0, g1) == cell_overs(g0, g1, sx, sy),
{
    lemma_rows_overs_one(g0, g1, sx, sy, g0.len() as int);
}

/// When no tile adds game overs, the discovery tells none.
pub proof fn lemma_flood_overs_none(g0: Seq<Seq<Tile>>, g1: Seq<Seq<Tile>>)
    requires
        forall|a: int, b: int| #[trigger] cell_overs(g0, g1, a, b) == 0,
    ensures
        flood_overs(g0, g1) == 0,
{
    lemma_rows_overs_zero(g0, g1, g0.len() as int);
}

proof fn lemma_rows_overs_zero(g0: Seq<Seq<Tile>>, g1: Seq<Seq<Tile>>, m: int)
    requires
        forall|a: int, b: int| #[trigger] cell_overs(g0, g1, a, b) == 0,
    ensures
        rows_overs(g0, g1, m) == 0,
    decreases m,
{
    if m > 0 {
        lemma_rows_overs_zero(g0, g1, m - 1);
        lemma_row_overs_zero(g0, g1, m - 1, g0[m - 1].len() as int);
    }
}

proof fn lemma_row_overs_zero(g0: Seq<Seq<Tile>>, g1: Seq<Seq<Tile>>, y: int, n: int)
    requires
        forall|a: int, b: int| #[trigger] cell_overs(g0, g1, a, b) == 0,
    ensures
        row_overs(g0, g1, y, n) == 0,
    decreases n,
{
    if n > 0 {
        lemma_row_overs_zero(g0, g1, y, n - 1);
        assert(cell_overs(g0, g1, n - 1, y) == 0);
    }
}

} // verus!

verus! {

/// A discovery from `(sx, sy)` that turns `g0` into `g1` tells `ev` with
/// as many game overs as there are untouched bombs next to the empty tiles
/// it reveals, plus one if it starts on an untouched bomb.
pub open spec fn overs_told(g0: Seq<Seq<Tile>>, g1: Seq<Seq<Tile>>, ev: Seq<GameEvent>, sx: int, sy: int) -> bool {
    game_overs(ev) == flood_overs(g0, g1) + (if untouched_bomb(g0, sx, sy) {
        1nat
    } else {
        0nat
    })
}

/// Revealing safe tiles leaves an untouched bomb as it was.
pub proof fn lemma_untouched_bomb_kept(g0: Seq<Seq<Tile>>, g: Seq<Seq<Tile>>, a: int, b: int)
    requires
        reveals_only(g0, g),
    ensures
        untouched_bomb(g, a, b) == untouched_bomb(g0, a, b),
{
    if 0 <= b < g0.len() {
        assert(g[b].len() == g0[b].len());
        if 0 <= a < g0[b].len() {
            assert(g[b][a] == g0[b][a] || newly(g0, g, a, b));
        }
    }
}

} // verus!
