//! What the numbers of a grid mean: how many of a tile's neighbours hold a
//! bomb.

use vstd::prelude::*;

use super::bombs::{after_bombs, base, hits, is_at, lemma_hits_at_most_eight, lemma_placed_index, placed};
use super::{adjacent, in_bounds, offset, tile_at};
use crate::tile::{Tile, TileContent};

verus! {

/// The tile `(x, y)` of `g` exists and holds a bomb.
pub open spec fn bomb_at(g: Seq<Seq<Tile>>, x: int, y: int) -> bool {
    tile_at(g, x, y) matches Some(t) && t.content == TileContent::Bomb
}

/// How many of the first `n` neighbours of `(x, y)` hold a bomb.
pub open spec fn count_bombs(g: Seq<Seq<Tile>>, x: int, y: int, n: int) -> nat
    decreases n,
{
    if n <= 0 {
        0
    } else {
        count_bombs(g, x, y, n - 1) + (if bomb_at(g, x + offset(n - 1).0, y + offset(n - 1).1) {
            1nat
        } else {
            0nat
        })
    }
}

/// How many of the eight neighbours of `(x, y)` hold a bomb.
pub open spec fn bombs_around(g: Seq<Seq<Tile>>, x: int, y: int) -> nat {
    count_bombs(g, x, y, 8)
}

/// How many of the first `n` neighbours of `(x, y)` are bomb positions.
spec fn count_placed(bombs: Seq<(u8, u8)>, x: int, y: int, n: int) -> nat
    decreases n,
{
    if n <= 0 {
        0
    } else {
        count_placed(bombs, x, y, n - 1) + (if placed(bombs, x + offset(n - 1).0, y + offset(n - 1).1) {
            1nat
        } else {
            0nat
        })
    }
}

/// How many of the first `n` neighbours of `(x, y)` are the position `p`.
spec fn count_at(p: (u8, u8), x: int, y: int, n: int) -> nat
    decreases n,
{
    if n <= 0 {
        0
    } else {
        count_at(p, x, y, n - 1) + (if is_at(p, x + offset(n - 1).0, y + offset(n - 1).1) {
            1nat
        } else {
            0nat
        })
    }
}

/// One position is one of the eight neighbours of a tile exactly when it
/// is next to it.
proof fn lemma_count_at(p: (u8, u8), x: int, y: int)
    ensures
        count_at(p, x, y, 8) == (if adjacent(p.0 as int, p.1 as int, x, y) {
            1nat
        } else {
            0nat
        }),
{
    reveal_with_fuel(count_at, 9);
}

/// A new position, not placed before, adds itself to the count of every
/// tile it neighbours.
proof fn lemma_count_placed_push(bombs: Seq<(u8, u8)>, x: int, y: int, n: int)
    requires
        bombs.len() > 0,
        !placed(bombs.drop_last(), bombs.last().0 as int, bombs.last().1 as int),
    ensures
        count_placed(bombs, x, y, n) == count_placed(bombs.drop_last(), x, y, n) + count_at(bombs.last(), x, y, n),
    decreases n,
{
    if n > 0 {
        lemma_count_placed_push(bombs, x, y, n - 1);
    }
}

/// Distinct bombs hit a tile that is none of them once for each of its
/// neighbours that is a bomb position.
proof fn lemma_hits_count(bombs: Seq<(u8, u8)>, x: int, y: int)
    requires
        bombs.no_duplicates(),
        !placed(bombs, x, y),
    ensures
        hits(bombs, x, y) == count_placed(bombs, x, y, 8),
    decreases bombs.len(),
{
    if bombs.len() == 0 {
        assert(count_placed(bombs, x, y, 8) == 0) by {
            reveal_with_fuel(count_placed, 9);
        }
    } else {
        let d = bombs.drop_last();
        let last = bombs.last();
        assert(d.no_duplicates());
        lemma_hits_count(d, x, y);
        assert(!placed(d, last.0 as int, last.1 as int)) by {
            lemma_placed_index(d, last.0 as int, last.1 as int);
            if placed(d, last.0 as int, last.1 as int) {
                let i = choose|i: int| 0 <= i < d.len() && is_at(#[trigger] d[i], last.0 as int, last.1 as int);
                assert(bombs[i] == d[i]);
                assert(bombs[bombs.len() - 1] == last);
            }
        }
        lemma_count_placed_push(bombs, x, y, 8);
        lemma_count_at(last, x, y);
    }
}

/// On the grid that the bombs make of `g`, a neighbour holds a bomb
/// exactly when it is a bomb position.
proof fn lemma_count_bombs_placed(g: Seq<Seq<Tile>>, bombs: Seq<(u8, u8)>, x: int, y: int, n: int)
    requires
        forall|a: int, b: int| 0 <= b < g.len() && 0 <= a < g[b].len() ==> #[trigger] g[b][a].content != TileContent::Bomb,
        forall|j: int| 0 <= j < bombs.len() ==> in_bounds(g, (#[trigger] bombs[j]).0 as int, bombs[j].1 as int),
    ensures
        count_bombs(after_bombs(g, bombs), x, y, n) == count_placed(bombs, x, y, n),
    decreases n,
{
    if n > 0 {
        lemma_count_bombs_placed(g, bombs, x, y, n - 1);
        let a = x + offset(n - 1).0;
        let b = y + offset(n - 1).1;
        lemma_placed_index(bombs, a, b);
        if placed(bombs, a, b) {
            let j = choose|j: int| 0 <= j < bombs.len() && is_at(#[trigger] bombs[j], a, b);
            assert(in_bounds(g, bombs[j].0 as int, bombs[j].1 as int));
        }
    }
}

/// On a grid without bombs whose tiles hold no count, the bombs placed at
/// distinct positions inside it leave every other tile telling how many of
/// its eight neighbours hold a bomb: empty for none, else that number,
/// which is at most eight.
pub proof fn law_numbers_count_bombs(g: Seq<Seq<Tile>>, bombs: Seq<(u8, u8)>, x: int, y: int)
    requires
        forall|a: int, b: int| 0 <= b < g.len() && 0 <= a < g[b].len() ==> #[trigger] g[b][a].content == TileContent::Empty,
        bombs.no_duplicates(),
        forall|j: int| 0 <= j < bombs.len() ==> in_bounds(g, (#[trigger] bombs[j]).0 as int, bombs[j].1 as int),
        in_bounds(g, x, y),
    ensures
        after_bombs(g, bombs)[y][x].content != TileContent::Bomb ==> base(after_bombs(g, bombs)[y][x].content)
            == bombs_around(after_bombs(g, bombs), x, y),
        after_bombs(g, bombs)[y][x].content matches TileContent::Number(k) ==> 1 <= k <= 8,
{
    let g1 = after_bombs(g, bombs);
    assert(g[y][x].content == TileContent::Empty);
    lemma_count_bombs_placed(g, bombs, x, y, 8);
    if !placed(bombs, x, y) {
        lemma_hits_count(bombs, x, y);
        lemma_hits_at_most_eight(bombs, x, y);
    }
}

} // verus!

verus! {

/// Grids of the same shape whose tiles hold the same things count the
/// same bombs around every tile.
pub proof fn lemma_count_bombs_contents(g0: Seq<Seq<Tile>>, g1: Seq<Seq<Tile>>, x: int, y: int, n: int)
    requires
        g0.len() == g1.len(),
        forall|b: int| 0 <= b < g0.len() ==> #[trigger] g0[b].len() == g1[b].len(),
        forall|a: int, b: int| 0 <= b < g0.len() && 0 <= a < g0[b].len() ==> #[trigger] g0[b][a].content == g1[b][a].content,
    ensures
        count_bombs(g0, x, y, n) == count_bombs(g1, x, y, n),
    decreases n,
{
    if n > 0 {
        lemma_count_bombs_contents(g0, g1, x, y, n - 1);
        let a = x + offset(n - 1).0;
        let b = y + offset(n - 1).1;
        if 0 <= b < g0.len() {
            assert(g0[b].len() == g1[b].len());
            if 0 <= a < g0[b].len() {
                assert(g0[b][a].content == g1[b][a].content);
            }
        }
    }
}

} // verus!
