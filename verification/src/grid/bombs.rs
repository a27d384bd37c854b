//! Placing bombs on a grid and counting them around each tile.

use vstd::prelude::*;

use super::adjacent;
use super::vec_grid::VecGrid;
use super::Grid;
use crate::tile::{Tile, TileContent, TileState};

verus! {

/// The bomb position `p` is the tile `(x, y)`.
pub open spec fn is_at(p: (u8, u8), x: int, y: int) -> bool {
    p.0 == x && p.1 == y
}

/// Some position of `bombs` is `(x, y)`.
pub open spec fn placed(bombs: Seq<(u8, u8)>, x: int, y: int) -> bool
    decreases bombs.len(),
{
    if bombs.len() == 0 {
        false
    } else {
        placed(bombs.drop_last(), x, y) || is_at(bombs.last(), x, y)
    }
}

/// A position is placed exactly when some bomb is at it.
pub proof fn lemma_placed_index(bombs: Seq<(u8, u8)>, x: int, y: int)
    ensures
        placed(bombs, x, y) <==> exists|i: int| 0 <= i < bombs.len() && is_at(#[trigger] bombs[i], x, y),
    decreases bombs.len(),
{
    if bombs.len() > 0 {
        let d = bombs.drop_last();
        lemma_placed_index(d, x, y);
        if placed(d, x, y) {
            let i = choose|i: int| 0 <= i < d.len() && is_at(#[trigger] d[i], x, y);
            assert(bombs[i] == d[i]);
        }
        if exists|i: int| 0 <= i < bombs.len() && is_at(#[trigger] bombs[i], x, y) {
            let i = choose|i: int| 0 <= i < bombs.len() && is_at(#[trigger] bombs[i], x, y);
            if i < d.len() {
                assert(bombs[i] == d[i]);
            }
        }
    }
}

/// How many times a neighbour of `(x, y)` becomes a bomb, counted while
/// `(x, y)` itself is not a bomb yet.
pub open spec fn hits(bombs: Seq<(u8, u8)>, x: int, y: int) -> nat
    decreases bombs.len(),
{
    if bombs.len() == 0 {
        0
    } else {
        hits(bombs.drop_last(), x, y) + (if !placed(bombs.drop_last(), x, y) && adjacent(
            bombs.last().0 as int,
            bombs.last().1 as int,
            x,
            y,
        ) {
            1nat
        } else {
            0nat
        })
    }
}

/// The count that a content holds: its number, or 0.
pub open spec fn base(c: TileContent) -> nat {
    match c {
        TileContent::Number(n) => n as nat,
        _ => 0,
    }
}

/// `c` with `k` more bombs around it.
pub open spec fn with_hits(c: TileContent, k: nat) -> TileContent {
    if k == 0 {
        c
    } else {
        match c {
            TileContent::Empty => TileContent::Number(k as u8),
            TileContent::Number(n) => TileContent::Number((n + k) as u8),
            TileContent::Bomb => TileContent::Bomb,
        }
    }
}

/// The content of the tile `(x, y)`, which held `c`, once `bombs` are placed.
pub open spec fn bombed_content(c: TileContent, bombs: Seq<(u8, u8)>, x: int, y: int) -> TileContent {
    if c == TileContent::Bomb || placed(bombs, x, y) {
        TileContent::Bomb
    } else {
        with_hits(c, hits(bombs, x, y))
    }
}

/// `g` once the bombs are placed, one after the other: each becomes a bomb
/// and every tile around it that is not a bomb counts one more bomb.
pub open spec fn after_bombs(g: Seq<Seq<Tile>>, bombs: Seq<(u8, u8)>) -> Seq<Seq<Tile>> {
    Seq::new(
        g.len(),
        |y: int|
            Seq::new(
                g[y].len(),
                |x: int|
                    if 0 <= x <= 255 && 0 <= y <= 255 {
                        Tile { content: bombed_content(g[y][x].content, bombs, x, y), state: g[y][x].state }
                    } else {
                        g[y][x]
                    },
            ),
    )
}

/// No count overflows a `u8` while `bombs` are placed on `g`.
pub open spec fn counts_fit(g: Seq<Seq<Tile>>, bombs: Seq<(u8, u8)>) -> bool {
    forall|x: int, y: int|
        0 <= y < g.len() && 0 <= x < g[y].len() && x <= 255 && y <= 255
            && g[y][x].content != TileContent::Bomb ==> base(g[y][x].content) + hits(bombs, x, y) <= 255
}

/// One step of placing the bomb `p`, seen from the tile `(x, y)`.
pub open spec fn bomb_step(c: TileContent, p: (u8, u8), x: int, y: int) -> TileContent {
    if is_at(p, x, y) {
        TileContent::Bomb
    } else if adjacent(p.0 as int, p.1 as int, x, y) {
        match c {
            TileContent::Empty => TileContent::Number(1),
            TileContent::Number(n) => TileContent::Number((n + 1) as u8),
            TileContent::Bomb => TileContent::Bomb,
        }
    } else {
        c
    }
}

/// The position of `(x, y)` in the 3 by 3 square around `p`, row by row.
pub open spec fn cell_index(p: (u8, u8), x: int, y: int) -> int {
    (x - p.0 + 1) + 3 * (y - p.1 + 1)
}

/// `(x, y)` lies in the 3 by 3 square around `p`.
pub open spec fn in_square(p: (u8, u8), x: int, y: int) -> bool {
    -1 <= x - p.0 <= 1 && -1 <= y - p.1 <= 1
}

/// `g` once the first `k` cells of the square around `p` have had their step.
pub open spec fn partial_step(g: Seq<Seq<Tile>>, p: (u8, u8), k: int) -> Seq<Seq<Tile>> {
    Seq::new(
        g.len(),
        |y: int|
            Seq::new(
                g[y].len(),
                |x: int|
                    if 0 <= x <= 255 && 0 <= y <= 255 && in_square(p, x, y) && cell_index(p, x, y) < k {
                        Tile { content: bomb_step(g[y][x].content, p, x, y), state: g[y][x].state }
                    } else {
                        g[y][x]
                    },
            ),
    )
}

proof fn lemma_hits_prefix_monotone(bombs: Seq<(u8, u8)>, i: int, x: int, y: int)
    requires
        0 <= i <= bombs.len(),
    ensures
        hits(bombs.take(i), x, y) <= hits(bombs, x, y),
    decreases bombs.len() - i,
{
    if i < bombs.len() {
        lemma_hits_prefix_monotone(bombs, i + 1, x, y);
        assert(bombs.take(i + 1).drop_last() =~= bombs.take(i));
    } else {
        assert(bombs.take(i) =~= bombs);
    }
}

/// Placing one more bomb is one step of `bomb_step` on each tile.
proof fn lemma_bombed_step(c: TileContent, bombs: Seq<(u8, u8)>, i: int, x: int, y: int)
    requires
        0 <= i < bombs.len(),
        c != TileContent::Bomb ==> base(c) + hits(bombs.take(i + 1), x, y) <= 255,
    ensures
        bombed_content(c, bombs.take(i + 1), x, y) == bomb_step(
            bombed_content(c, bombs.take(i), x, y),
            bombs[i],
            x,
            y,
        ),
{
    let b = bombs.take(i + 1);
    assert(b.drop_last() =~= bombs.take(i));
    assert(b.last() == bombs[i]);
}

impl VecGrid<Tile> {
    /// Places a bomb on each of `bombs`, in order: the tile becomes a bomb,
    /// and each tile around it that is not a bomb counts one more bomb.
    pub fn place_bombs(&mut self, bombs: &Vec<(u8, u8)>)
        requires
            counts_fit(old(self).rows(), bombs@),
        ensures
            final(self).rows() == after_bombs(old(self).rows(), bombs@),
    {
        let ghost g0 = self.rows();
        assert(bombs@.take(0) =~= Seq::<(u8, u8)>::empty());
        assert(self.rows() =~~= after_bombs(g0, bombs@.take(0)));
        let mut i: usize = 0;
        while i < bombs.len()
            invariant
                0 <= i <= bombs.len(),
                counts_fit(g0, bombs@),
                self.rows() == after_bombs(g0, bombs@.take(i as int)),
            decreases bombs.len() - i,
        {
            let p = bombs[i];
            let ghost gi = self.rows();
            let mut k: usize = 0;
            assert(self.rows() =~~= partial_step(gi, p, 0));
            while k < 9
                invariant
                    k <= 9,
                    p == bombs@[i as int],
                    0 <= i < bombs.len(),
                    counts_fit(g0, bombs@),
                    gi == after_bombs(g0, bombs@.take(i as int)),
                    self.rows() == partial_step(gi, p, k as int),
                decreases 9 - k,
            {
                let dx: i16 = (k % 3) as i16 - 1;
                let dy: i16 = (k / 3) as i16 - 1;
                let nx: i16 = p.0 as i16 + dx;
                let ny: i16 = p.1 as i16 + dy;
                if 0 <= nx && nx <= 255 && 0 <= ny && ny <= 255 {
                    let ghost before = self.rows();
                    let got = self.get(nx as i32, ny as i32);
                    if let Some(tile) = got {
                        let t = *tile;
                        proof {
                            let x = nx as int;
                            let y = ny as int;
                            assert(gi[y][x].content == bombed_content(g0[y][x].content, bombs@.take(i as int), x, y));
                            if t.content != TileContent::Bomb && !(dx == 0 && dy == 0) {
                                assert(adjacent(p.0 as int, p.1 as int, x, y));
                                lemma_hits_prefix_monotone(bombs@, i + 1, x, y);
                                let b = bombs@.take(i + 1);
                                assert(b.drop_last() =~= bombs@.take(i as int));
                                assert(b.last() == p);
                            }
                        }
                        let content = if dx == 0 && dy == 0 {
                            TileContent::Bomb
                        } else {
                            match t.content {
                                TileContent::Empty => TileContent::Number(1),
                                TileContent::Number(n) => TileContent::Number(n + 1),
                                TileContent::Bomb => TileContent::Bomb,
                            }
                        };
                        self.set(nx as i32, ny as i32, Tile { content, state: t.state });
                    }
                    assert(self.rows() =~~= partial_step(gi, p, k + 1));
                } else {
                    assert(self.rows() =~~= partial_step(gi, p, k + 1));
                }
                k = k + 1;
            }
            proof {
                assert forall|y: int, x: int|
                    0 <= y < g0.len() && 0 <= x < g0[y].len() && x <= 255 && y <= 255 implies
                    #[trigger] bombed_content(g0[y][x].content, bombs@.take(i + 1), x, y)
                    == bomb_step(bombed_content(g0[y][x].content, bombs@.take(i as int), x, y), p, x, y) by {
                    if g0[y][x].content != TileContent::Bomb {
                        lemma_hits_prefix_monotone(bombs@, i + 1, x, y);
                    }
                    lemma_bombed_step(g0[y][x].content, bombs@, i as int, x, y);
                }
                assert(self.rows() =~~= after_bombs(g0, bombs@.take(i + 1)));
            }
            i = i + 1;
        }
        assert(bombs@.take(i as int) =~= bombs@);
    }
}

} // verus!

verus! {

/// Where `p` lies in the 3 by 3 square around `(x, y)`, row by row.
pub open spec fn around_index(p: (u8, u8), x: int, y: int) -> int {
    (p.0 - x + 1) + 3 * (p.1 - y + 1)
}

/// The places, in the square around `(x, y)`, of the positions of `bombs`
/// that are next to `(x, y)`.
pub open spec fn around_set(bombs: Seq<(u8, u8)>, x: int, y: int) -> Set<int>
    decreases bombs.len(),
{
    if bombs.len() == 0 {
        Set::empty()
    } else {
        let s = around_set(bombs.drop_last(), x, y);
        if adjacent(bombs.last().0 as int, bombs.last().1 as int, x, y) {
            s.insert(around_index(bombs.last(), x, y))
        } else {
            s
        }
    }
}

pub proof fn lemma_around_set(bombs: Seq<(u8, u8)>, x: int, y: int)
    requires
        bombs.no_duplicates(),
    ensures
        around_set(bombs, x, y).finite(),
        hits(bombs, x, y) <= around_set(bombs, x, y).len(),
        around_set(bombs, x, y).subset_of(vstd::set_lib::set_int_range(0, 9).remove(4)),
        forall|k: int|
            around_set(bombs, x, y).contains(k) ==> exists|j: int|
                0 <= j < bombs.len() && adjacent(bombs[j].0 as int, bombs[j].1 as int, x, y)
                    && around_index(#[trigger] bombs[j], x, y) == k,
    decreases bombs.len(),
{
    broadcast use vstd::set::group_set_axioms;

    if bombs.len() > 0 {
        let d = bombs.drop_last();
        assert(d.no_duplicates());
        lemma_around_set(d, x, y);
        let last = bombs.last();
        if adjacent(last.0 as int, last.1 as int, x, y) {
            let k = around_index(last, x, y);
            if around_set(d, x, y).contains(k) {
                let j = choose|j: int|
                    0 <= j < d.len() && adjacent(d[j].0 as int, d[j].1 as int, x, y)
                        && around_index(#[trigger] d[j], x, y) == k;
                assert(d[j] == bombs[j]);
                assert(bombs[j] == last);
                assert(false);
            }
        }
        assert forall|k: int| around_set(bombs, x, y).contains(k) implies exists|j: int|
            0 <= j < bombs.len() && adjacent(bombs[j].0 as int, bombs[j].1 as int, x, y)
                && around_index(#[trigger] bombs[j], x, y) == k by {
            if around_set(d, x, y).contains(k) {
                let j = choose|j: int|
                    0 <= j < d.len() && adjacent(d[j].0 as int, d[j].1 as int, x, y)
                        && around_index(#[trigger] d[j], x, y) == k;
                assert(d[j] == bombs[j]);
            } else {
                assert(bombs[bombs.len() - 1] == last);
            }
        }
    }
}

/// Each bomb hits a tile at most once.
pub proof fn lemma_hits_at_most_bombs(bombs: Seq<(u8, u8)>, x: int, y: int)
    ensures
        hits(bombs, x, y) <= bombs.len(),
    decreases bombs.len(),
{
    if bombs.len() > 0 {
        lemma_hits_at_most_bombs(bombs.drop_last(), x, y);
    }
}

/// Distinct bombs hit a tile at most eight times.
pub proof fn lemma_hits_at_most_eight(bombs: Seq<(u8, u8)>, x: int, y: int)
    requires
        bombs.no_duplicates(),
    ensures
        hits(bombs, x, y) <= 8,
{
    broadcast use vstd::set::group_set_axioms;

    lemma_around_set(bombs, x, y);
    vstd::set_lib::lemma_int_range(0, 9);
    let r = vstd::set_lib::set_int_range(0, 9);
    assert(r.contains(4));
    vstd::set_lib::lemma_len_subset(around_set(bombs, x, y), r.remove(4));
}

} // verus!
