//! Grids of tiles and the neighbourhood of a tile.

use vstd::prelude::*;

pub mod bombs;
pub mod chunk;
pub mod counts;
pub mod impl_vec_grid;
pub mod populate;
pub mod vec_grid;

verus! {

/// `(x, y)` addresses a tile of `g`: both fit in a `u8` and the tile exists.
pub open spec fn in_bounds<T>(g: Seq<Seq<T>>, x: int, y: int) -> bool {
    &&& 0 <= x <= 255
    &&& 0 <= y <= 255
    &&& y < g.len()
    &&& x < g[y].len()
}

/// The tile of `g` at `(x, y)`, if any.
pub open spec fn tile_at<T>(g: Seq<Seq<T>>, x: int, y: int) -> Option<T> {
    if in_bounds(g, x, y) {
        Some(g[y][x])
    } else {
        None
    }
}

/// The offset from a tile to its `i`-th neighbour, for `0 <= i < 8`, in the
/// order: up-left, left, down-left, up, down, up-right, right, down-right.
pub open spec fn offset(i: int) -> (int, int) {
    if i == 0 {
        (-1, -1)
    } else if i == 1 {
        (-1, 0)
    } else if i == 2 {
        (-1, 1)
    } else if i == 3 {
        (0, -1)
    } else if i == 4 {
        (0, 1)
    } else if i == 5 {
        (1, -1)
    } else if i == 6 {
        (1, 0)
    } else {
        (1, 1)
    }
}

/// The offset from a tile to its `i`-th neighbour.
pub fn neighbor(i: usize) -> (r: (i8, i8))
    requires
        i < 8,
    ensures
        r.0 == offset(i as int).0,
        r.1 == offset(i as int).1,
{
    if i == 0 {
        (-1, -1)
    } else if i == 1 {
        (-1, 0)
    } else if i == 2 {
        (-1, 1)
    } else if i == 3 {
        (0, -1)
    } else if i == 4 {
        (0, 1)
    } else if i == 5 {
        (1, -1)
    } else if i == 6 {
        (1, 0)
    } else {
        (1, 1)
    }
}

/// `(x2, y2)` is one of the eight tiles around `(x1, y1)`.
pub open spec fn adjacent(x1: int, y1: int, x2: int, y2: int) -> bool {
    &&& (x1 != x2 || y1 != y2)
    &&& -1 <= x1 - x2 <= 1
    &&& -1 <= y1 - y2 <= 1
}

/// An index of a grid that can be moved by a small signed step.
pub trait GridIndex: Copy + Sized {
    /// The index moved by `value`, when the result is still an index.
    fn try_add(&self, value: i8) -> Option<Self>;
}

impl GridIndex for u8 {
    fn try_add(&self, value: i8) -> (r: Option<u8>)
        ensures
            r == (if 0 <= *self + value <= 255 {
                Some((*self + value) as u8)
            } else {
                None
            }),
    {
        let sum: i16 = (*self as i16) + (value as i16);
        if 0 <= sum && sum <= 255 {
            Some(sum as u8)
        } else {
            None
        }
    }
}

/// A grid of tiles addressed by column `x` and row `y`.
pub trait Grid {
    type Tile;

    /// The tile at `(x, y)`, if any.
    spec fn tile_at(&self, x: int, y: int) -> Option<Self::Tile>;

    /// The tile at `(x, y)`, if any.
    fn get(&self, x: i32, y: i32) -> (r: Option<&Self::Tile>)
        ensures
            match r {
                Some(t) => self.tile_at(x as int, y as int) == Some(*t),
                None => self.tile_at(x as int, y as int) is None,
            },
    ;
}

} // verus!

verus! {

/// The `i`-th neighbour of `(x, y)` is an index of `grid` that holds a tile.
pub open spec fn valid_neighbor<G: Grid>(grid: &G, x: Option<u8>, y: Option<u8>, i: int) -> bool {
    &&& x is Some
    &&& y is Some
    &&& 0 <= x->0 + offset(i).0 <= 255
    &&& 0 <= y->0 + offset(i).1 <= 255
    &&& grid.tile_at(x->0 + offset(i).0, y->0 + offset(i).1) is Some
}

/// Walks the tiles around a tile, in the order of `offset`, skipping the
/// positions that fall outside the grid.
pub struct NeighborsIter<'a, G: Grid> {
    grid: &'a G,
    x: Option<u8>,
    y: Option<u8>,
    index: usize,
}

impl<'a, G: Grid> NeighborsIter<'a, G> {
    #[verifier::type_invariant]
    spec fn index_in_range(&self) -> bool {
        self.index <= 8
    }

    /// The grid walked.
    pub closed spec fn grid(&self) -> &'a G {
        self.grid
    }

    /// The column of the centre tile, when it fits an index.
    pub closed spec fn x(&self) -> Option<u8> {
        self.x
    }

    /// The row of the centre tile, when it fits an index.
    pub closed spec fn y(&self) -> Option<u8> {
        self.y
    }

    /// How many of the eight offsets have been looked at.
    pub closed spec fn index(&self) -> nat {
        self.index as nat
    }

    /// The next neighbour that holds a tile, with its position.
    pub fn next(&mut self) -> (r: Option<((u8, u8), &'a G::Tile)>)
        ensures
            next_step(*old(self), *final(self), r),
    {
        proof {
            use_type_invariant(&*self);
        }
        if self.index == 8 {
            return None;
        }
        let (x, y) = match (self.x, self.y) {
            (Some(x), Some(y)) => (x, y),
            _ => {
                self.index = self.index + 1;
                return None;
            },
        };
        let ghost start = self.index as int;
        let grid = self.grid;
        let mut index = self.index;
        let mut found: Option<((u8, u8), &'a G::Tile)> = None;
        while index != 8
            invariant_except_break
                found is None,
            invariant
                index <= 8,
                start <= index,
                self.x == Some(x),
                self.y == Some(y),
                forall|k: int| start <= k < index && (found is None || k < index - 1)
                    ==> !valid_neighbor(grid, self.x, self.y, k),
            ensures
                match found {
                    Some(item) => {
                        let j = index - 1;
                        &&& start <= j < 8
                        &&& valid_neighbor(grid, self.x, self.y, j)
                        &&& item.0.0 == x + offset(j).0
                        &&& item.0.1 == y + offset(j).1
                        &&& grid.tile_at(item.0.0 as int, item.0.1 as int) == Some(*item.1)
                    },
                    None => index == 8,
                },
            decreases 8 - index,
        {
            let (dx, dy) = neighbor(index);
            index = index + 1;
            let nx = match x.try_add(dx) {
                Some(nx) => nx,
                None => {
                    continue;
                },
            };
            let ny = match y.try_add(dy) {
                Some(ny) => ny,
                None => {
                    continue;
                },
            };
            if let Some(tile) = grid.get(nx as i32, ny as i32) {
                found = Some(((nx, ny), tile));
                break;
            }
        }
        self.index = index;
        found
    }
}

/// The tiles around `(x, y)` in `grid`, walked in the order of `offset`.
pub fn iter_around<'a, G: Grid>(grid: &'a G, x: i32, y: i32) -> (r: NeighborsIter<'a, G>)
    ensures
        r.grid() == grid,
        r.index() == 0,
        r.x() == (if 0 <= x <= 255 { Some(x as u8) } else { None::<u8> }),
        r.y() == (if 0 <= y <= 255 { Some(y as u8) } else { None::<u8> }),
{
    let xi = if 0 <= x && x <= 255 { Some(x as u8) } else { None };
    let yi = if 0 <= y && y <= 255 { Some(y as u8) } else { None };
    NeighborsIter { grid, x: xi, y: yi, index: 0 }
}

} // verus!

verus! {

/// One call of `NeighborsIter::next` went from `o` to `f` and gave `r`:
/// the next neighbour, from the offset `o` is at, that holds a tile, with
/// its position; or nothing once the offsets are used up (at once, one
/// offset at a time, when the centre does not fit an index).
pub open spec fn next_step<'a, G: Grid>(o: NeighborsIter<'a, G>, f: NeighborsIter<'a, G>, r: Option<((u8, u8), &'a G::Tile)>) -> bool {
    &&& (f.grid() == o.grid())
    &&& (f.x() == o.x())
    &&& (f.y() == o.y())
    &&& (f.index() <= 8)
    &&& (o.index() == 8 ==> r is None && f.index() == 8)
    &&& (match r {
        Some(item) => {
            let j = f.index() - 1;
            &&& o.index() <= j < 8
            &&& valid_neighbor(o.grid(), o.x(), o.y(), j)
            &&& item.0.0 == o.x()->0 + offset(j).0
            &&& item.0.1 == o.y()->0 + offset(j).1
            &&& o.grid().tile_at(item.0.0 as int, item.0.1 as int) == Some(*item.1)
            &&& forall|k: int|
                o.index() <= k < j ==> !valid_neighbor(
                    o.grid(),
                    o.x(),
                    o.y(),
                    k,
                )
        },
        None => o.index() < 8 ==> {
            ||| (o.x() is None || o.y() is None) && f.index()
                == o.index() + 1
            ||| {
                &&& o.x() is Some
                &&& o.y() is Some
                &&& f.index() == 8
                &&& forall|k: int|
                    o.index() <= k < 8 ==> !valid_neighbor(
                        o.grid(),
                        o.x(),
                        o.y(),
                        k,
                    )
            }
        },
    })
}

/// The position of the `k`-th neighbour of `(x, y)`.
pub open spec fn neighbor_pos(x: Option<u8>, y: Option<u8>, k: int) -> (int, int) {
    (x->0 + offset(k).0, y->0 + offset(k).1)
}

/// The positions of the neighbours of `(x, y)` that hold a tile, among the
/// offsets from `k` on, in the order of `offset`.
pub open spec fn around_from<G: Grid>(grid: &G, x: Option<u8>, y: Option<u8>, k: int) -> Seq<(int, int)>
    decreases 8 - k,
{
    if k < 0 || k >= 8 {
        Seq::empty()
    } else if valid_neighbor(grid, x, y, k) {
        seq![neighbor_pos(x, y, k)] + around_from(grid, x, y, k + 1)
    } else {
        around_from(grid, x, y, k + 1)
    }
}

/// The positions that the results `rs` give.
pub open spec fn positions<'a, T>(rs: Seq<Option<((u8, u8), &'a T)>>) -> Seq<(int, int)> {
    rs.map_values(|r: Option<((u8, u8), &'a T)>| match r {
        Some(item) => (item.0.0 as int, item.0.1 as int),
        None => (0int, 0int),
    })
}

/// Offsets that hold no tile add nothing to the walk.
proof fn lemma_around_skip<G: Grid>(grid: &G, x: Option<u8>, y: Option<u8>, i: int, j: int)
    requires
        0 <= i <= j <= 8,
        forall|k: int| i <= k < j ==> !valid_neighbor(grid, x, y, k),
    ensures
        around_from(grid, x, y, i) == around_from(grid, x, y, j),
    decreases j - i,
{
    if i < j {
        lemma_around_skip(grid, x, y, i + 1, j);
    }
}

/// After `j` calls that each gave a neighbour, those neighbours are the
/// first ones of the walk, and the rest lie ahead of the offset reached.
proof fn lemma_walk_prefix<'a, G: Grid>(its: Seq<NeighborsIter<'a, G>>, rs: Seq<Option<((u8, u8), &'a G::Tile)>>, j: int)
    requires
        its.len() == rs.len() + 1,
        its[0].index() == 0,
        forall|j: int| 0 <= j < rs.len() ==> next_step(#[trigger] its[j], its[j + 1], rs[j]),
        0 <= j <= rs.len(),
        forall|i: int| 0 <= i < j ==> rs[i] is Some,
    ensures
        around_from(its[0].grid(), its[0].x(), its[0].y(), 0) == positions(rs.take(j)) + around_from(
            its[0].grid(),
            its[0].x(),
            its[0].y(),
            its[j].index() as int,
        ),
    decreases j,
{
    let g = its[0].grid();
    let x = its[0].x();
    let y = its[0].y();
    if j == 0 {
        assert(positions(rs.take(0)) =~= Seq::<(int, int)>::empty());
        assert(Seq::<(int, int)>::empty() + around_from(g, x, y, 0) =~= around_from(g, x, y, 0));
    } else {
        lemma_walk_prefix(its, rs, j - 1);
        lemma_walk_same(its, rs, j - 1);
        let o = its[j - 1];
        let f = its[j];
        assert(next_step(o, f, rs[j - 1]));
        let k = f.index() - 1;
        lemma_around_skip(g, x, y, o.index() as int, k);
        assert(positions(rs.take(j)) =~= positions(rs.take(j - 1)).push(neighbor_pos(x, y, k)));
        assert(positions(rs.take(j - 1)) + around_from(g, x, y, o.index() as int) =~= positions(rs.take(j)) + around_from(
            g,
            x,
            y,
            f.index() as int,
        ));
    }
}

/// A call that gives nothing, after calls that each gave a neighbour,
/// ends the walk: those neighbours were all of them.
proof fn lemma_walk_end<'a, G: Grid>(its: Seq<NeighborsIter<'a, G>>, rs: Seq<Option<((u8, u8), &'a G::Tile)>>, j: int)
    requires
        its.len() == rs.len() + 1,
        its[0].index() == 0,
        forall|j: int| 0 <= j < rs.len() ==> next_step(#[trigger] its[j], its[j + 1], rs[j]),
        0 <= j < rs.len(),
        forall|i: int| 0 <= i < j ==> rs[i] is Some,
        rs[j] is None,
    ensures
        around_from(its[0].grid(), its[0].x(), its[0].y(), 0) == positions(rs.take(j)),
{
    let g = its[0].grid();
    let x = its[0].x();
    let y = its[0].y();
    lemma_walk_prefix(its, rs, j);
    lemma_walk_same(its, rs, j);
    let o = its[j];
    assert(next_step(o, its[j + 1], rs[j]));
    if x is None || y is None {
        lemma_around_none(g, x, y, o.index() as int);
    } else if o.index() < 8 {
        lemma_around_skip(g, x, y, o.index() as int, 8);
    }
    assert(positions(rs.take(j)) + Seq::<(int, int)>::empty() =~= positions(rs.take(j)));
}

/// A walk around a tile, from the start: the calls of `next` give, in the
/// order of `offset`, the positions of the neighbours that hold a tile,
/// each once, and then nothing, for ever.
pub proof fn law_walk_around<'a, G: Grid>(its: Seq<NeighborsIter<'a, G>>, rs: Seq<Option<((u8, u8), &'a G::Tile)>>)
    requires
        its.len() == rs.len() + 1,
        its[0].index() == 0,
        forall|j: int| 0 <= j < rs.len() ==> next_step(#[trigger] its[j], its[j + 1], rs[j]),
    ensures
        forall|j: int|
            0 <= j <= rs.len() && (forall|i: int| 0 <= i < j ==> rs[i] is Some) ==> #[trigger] positions(rs.take(j))
                .is_prefix_of(around_from(its[0].grid(), its[0].x(), its[0].y(), 0)),
        forall|j: int|
            0 <= j < rs.len() && (forall|i: int| 0 <= i < j ==> rs[i] is Some) && #[trigger] rs[j] is None ==> around_from(
                its[0].grid(),
                its[0].x(),
                its[0].y(),
                0,
            ) == positions(rs.take(j)),
        forall|i: int, j: int| 0 <= i < j < rs.len() && #[trigger] rs[i] is None ==> #[trigger] rs[j] is None,
{
    let g = its[0].grid();
    let x = its[0].x();
    let y = its[0].y();
    assert forall|j: int|
        0 <= j <= rs.len() && (forall|i: int| 0 <= i < j ==> rs[i] is Some) implies #[trigger] positions(rs.take(j))
        .is_prefix_of(around_from(g, x, y, 0)) by {
        lemma_walk_prefix(its, rs, j);
        let p = positions(rs.take(j));
        let a = around_from(g, x, y, its[j].index() as int);
        assert((p + a).take(p.len() as int) =~= p);
    }
    assert forall|j: int|
        0 <= j < rs.len() && (forall|i: int| 0 <= i < j ==> rs[i] is Some) && #[trigger] rs[j] is None implies around_from(
        g,
        x,
        y,
        0,
    ) == positions(rs.take(j)) by {
        lemma_walk_end(its, rs, j);
    }
    assert forall|i: int, j: int| 0 <= i < j < rs.len() && #[trigger] rs[i] is None implies #[trigger] rs[j] is None by {
        lemma_none_stays(its, rs, i, j);
    }
}

/// A walk keeps its grid and centre, and never goes past the last offset.
proof fn lemma_walk_same<'a, G: Grid>(its: Seq<NeighborsIter<'a, G>>, rs: Seq<Option<((u8, u8), &'a G::Tile)>>, j: int)
    requires
        its.len() == rs.len() + 1,
        its[0].index() == 0,
        forall|j: int| 0 <= j < rs.len() ==> next_step(#[trigger] its[j], its[j + 1], rs[j]),
        0 <= j <= rs.len(),
    ensures
        its[j].grid() == its[0].grid(),
        its[j].x() == its[0].x(),
        its[j].y() == its[0].y(),
        its[j].index() <= 8,
    decreases j,
{
    if j > 0 {
        lemma_walk_same(its, rs, j - 1);
        assert(next_step(its[j - 1], its[j], rs[j - 1]));
    }
}

/// Without a centre that fits an index, no offset holds a tile.
proof fn lemma_around_none<G: Grid>(grid: &G, x: Option<u8>, y: Option<u8>, k: int)
    requires
        x is None || y is None,
    ensures
        around_from(grid, x, y, k) == Seq::<(int, int)>::empty(),
    decreases 8 - k,
{
    if 0 <= k < 8 {
        lemma_around_none(grid, x, y, k + 1);
    }
}

/// Once a walk gives nothing, it gives nothing from then on.
proof fn lemma_none_stays<'a, G: Grid>(its: Seq<NeighborsIter<'a, G>>, rs: Seq<Option<((u8, u8), &'a G::Tile)>>, i: int, j: int)
    requires
        its.len() == rs.len() + 1,
        its[0].index() == 0,
        forall|j: int| 0 <= j < rs.len() ==> next_step(#[trigger] its[j], its[j + 1], rs[j]),
        0 <= i < j < rs.len(),
        rs[i] is None,
    ensures
        rs[j] is None,
        its[0].x() is Some && its[0].y() is Some ==> its[j].index() == 8,
    decreases j - i,
{
    lemma_walk_same(its, rs, i);
    lemma_walk_same(its, rs, j);
    assert(next_step(its[i], its[i + 1], rs[i]));
    assert(next_step(its[j], its[j + 1], rs[j]));
    if j > i + 1 {
        lemma_none_stays(its, rs, i, j - 1);
        lemma_walk_same(its, rs, j - 1);
        assert(next_step(its[j - 1], its[j], rs[j - 1]));
    }
}

} // verus!
