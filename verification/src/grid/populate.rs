//! Choosing where the bombs go, away from the first discovered tile.

use rand::rngs::ThreadRng;
use rand::seq::SliceRandom;
use vstd::prelude::*;

use super::bombs::{
    after_bombs, around_index, around_set, base, counts_fit, hits, lemma_around_set, lemma_hits_at_most_bombs,
};
use super::adjacent;
use super::vec_grid::VecGrid;
use crate::tile::{Tile, TileContent};

verus! {

/// Which tiles around the first discovered tile are kept free of bombs.
#[derive(Debug, Clone, Copy, PartialEq, Eq, Structural)]
pub enum SafeZone {
    /// The 5 by 5 square centred on the start.
    Square,
    /// The three rows and the three columns through the start.
    Cross,
}

/// `|a - b|`.
pub open spec fn dist(a: int, b: int) -> int {
    if a < b {
        b - a
    } else {
        a - b
    }
}

/// The tile `(x, y)` may hold a bomb when the game starts at `(sx, sy)`.
///
/// For `Square`, a negative start coordinate puts every tile out of reach
/// on that axis (it is read as a huge unsigned number).
pub open spec fn may_hold_bomb(zone: SafeZone, x: int, y: int, sx: int, sy: int) -> bool {
    match zone {
        SafeZone::Square => (sx < 0 || dist(x, sx) > 2) || (sy < 0 || dist(y, sy) > 2),
        SafeZone::Cross => dist(x, sx) > 1 && dist(y, sy) > 1,
    }
}

/// The tiles `(0, y)` to `(n - 1, y)` that may hold a bomb, left to right.
pub open spec fn row_candidates(zone: SafeZone, n: int, y: int, sx: int, sy: int) -> Seq<(u8, u8)>
    decreases n,
{
    if n <= 0 {
        Seq::empty()
    } else {
        let rest = row_candidates(zone, n - 1, y, sx, sy);
        if may_hold_bomb(zone, n - 1, y, sx, sy) {
            rest.push(((n - 1) as u8, y as u8))
        } else {
            rest
        }
    }
}

/// The tiles of a `width` by `height` grid that may hold a bomb, row by row.
pub open spec fn candidates(zone: SafeZone, width: int, height: int, sx: int, sy: int) -> Seq<(u8, u8)>
    decreases height,
{
    if height <= 0 {
        Seq::empty()
    } else {
        candidates(zone, width, height - 1, sx, sy) + row_candidates(zone, width, height - 1, sx, sy)
    }
}

/// The width of a grid: the length of its first row.
pub open spec fn width_of<T>(g: Seq<Seq<T>>) -> int {
    if g.len() > 0 {
        g[0].len() as int
    } else {
        0
    }
}

/// How many bombs a `width` by `height` grid gets: a fifth of its tiles.
pub open spec fn bomb_amount(width: int, height: int) -> int {
    (width * height) / 5
}

/// `bombs` is a possible choice of bombs for `g` when the game starts at
/// `(sx, sy)`: distinct tiles that may hold a bomb, as many as
/// `bomb_amount` says, or all of them when there are fewer.
pub open spec fn valid_bombs(zone: SafeZone, g: Seq<Seq<Tile>>, bombs: Seq<(u8, u8)>, sx: int, sy: int) -> bool {
    let c = candidates(zone, width_of(g), g.len() as int, sx, sy);
    let amount = bomb_amount(width_of(g), g.len() as int);
    &&& bombs.no_duplicates()
    &&& bombs.len() == (if amount < c.len() { amount } else { c.len() as int })
    &&& forall|i: int| 0 <= i < bombs.len() ==> c.contains(#[trigger] bombs[i])
}

/// Picks `amount` of `items` at random, or all of them when there are fewer,
/// with `rand`'s `SliceRandom::partial_shuffle` on the thread's generator.
/// What is stated holds of every outcome: the result has that many
/// elements, each taken from its own position of `items` (as multisets the
/// result is contained in `items`). Which ones, and their order, are chance.
#[verifier::external_body]
fn pick_random<T: Copy>(items: Vec<T>, amount: usize) -> (r: Vec<T>)
    ensures
        r@.len() == (if amount < items@.len() { amount as nat } else { items@.len() }),
        r@.to_multiset().subset_of(items@.to_multiset()),
{
    let mut items = items;
    let mut rng = ThreadRng::default();
    items.partial_shuffle(&mut rng, amount).0.to_vec()
}

/// The exec counterpart of `may_hold_bomb`.
fn may_hold_bomb_exec(zone: SafeZone, x: u8, y: u8, sx: i32, sy: i32) -> (r: bool)
    ensures
        r == may_hold_bomb(zone, x as int, y as int, sx as int, sy as int),
{
    let dx: i64 = if (x as i64) < (sx as i64) { sx as i64 - x as i64 } else { x as i64 - sx as i64 };
    let dy: i64 = if (y as i64) < (sy as i64) { sy as i64 - y as i64 } else { y as i64 - sy as i64 };
    match zone {
        SafeZone::Square => (sx < 0 || dx > 2) || (sy < 0 || dy > 2),
        SafeZone::Cross => dx > 1 && dy > 1,
    }
}

proof fn lemma_row_candidates(zone: SafeZone, n: int, y: int, sx: int, sy: int)
    requires
        0 <= n <= 256,
        0 <= y <= 255,
    ensures
        row_candidates(zone, n, y, sx, sy).no_duplicates(),
        forall|p: (u8, u8)|
            row_candidates(zone, n, y, sx, sy).contains(p) <==> (p.0 < n && p.1 == y && may_hold_bomb(
                zone,
                p.0 as int,
                p.1 as int,
                sx,
                sy,
            )),
    decreases n,
{
    if n > 0 {
        lemma_row_candidates(zone, n - 1, y, sx, sy);
        let rest = row_candidates(zone, n - 1, y, sx, sy);
        if may_hold_bomb(zone, n - 1, y, sx, sy) {
            let q = ((n - 1) as u8, y as u8);
            assert forall|p: (u8, u8)| rest.push(q).contains(p) <==> (p.0 < n && p.1 == y
                && may_hold_bomb(zone, p.0 as int, p.1 as int, sx, sy)) by {
                if rest.push(q).contains(p) {
                    let i = choose|i: int| 0 <= i < rest.push(q).len() && rest.push(q)[i] == p;
                    if i < rest.len() {
                        assert(rest.contains(p));
                    }
                }
                if p.0 < n && p.1 == y && may_hold_bomb(zone, p.0 as int, p.1 as int, sx, sy) {
                    if p.0 == n - 1 {
                        assert(rest.push(q)[rest.len() as int] == p);
                    } else {
                        assert(rest.contains(p));
                        let i = choose|i: int| 0 <= i < rest.len() && rest[i] == p;
                        assert(rest.push(q)[i] == p);
                    }
                }
            }
            assert(!rest.contains(q));
        }
    }
}

/// The candidates are distinct, and are exactly the tiles of the grid that
/// may hold a bomb.
pub proof fn lemma_candidates(zone: SafeZone, w: int, h: int, sx: int, sy: int)
    requires
        0 <= w <= 256,
        0 <= h <= 256,
    ensures
        candidates(zone, w, h, sx, sy).no_duplicates(),
        forall|p: (u8, u8)|
            candidates(zone, w, h, sx, sy).contains(p) <==> (p.0 < w && p.1 < h && may_hold_bomb(
                zone,
                p.0 as int,
                p.1 as int,
                sx,
                sy,
            )),
    decreases h,
{
    if h > 0 {
        lemma_candidates(zone, w, h - 1, sx, sy);
        lemma_row_candidates(zone, w, h - 1, sx, sy);
        let a = candidates(zone, w, h - 1, sx, sy);
        let b = row_candidates(zone, w, h - 1, sx, sy);
        assert forall|p: (u8, u8)| (a + b).contains(p) <==> (p.0 < w && p.1 < h && may_hold_bomb(
            zone,
            p.0 as int,
            p.1 as int,
            sx,
            sy,
        )) by {
            if (a + b).contains(p) {
                let i = choose|i: int| 0 <= i < (a + b).len() && (a + b)[i] == p;
                if i < a.len() {
                    assert(a.contains(p));
                } else {
                    assert(b[i - a.len()] == p);
                    assert(b.contains(p));
                }
            }
            if p.0 < w && p.1 < h && may_hold_bomb(zone, p.0 as int, p.1 as int, sx, sy) {
                if p.1 == h - 1 {
                    assert(b.contains(p));
                    let i = choose|i: int| 0 <= i < b.len() && b[i] == p;
                    assert((a + b)[a.len() + i] == p);
                } else {
                    assert(a.contains(p));
                    let i = choose|i: int| 0 <= i < a.len() && a[i] == p;
                    assert((a + b)[i] == p);
                }
            }
        }
        assert forall|i: int, j: int| 0 <= i < (a + b).len() && 0 <= j < (a + b).len() && i != j implies (a
            + b)[i] != (a + b)[j] by {
            if i < a.len() && j >= a.len() {
                assert(a.contains((a + b)[i]));
                assert(b.contains((a + b)[j]));
            }
            if j < a.len() && i >= a.len() {
                assert(a.contains((a + b)[j]));
                assert(b.contains((a + b)[i]));
            }
        }
    }
}

/// The tiles of a `width` by `height` grid that may hold a bomb, row by row.
fn candidate_tiles(zone: SafeZone, width: u16, height: u16, sx: i32, sy: i32) -> (r: Vec<(u8, u8)>)
    requires
        width <= 256,
        height <= 256,
    ensures
        r@ == candidates(zone, width as int, height as int, sx as int, sy as int),
{
    let mut r: Vec<(u8, u8)> = Vec::new();
    let mut y: u16 = 0;
    while y < height
        invariant
            y <= height,
            height <= 256,
            width <= 256,
            r@ == candidates(zone, width as int, y as int, sx as int, sy as int),
        decreases height - y,
    {
        let ghost before = r@;
        let mut x: u16 = 0;
        while x < width
            invariant
                x <= width,
                y < height,
                height <= 256,
                width <= 256,
                r@ == before + row_candidates(zone, x as int, y as int, sx as int, sy as int),
            decreases width - x,
        {
            let x8 = x as u8;
            let y8 = y as u8;
            if may_hold_bomb_exec(zone, x8, y8, sx, sy) {
                r.push((x8, y8));
            }
            x = x + 1;
        }
        y = y + 1;
    }
    r
}

/// How many bombs `g` gets when the game starts at `(sx, sy)`: a fifth of
/// its tiles, or every tile that may hold one when there are fewer.
pub open spec fn bomb_total(zone: SafeZone, g: Seq<Seq<Tile>>, sx: int, sy: int) -> int {
    let c = candidates(zone, width_of(g), g.len() as int, sx, sy);
    let amount = bomb_amount(width_of(g), g.len() as int);
    if amount < c.len() {
        amount
    } else {
        c.len() as int
    }
}

/// The places, in the 3 by 3 square around `(x, y)` read row by row, of
/// the tiles next to it in a `width` by `height` grid that may hold a bomb.
pub open spec fn candidates_around(zone: SafeZone, width: int, height: int, x: int, y: int, sx: int, sy: int) -> Set<int> {
    Set::new(
        |k: int|
            0 <= k < 9 && k != 4 && 0 <= x + k % 3 - 1 < width && 0 <= y + k / 3 - 1 < height && may_hold_bomb(
                zone,
                x + k % 3 - 1,
                y + k / 3 - 1,
                sx,
                sy,
            ),
    )
}

/// The bombs of `g` can be placed, however chance picks them, when the
/// game starts at `(sx, sy)`: at most 256 rows, a first row of at most 256
/// tiles, at most 65535 tiles in a rectangle of that width, and room in
/// the count of every tile that is not a bomb for as many bombs as can
/// fall next to it: no more than are placed, nor than it has neighbours
/// that may hold one.
pub open spec fn fits_bombs(zone: SafeZone, g: Seq<Seq<Tile>>, sx: int, sy: int) -> bool {
    &&& g.len() <= 256
    &&& width_of(g) <= 256
    &&& width_of(g) * g.len() <= 65535
    &&& forall|x: int, y: int|
        0 <= y < g.len() && 0 <= x < g[y].len() && x <= 255 && y <= 255 && #[trigger] g[y][x].content
            != TileContent::Bomb ==> base(g[y][x].content) + vstd::math::min(
            bomb_total(zone, g, sx, sy),
            candidates_around(zone, width_of(g), g.len() as int, x, y, sx, sy).len() as int,
        ) <= 255
}

/// The bombs of `g` can be placed wherever the game starts: at most 256
/// rows, a first row of at most 256 tiles, at most 65535 tiles in a
/// rectangle of that width, and room in every count for eight more.
pub open spec fn can_populate(g: Seq<Seq<Tile>>) -> bool {
    &&& g.len() <= 256
    &&& width_of(g) <= 256
    &&& width_of(g) * g.len() <= 65535
    &&& forall|x: int, y: int|
        0 <= y < g.len() && 0 <= x < g[y].len() ==> base(#[trigger] g[y][x].content) <= 247
}

/// A grid of at most 255 rows, with a first row of at most 255 tiles and
/// room in its counts, can hold its bombs.
pub proof fn lemma_can_populate(g: Seq<Seq<Tile>>)
    requires
        g.len() <= 255,
        width_of(g) <= 255,
        forall|x: int, y: int| 0 <= y < g.len() && 0 <= x < g[y].len() ==> base(#[trigger] g[y][x].content) <= 247,
    ensures
        can_populate(g),
{
    let w = width_of(g);
    let h = g.len() as int;
    assert(w * h <= 65535) by (nonlinear_arith)
        requires
            0 <= w <= 255,
            0 <= h <= 255,
    ;
}

/// A tile has at most eight neighbours that may hold a bomb.
proof fn lemma_candidates_around(zone: SafeZone, width: int, height: int, x: int, y: int, sx: int, sy: int)
    ensures
        candidates_around(zone, width, height, x, y, sx, sy).finite(),
        candidates_around(zone, width, height, x, y, sx, sy).len() <= 8,
{
    broadcast use vstd::set::group_set_axioms;

    vstd::set_lib::lemma_int_range(0, 9);
    let r = vstd::set_lib::set_int_range(0, 9);
    assert(r.contains(4));
    vstd::set_lib::lemma_len_subset(candidates_around(zone, width, height, x, y, sx, sy), r.remove(4));
}

/// A grid with room for eight more bombs in every count can hold its bombs
/// wherever the game starts.
pub proof fn lemma_can_populate_fits(zone: SafeZone, g: Seq<Seq<Tile>>, sx: int, sy: int)
    requires
        can_populate(g),
    ensures
        fits_bombs(zone, g, sx, sy),
{
    assert forall|x: int, y: int|
        0 <= y < g.len() && 0 <= x < g[y].len() && x <= 255 && y <= 255 && #[trigger] g[y][x].content
            != TileContent::Bomb implies base(g[y][x].content) + vstd::math::min(
            bomb_total(zone, g, sx, sy),
            candidates_around(zone, width_of(g), g.len() as int, x, y, sx, sy).len() as int,
        ) <= 255 by {
        lemma_candidates_around(zone, width_of(g), g.len() as int, x, y, sx, sy);
    }
}

/// Distinct bombs on tiles that may hold one hit a tile no more often than
/// it has neighbours that may hold one.
proof fn lemma_hits_at_most_candidates(zone: SafeZone, w: int, h: int, bombs: Seq<(u8, u8)>, x: int, y: int, sx: int, sy: int)
    requires
        0 <= w <= 256,
        0 <= h <= 256,
        bombs.no_duplicates(),
        forall|i: int| 0 <= i < bombs.len() ==> candidates(zone, w, h, sx, sy).contains(#[trigger] bombs[i]),
    ensures
        hits(bombs, x, y) <= candidates_around(zone, w, h, x, y, sx, sy).len(),
{
    broadcast use vstd::set::group_set_axioms;

    lemma_around_set(bombs, x, y);
    lemma_candidates(zone, w, h, sx, sy);
    lemma_candidates_around(zone, w, h, x, y, sx, sy);
    let around = around_set(bombs, x, y);
    let cands = candidates_around(zone, w, h, x, y, sx, sy);
    assert forall|k: int| around.contains(k) implies cands.contains(k) by {
        let j = choose|j: int|
            0 <= j < bombs.len() && adjacent(bombs[j].0 as int, bombs[j].1 as int, x, y)
                && around_index(#[trigger] bombs[j], x, y) == k;
        let p = bombs[j];
        assert(candidates(zone, w, h, sx, sy).contains(p));
        let a = p.0 - x + 1;
        let b = p.1 - y + 1;
        assert(k == a + 3 * b);
        assert(k % 3 == a && k / 3 == b) by (nonlinear_arith)
            requires
                k == a + 3 * b,
                0 <= a <= 2,
                0 <= b <= 2,
        ;
    }
    vstd::set_lib::lemma_len_subset(around, cands);
}

impl VecGrid<Tile> {
    /// Places a fifth as many bombs as there are tiles, at random, on tiles
    /// that `zone` leaves out of reach of the start `(sx, sy)`.
    pub(crate) fn place_random_bombs(&mut self, zone: SafeZone, sx: i32, sy: i32)
        requires
            fits_bombs(zone, old(self).rows(), sx as int, sy as int),
        ensures
            exists|bombs: Seq<(u8, u8)>|
                valid_bombs(zone, old(self).rows(), bombs, sx as int, sy as int) && final(self).rows()
                    == after_bombs(old(self).rows(), bombs),
    {
        let height = self.grid.len();
        let width = if height > 0 { self.grid[0].len() } else { 0 };
        let h16 = height as u16;
        let w16 = width as u16;
        let cands = candidate_tiles(zone, w16, h16, sx, sy);
        assert((w16 as int) * (h16 as int) <= 65535);
        let amount: usize = (w16 as usize * h16 as usize) / 5;
        proof {
            lemma_candidates(zone, w16 as int, h16 as int, sx as int, sy as int);
        }
        let bombs = pick_random(cands, amount);
        proof {
            let c = candidates(zone, w16 as int, h16 as int, sx as int, sy as int);
            c.lemma_multiset_has_no_duplicates();
            broadcast use vstd::multiset::group_multiset_axioms;
            assert forall|p: (u8, u8)| bombs@.to_multiset().contains(p) implies bombs@.to_multiset().count(p) == 1 by {
                assert(bombs@.to_multiset().count(p) <= c.to_multiset().count(p));
                assert(c.to_multiset().count(p) > 0);
                assert(c.to_multiset().contains(p));
            }
            bombs@.lemma_multiset_has_no_duplicates_conv();
            assert forall|i: int| 0 <= i < bombs@.len() implies c.contains(#[trigger] bombs@[i]) by {
                vstd::seq_lib::to_multiset_contains(bombs@, bombs@[i]);
                assert(bombs@.contains(bombs@[i]));
                assert(bombs@.to_multiset().count(bombs@[i]) > 0);
                assert(c.to_multiset().count(bombs@[i]) > 0);
                vstd::seq_lib::to_multiset_contains(c, bombs@[i]);
            }
            let g = self.rows();
            assert forall|x: int, y: int|
                0 <= y < g.len() && 0 <= x < g[y].len() && x <= 255 && y <= 255 && g[y][x].content
                    != TileContent::Bomb implies base(g[y][x].content) + super::bombs::hits(bombs@, x, y) <= 255 by {
                lemma_hits_at_most_bombs(bombs@, x, y);
                lemma_hits_at_most_candidates(zone, w16 as int, h16 as int, bombs@, x, y, sx as int, sy as int);
            }
        }
        self.place_bombs(&bombs);
    }
}

impl VecGrid<Tile> {
    /// Places a fifth as many bombs as there are tiles, at random, on tiles
    /// outside the 5 by 5 square centred on `(input_x, input_y)`, where the
    /// game starts. The grid's width is the length of its first row.
    pub fn populate(&mut self, input_x: i32, input_y: i32)
        requires
            fits_bombs(SafeZone::Square, old(self).rows(), input_x as int, input_y as int),
        ensures
            exists|bombs: Seq<(u8, u8)>|
                valid_bombs(SafeZone::Square, old(self).rows(), bombs, input_x as int, input_y as int)
                    && final(self).rows() == after_bombs(old(self).rows(), bombs),
    {
        self.place_random_bombs(SafeZone::Square, input_x, input_y);
    }
}

} // verus!
