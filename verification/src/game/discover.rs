//! Discovering a tile, and the flood of discoveries that an empty tile
//! starts.

use vstd::prelude::*;

use super::GameEvent;
use super::overs::{
    game_overs, lemma_flood_overs_none, lemma_flood_overs_one, lemma_flood_overs_split, lemma_game_overs_add,
    lemma_untouched_bomb_kept, cell_overs, count_untouched_bombs, flood_overs, overs_told,
};
use crate::grid::vec_grid::VecGrid;
use crate::grid::{adjacent, in_bounds, neighbor, offset, Grid};
use crate::tile::{Tile, TileContent, TileState};

verus! {

/// `(x, y)` holds an untouched tile that is not a bomb.
pub open spec fn untouched_safe(g: Seq<Seq<Tile>>, x: int, y: int) -> bool {
    &&& in_bounds(g, x, y)
    &&& g[y][x].state == TileState::Untouched
    &&& g[y][x].content != TileContent::Bomb
}

/// `(x, y)` holds an untouched bomb.
pub open spec fn untouched_bomb(g: Seq<Seq<Tile>>, x: int, y: int) -> bool {
    &&& in_bounds(g, x, y)
    &&& g[y][x].state == TileState::Untouched
    &&& g[y][x].content == TileContent::Bomb
}

/// What discovering `(sx, sy)` tells about the start itself: an untouched
/// bomb is one game over and nothing else; an untouched number is its one
/// update and nothing else; an untouched empty tile is told first; a tile
/// that is missing or not untouched tells nothing.
pub open spec fn start_told(g0: Seq<Seq<Tile>>, ev: Seq<GameEvent>, sx: int, sy: int) -> bool {
    if untouched_bomb(g0, sx, sy) {
        ev == seq![GameEvent::GameOver {  }]
    } else if untouched_safe(g0, sx, sy) {
        &&& ev.len() >= 1
        &&& ev[0] == (GameEvent::TileStateUpdate {
            x: sx as i32,
            y: sy as i32,
            state: TileState::Discovered(g0[sy][sx].content),
        })
        &&& g0[sy][sx].content != TileContent::Empty ==> ev.len() == 1
    } else {
        ev.len() == 0
    }
}

/// The tile `(x, y)` was untouched in `g0` and is not in `g1`.
pub open spec fn newly(g0: Seq<Seq<Tile>>, g1: Seq<Seq<Tile>>, x: int, y: int) -> bool {
    &&& in_bounds(g0, x, y)
    &&& g0[y][x].state == TileState::Untouched
    &&& g1[y][x].state != TileState::Untouched
}

/// `g0` and `g1` have the same rows of the same lengths.
pub open spec fn same_shape<T, U>(g0: Seq<Seq<T>>, g1: Seq<Seq<U>>) -> bool {
    &&& g0.len() == g1.len()
    &&& forall|y: int| 0 <= y < g0.len() ==> #[trigger] g0[y].len() == g1[y].len()
}

/// `g1` is `g0` with some untouched tiles that are not bombs discovered.
pub open spec fn reveals_only(g0: Seq<Seq<Tile>>, g1: Seq<Seq<Tile>>) -> bool {
    &&& same_shape(g0, g1)
    &&& forall|x: int, y: int|
        0 <= y < g0.len() && 0 <= x < g0[y].len() ==> #[trigger] g1[y][x] == g0[y][x] || {
            &&& newly(g0, g1, x, y)
            &&& g0[y][x].content != TileContent::Bomb
            &&& g1[y][x] == Tile {
                content: g0[y][x].content,
                state: TileState::Discovered(g0[y][x].content),
            }
        }
}

/// The event tells that the tile `(x, y)` changed.
pub open spec fn update_at(e: GameEvent, x: int, y: int) -> bool {
    e matches GameEvent::TileStateUpdate { x: ex, y: ey, .. } && ex == x && ey == y
}

/// None of the eight tiles around `(x, y)` is left untouched but safe.
pub open spec fn neighbors_settled(g: Seq<Seq<Tile>>, x: int, y: int) -> bool {
    forall|k: int| 0 <= k < 8 ==> !untouched_safe(g, x + #[trigger] offset(k).0, y + offset(k).1)
}

/// One of the eight tiles around `(x, y)` is an untouched bomb.
pub open spec fn bomb_next_to(g: Seq<Seq<Tile>>, x: int, y: int) -> bool {
    exists|k: int| 0 <= k < 8 && untouched_bomb(g, x + #[trigger] offset(k).0, y + offset(k).1)
}

/// The events of a discovery that starts at `(sx, sy)` and turns `g0` into
/// `g1`: one update for each discovered tile, each telling its new state;
/// the first is the start, and each other one is next to an empty tile
/// discovered before it. Besides updates there are only game overs.
pub open spec fn discovery_events(
    g0: Seq<Seq<Tile>>,
    g1: Seq<Seq<Tile>>,
    ev: Seq<GameEvent>,
    sx: int,
    sy: int,
) -> bool {
    &&& forall|i: int|
        0 <= i < ev.len() ==> (#[trigger] ev[i] is GameOver) || {
            &&& ev[i] is TileStateUpdate
            &&& newly(g0, g1, ev[i]->x as int, ev[i]->y as int)
            &&& ev[i]->state == TileState::Discovered(g0[ev[i]->y as int][ev[i]->x as int].content)
            &&& (ev[i]->x == sx && ev[i]->y == sy) || exists|j: int|
                0 <= j < i && #[trigger] ev[j] is TileStateUpdate && g0[ev[j]->y as int][ev[j]->x as int].content
                    == TileContent::Empty && adjacent(
                    ev[j]->x as int,
                    ev[j]->y as int,
                    ev[i]->x as int,
                    ev[i]->y as int,
                )
        }
    &&& forall|i: int, j: int|
        0 <= i < ev.len() && 0 <= j < ev.len() && #[trigger] ev[i] is TileStateUpdate
            && #[trigger] ev[j] is TileStateUpdate && ev[i]->x == ev[j]->x && ev[i]->y == ev[j]->y ==> i == j
    &&& forall|x: int, y: int|
        #[trigger] newly(g0, g1, x, y) ==> exists|i: int| 0 <= i < ev.len() && update_at(#[trigger] ev[i], x, y)
}

/// Every tile that the flood should reach is discovered: the start, if it
/// is untouched and safe, and every untouched safe tile next to a
/// discovered empty tile.
pub open spec fn flood_closed(g0: Seq<Seq<Tile>>, g1: Seq<Seq<Tile>>, sx: int, sy: int) -> bool {
    &&& untouched_safe(g0, sx, sy) ==> newly(g0, g1, sx, sy)
    &&& forall|x: int, y: int|
        #[trigger] newly(g0, g1, x, y) && g0[y][x].content == TileContent::Empty ==> neighbors_settled(g1, x, y)
}

/// The discovery reaches a bomb: the start is one, or a discovered empty
/// tile has one next to it.
pub open spec fn reaches_bomb(g0: Seq<Seq<Tile>>, g1: Seq<Seq<Tile>>, sx: int, sy: int) -> bool {
    ||| untouched_bomb(g0, sx, sy)
    ||| exists|x: int, y: int|
        #[trigger] newly(g0, g1, x, y) && g0[y][x].content == TileContent::Empty && bomb_next_to(g0, x, y)
}

/// Some event is a game over.
pub open spec fn has_game_over(ev: Seq<GameEvent>) -> bool {
    exists|i: int| 0 <= i < ev.len() && #[trigger] ev[i] is GameOver
}

/// Discovering `(sx, sy)` turns `g0` into `g1` and tells `ev`.
pub open spec fn discovered(g0: Seq<Seq<Tile>>, g1: Seq<Seq<Tile>>, ev: Seq<GameEvent>, sx: int, sy: int) -> bool {
    &&& reveals_only(g0, g1)
    &&& discovery_events(g0, g1, ev, sx, sy)
    &&& flood_closed(g0, g1, sx, sy)
    &&& (has_game_over(ev) <==> reaches_bomb(g0, g1, sx, sy))
}

/// The number of untouched tiles in a row.
pub open spec fn row_untouched(r: Seq<Tile>) -> nat
    decreases r.len(),
{
    if r.len() == 0 {
        0
    } else {
        row_untouched(r.drop_last()) + (if r.last().state == TileState::Untouched {
            1nat
        } else {
            0nat
        })
    }
}

/// The number of untouched tiles in a grid.
pub open spec fn untouched_count(g: Seq<Seq<Tile>>) -> nat
    decreases g.len(),
{
    if g.len() == 0 {
        0
    } else {
        untouched_count(g.drop_last()) + row_untouched(g.last())
    }
}

/// `g` with the tile `(x, y)` shown, holding what it held.
pub open spec fn shown_at(g: Seq<Seq<Tile>>, x: int, y: int) -> Seq<Seq<Tile>> {
    g.update(y, g[y].update(x, Tile { content: g[y][x].content, state: TileState::Discovered(g[y][x].content) }))
}

/// What discovering `(x, y)` makes of `g`, and what it tells, in order. An
/// untouched bomb tells a game over; an untouched number is shown and
/// told; an untouched empty tile is shown and told, then each of its
/// neighbours is discovered in turn, in the order of `offset`, each on the
/// grid that the one before left. A tile that is missing or not untouched
/// changes and tells nothing. (Showing a tile always lowers the number of
/// untouched tiles; the test on it lets the definition be seen to end.)
pub open spec fn discovery(g: Seq<Seq<Tile>>, x: int, y: int) -> (Seq<Seq<Tile>>, Seq<GameEvent>)
    decreases untouched_count(g), 0int,
{
    if !in_bounds(g, x, y) || g[y][x].state != TileState::Untouched {
        (g, Seq::empty())
    } else {
        let c = g[y][x].content;
        let told = seq![GameEvent::TileStateUpdate { x: x as i32, y: y as i32, state: TileState::Discovered(c) }];
        match c {
            TileContent::Bomb => (g, seq![GameEvent::GameOver {  }]),
            TileContent::Number(_) => (shown_at(g, x, y), told),
            TileContent::Empty => if untouched_count(shown_at(g, x, y)) < untouched_count(g) {
                let rest = discovery_around(shown_at(g, x, y), x, y, 0);
                (rest.0, told + rest.1)
            } else {
                (shown_at(g, x, y), told)
            },
        }
    }
}

/// Discovering, in turn, the neighbours `i` to 7 of `(x, y)` in the order
/// of `offset`, from `g`: the grid left, and what is told, in order.
pub open spec fn discovery_around(g: Seq<Seq<Tile>>, x: int, y: int, i: int) -> (Seq<Seq<Tile>>, Seq<GameEvent>)
    decreases untouched_count(g), 8 - i,
{
    if i < 0 || i >= 8 {
        (g, Seq::empty())
    } else {
        let first = discovery(g, x + offset(i).0, y + offset(i).1);
        if untouched_count(first.0) <= untouched_count(g) {
            let rest = discovery_around(first.0, x, y, i + 1);
            (rest.0, first.1 + rest.1)
        } else {
            first
        }
    }
}

proof fn lemma_row_untouched_mono(r0: Seq<Tile>, r1: Seq<Tile>)
    requires
        r0.len() == r1.len(),
        forall|i: int| 0 <= i < r0.len() && r1[i].state == TileState::Untouched ==> r0[i].state
            == TileState::Untouched,
    ensures
        row_untouched(r1) <= row_untouched(r0),
    decreases r0.len(),
{
    if r0.len() > 0 {
        lemma_row_untouched_mono(r0.drop_last(), r1.drop_last());
    }
}

proof fn lemma_row_untouched_update(r: Seq<Tile>, i: int, t: Tile)
    requires
        0 <= i < r.len(),
        r[i].state == TileState::Untouched,
        t.state != TileState::Untouched,
    ensures
        row_untouched(r.update(i, t)) + 1 == row_untouched(r),
    decreases r.len(),
{
    let u = r.update(i, t);
    if i < r.len() - 1 {
        assert(u.drop_last() =~= r.drop_last().update(i, t));
        lemma_row_untouched_update(r.drop_last(), i, t);
    } else {
        assert(u.drop_last() =~= r.drop_last());
    }
}

proof fn lemma_untouched_mono(g0: Seq<Seq<Tile>>, g1: Seq<Seq<Tile>>)
    requires
        reveals_only(g0, g1),
    ensures
        untouched_count(g1) <= untouched_count(g0),
    decreases g0.len(),
{
    if g0.len() > 0 {
        let n = g0.len() - 1;
        assert(reveals_only(g0.drop_last(), g1.drop_last())) by {
            assert forall|x: int, y: int| 0 <= y < g0.drop_last().len() && 0 <= x < g0.drop_last()[y].len()
                implies #[trigger] g1.drop_last()[y][x] == g0.drop_last()[y][x] || {
                &&& newly(g0.drop_last(), g1.drop_last(), x, y)
                &&& g0.drop_last()[y][x].content != TileContent::Bomb
                &&& g1.drop_last()[y][x] == Tile {
                    content: g0.drop_last()[y][x].content,
                    state: TileState::Discovered(g0.drop_last()[y][x].content),
                }
            } by {
                assert(g1[y][x] == g0[y][x] || newly(g0, g1, x, y));
            }
        }
        lemma_untouched_mono(g0.drop_last(), g1.drop_last());
        assert forall|i: int| 0 <= i < g0[n].len() && g1[n][i].state == TileState::Untouched implies g0[n][i].state
            == TileState::Untouched by {
            assert(g1[n][i] == g0[n][i] || newly(g0, g1, i, n));
        }
        lemma_row_untouched_mono(g0[n], g1[n]);
    }
}

proof fn lemma_untouched_update(g: Seq<Seq<Tile>>, x: int, y: int, t: Tile)
    requires
        0 <= y < g.len(),
        0 <= x < g[y].len(),
        g[y][x].state == TileState::Untouched,
        t.state != TileState::Untouched,
    ensures
        untouched_count(g.update(y, g[y].update(x, t))) + 1 == untouched_count(g),
    decreases g.len(),
{
    let u = g.update(y, g[y].update(x, t));
    if y < g.len() - 1 {
        assert(u.drop_last() =~= g.drop_last().update(y, g.drop_last()[y].update(x, t)));
        lemma_untouched_update(g.drop_last(), x, y, t);
    } else {
        assert(u.drop_last() =~= g.drop_last());
        lemma_row_untouched_update(g[y], x, t);
    }
}

/// What `reveals_only(g0, g1)` says of one position.
proof fn lemma_reveals_at(g0: Seq<Seq<Tile>>, g1: Seq<Seq<Tile>>, x: int, y: int)
    requires
        reveals_only(g0, g1),
    ensures
        in_bounds(g0, x, y) == in_bounds(g1, x, y),
        in_bounds(g0, x, y) ==> g1[y][x].content == g0[y][x].content,
        untouched_bomb(g0, x, y) == untouched_bomb(g1, x, y),
        untouched_safe(g1, x, y) ==> untouched_safe(g0, x, y),
        untouched_safe(g0, x, y) ==> untouched_safe(g1, x, y) || newly(g0, g1, x, y),
        newly(g0, g1, x, y) ==> !untouched_safe(g1, x, y) && g1[y][x].state == TileState::Discovered(
            g0[y][x].content,
        ) && g0[y][x].content != TileContent::Bomb,
        in_bounds(g0, x, y) && g1[y][x].state == TileState::Untouched ==> g1[y][x] == g0[y][x],
{
    if 0 <= y < g0.len() {
        assert(g0[y].len() == g1[y].len());
    }
    if in_bounds(g0, x, y) {
        assert(g1[y][x] == g0[y][x] || newly(g0, g1, x, y));
    }
}

/// Two reveals in a row are a reveal; what it discovers is what either did.
proof fn lemma_reveals_trans(g0: Seq<Seq<Tile>>, g1: Seq<Seq<Tile>>, g2: Seq<Seq<Tile>>)
    requires
        reveals_only(g0, g1),
        reveals_only(g1, g2),
    ensures
        reveals_only(g0, g2),
        forall|x: int, y: int|
            #[trigger] newly(g0, g2, x, y) <==> newly(g0, g1, x, y) || newly(g1, g2, x, y),
        forall|x: int, y: int| newly(g0, g1, x, y) ==> !#[trigger] newly(g1, g2, x, y),
{
    assert forall|y: int| 0 <= y < g0.len() implies #[trigger] g0[y].len() == g2[y].len() by {
        assert(g0[y].len() == g1[y].len());
    }
    assert forall|x: int, y: int| 0 <= y < g0.len() && 0 <= x < g0[y].len() implies #[trigger] g2[y][x]
        == g0[y][x] || {
        &&& newly(g0, g2, x, y)
        &&& g0[y][x].content != TileContent::Bomb
        &&& g2[y][x] == Tile {
            content: g0[y][x].content,
            state: TileState::Discovered(g0[y][x].content),
        }
    } by {
        lemma_reveals_at(g0, g1, x, y);
        lemma_reveals_at(g1, g2, x, y);
    }
    assert forall|x: int, y: int| #[trigger] newly(g0, g2, x, y) <==> newly(g0, g1, x, y) || newly(g1, g2, x, y) by {
        lemma_reveals_at(g0, g1, x, y);
        lemma_reveals_at(g1, g2, x, y);
    }
    assert forall|x: int, y: int| newly(g0, g1, x, y) implies !#[trigger] newly(g1, g2, x, y) by {
        lemma_reveals_at(g0, g1, x, y);
    }
}

/// The loop over the neighbours of the empty tile `(x, y)`, discovered
/// first, has handled the neighbours `0..i`.
pub open spec fn flood_progress(
    g0: Seq<Seq<Tile>>,
    g: Seq<Seq<Tile>>,
    ev: Seq<GameEvent>,
    x: int,
    y: int,
    i: int,
) -> bool {
    &&& 0 <= i <= 8
    &&& reveals_only(g0, g)
    &&& untouched_safe(g0, x, y)
    &&& g0[y][x].content == TileContent::Empty
    &&& newly(g0, g, x, y)
    &&& ev.len() >= 1
    &&& ev[0] is TileStateUpdate
    &&& ev[0]->x == x
    &&& ev[0]->y == y
    &&& discovery_events(g0, g, ev, x, y)
    &&& forall|a: int, b: int|
        #[trigger] newly(g0, g, a, b) && g0[b][a].content == TileContent::Empty && !(a == x && b == y)
            ==> neighbors_settled(g, a, b)
    &&& forall|k: int| 0 <= k < i ==> !untouched_safe(g, x + #[trigger] offset(k).0, y + offset(k).1)
    &&& has_game_over(ev) <==> (exists|k: int|
        0 <= k < i && untouched_bomb(g0, x + #[trigger] offset(k).0, y + offset(k).1)) || (exists|a: int, b: int|
        #[trigger] newly(g0, g, a, b) && g0[b][a].content == TileContent::Empty && !(a == x && b == y)
            && bomb_next_to(g0, a, b))
}

proof fn lemma_has_game_over_add(a: Seq<GameEvent>, b: Seq<GameEvent>)
    ensures
        has_game_over(a + b) <==> has_game_over(a) || has_game_over(b),
{
    if has_game_over(a + b) {
        let i = choose|i: int| 0 <= i < (a + b).len() && #[trigger] (a + b)[i] is GameOver;
        if i < a.len() {
            assert(a[i] is GameOver);
        } else {
            assert(b[i - a.len()] is GameOver);
        }
    }
    if has_game_over(a) {
        let i = choose|i: int| 0 <= i < a.len() && #[trigger] a[i] is GameOver;
        assert((a + b)[i] is GameOver);
    }
    if has_game_over(b) {
        let i = choose|i: int| 0 <= i < b.len() && #[trigger] b[i] is GameOver;
        assert((a + b)[a.len() + i] is GameOver);
    }
}

/// Every event of the loop so far, followed by those of the discovery of
/// the next neighbour, is a game over or a proper update.
#[verifier::spinoff_prover]
proof fn lemma_step_events_each(
    g0: Seq<Seq<Tile>>,
    g: Seq<Seq<Tile>>,
    ev: Seq<GameEvent>,
    g2: Seq<Seq<Tile>>,
    ev2: Seq<GameEvent>,
    x: int,
    y: int,
    nx: int,
    ny: int,
    j: int,
)
    requires
        reveals_only(g0, g),
        reveals_only(g, g2),
        ev.len() >= 1,
        ev[0] is TileStateUpdate,
        ev[0]->x == x,
        ev[0]->y == y,
        g0[y][x].content == TileContent::Empty,
        adjacent(x, y, nx, ny),
        discovery_events(g0, g, ev, x, y),
        discovery_events(g, g2, ev2, nx, ny),
        0 <= j < (ev + ev2).len(),
    ensures
        ((ev + ev2)[j] is GameOver) || {
            let e = ev + ev2;
            &&& e[j] is TileStateUpdate
            &&& newly(g0, g2, e[j]->x as int, e[j]->y as int)
            &&& e[j]->state == TileState::Discovered(g0[e[j]->y as int][e[j]->x as int].content)
            &&& (e[j]->x == x && e[j]->y == y) || exists|k: int|
                0 <= k < j && #[trigger] e[k] is TileStateUpdate && g0[e[k]->y as int][e[k]->x as int].content
                    == TileContent::Empty && adjacent(
                    e[k]->x as int,
                    e[k]->y as int,
                    e[j]->x as int,
                    e[j]->y as int,
                )
        },
{
    let e = ev + ev2;
    let n = ev.len();
    if j < n {
        assert(e[j] == ev[j]);
        assert(ev[j] is GameOver || newly(g0, g, ev[j]->x as int, ev[j]->y as int));
        if !(ev[j] is GameOver) {
            lemma_reveals_at(g, g2, ev[j]->x as int, ev[j]->y as int);
            lemma_reveals_at(g0, g, ev[j]->x as int, ev[j]->y as int);
            if !(ev[j]->x == x && ev[j]->y == y) {
                let k = choose|k: int|
                    0 <= k < j && #[trigger] ev[k] is TileStateUpdate && g0[ev[k]->y as int][ev[k]->x as int].content
                        == TileContent::Empty && adjacent(
                        ev[k]->x as int,
                        ev[k]->y as int,
                        ev[j]->x as int,
                        ev[j]->y as int,
                    );
                assert(e[k] == ev[k]);
            }
        }
    } else {
        let j2 = j - n;
        assert(e[j] == ev2[j2]);
        assert(ev2[j2] is GameOver || newly(g, g2, ev2[j2]->x as int, ev2[j2]->y as int));
        if !(ev2[j2] is GameOver) {
            let ex = ev2[j2]->x as int;
            let ey = ev2[j2]->y as int;
            lemma_reveals_at(g0, g, ex, ey);
            if ex == nx && ey == ny {
                assert(e[0] == ev[0]);
                assert(e[0] is TileStateUpdate);
            } else {
                let k = choose|k: int|
                    0 <= k < j2 && #[trigger] ev2[k] is TileStateUpdate && g[ev2[k]->y as int][ev2[k]->x as int].content
                        == TileContent::Empty && adjacent(
                        ev2[k]->x as int,
                        ev2[k]->y as int,
                        ev2[j2]->x as int,
                        ev2[j2]->y as int,
                    );
                assert(e[n + k] == ev2[k]);
                assert(newly(g, g2, ev2[k]->x as int, ev2[k]->y as int));
                lemma_reveals_at(g0, g, ev2[k]->x as int, ev2[k]->y as int);
            }
        }
    }
}

/// The loop's events so far, followed by those of the next neighbour's
/// discovery, are the events of a discovery from `(x, y)`.
#[verifier::spinoff_prover]
proof fn lemma_step_events(
    g0: Seq<Seq<Tile>>,
    g: Seq<Seq<Tile>>,
    ev: Seq<GameEvent>,
    g2: Seq<Seq<Tile>>,
    ev2: Seq<GameEvent>,
    x: int,
    y: int,
    nx: int,
    ny: int,
)
    requires
        reveals_only(g0, g),
        reveals_only(g, g2),
        ev.len() >= 1,
        ev[0] is TileStateUpdate,
        ev[0]->x == x,
        ev[0]->y == y,
        g0[y][x].content == TileContent::Empty,
        adjacent(x, y, nx, ny),
        discovery_events(g0, g, ev, x, y),
        discovery_events(g, g2, ev2, nx, ny),
    ensures
        discovery_events(g0, g2, ev + ev2, x, y),
{
    lemma_reveals_trans(g0, g, g2);
    let e = ev + ev2;
    let n = ev.len();
    assert forall|j: int| 0 <= j < e.len() implies (#[trigger] e[j] is GameOver) || {
        &&& e[j] is TileStateUpdate
        &&& newly(g0, g2, e[j]->x as int, e[j]->y as int)
        &&& e[j]->state == TileState::Discovered(g0[e[j]->y as int][e[j]->x as int].content)
        &&& (e[j]->x == x && e[j]->y == y) || exists|k: int|
            0 <= k < j && #[trigger] e[k] is TileStateUpdate && g0[e[k]->y as int][e[k]->x as int].content
                == TileContent::Empty && adjacent(
                e[k]->x as int,
                e[k]->y as int,
                e[j]->x as int,
                e[j]->y as int,
            )
    } by {
        lemma_step_events_each(g0, g, ev, g2, ev2, x, y, nx, ny, j);
    }
    assert forall|a: int, b: int|
        0 <= a < e.len() && 0 <= b < e.len() && #[trigger] e[a] is TileStateUpdate
            && #[trigger] e[b] is TileStateUpdate && e[a]->x == e[b]->x && e[a]->y == e[b]->y implies a == b by {
        if a < n && b < n {
            assert(e[a] == ev[a] && e[b] == ev[b]);
        } else if a >= n && b >= n {
            assert(e[a] == ev2[a - n] && e[b] == ev2[b - n]);
        } else if a < n {
            assert(e[a] == ev[a] && e[b] == ev2[b - n]);
            assert(newly(g0, g, ev[a]->x as int, ev[a]->y as int));
            assert(newly(g, g2, ev2[b - n]->x as int, ev2[b - n]->y as int));
        } else {
            assert(e[b] == ev[b] && e[a] == ev2[a - n]);
            assert(newly(g0, g, ev[b]->x as int, ev[b]->y as int));
            assert(newly(g, g2, ev2[a - n]->x as int, ev2[a - n]->y as int));
        }
    }
    assert forall|a: int, b: int| #[trigger] newly(g0, g2, a, b) implies exists|j: int|
        0 <= j < e.len() && update_at(#[trigger] e[j], a, b) by {
        if newly(g0, g, a, b) {
            let j = choose|j: int| 0 <= j < ev.len() && update_at(#[trigger] ev[j], a, b);
            assert(e[j] == ev[j]);
        } else {
            assert(newly(g, g2, a, b));
            let j = choose|j: int| 0 <= j < ev2.len() && update_at(#[trigger] ev2[j], a, b);
            assert(e[n + j] == ev2[j]);
        }
    }
}

/// Once settled, the neighbours of a tile stay settled.
proof fn lemma_settled_stays(g: Seq<Seq<Tile>>, g2: Seq<Seq<Tile>>, a: int, b: int)
    requires
        reveals_only(g, g2),
        neighbors_settled(g, a, b),
    ensures
        neighbors_settled(g2, a, b),
{
    assert forall|k: int| 0 <= k < 8 implies !untouched_safe(g2, a + #[trigger] offset(k).0, b + offset(k).1) by {
        lemma_reveals_at(g, g2, a + offset(k).0, b + offset(k).1);
    }
}

/// A bomb next to a tile stays a bomb next to it.
proof fn lemma_bomb_next_to_stays(g: Seq<Seq<Tile>>, g2: Seq<Seq<Tile>>, a: int, b: int)
    requires
        reveals_only(g, g2),
    ensures
        bomb_next_to(g, a, b) == bomb_next_to(g2, a, b),
{
    if bomb_next_to(g, a, b) {
        let k = choose|k: int| 0 <= k < 8 && untouched_bomb(g, a + #[trigger] offset(k).0, b + offset(k).1);
        lemma_reveals_at(g, g2, a + offset(k).0, b + offset(k).1);
    }
    if bomb_next_to(g2, a, b) {
        let k = choose|k: int| 0 <= k < 8 && untouched_bomb(g2, a + #[trigger] offset(k).0, b + offset(k).1);
        lemma_reveals_at(g, g2, a + offset(k).0, b + offset(k).1);
    }
}

/// Handling the `i`-th neighbour keeps the loop's progress.
#[verifier::spinoff_prover]
proof fn lemma_flood_step(
    g0: Seq<Seq<Tile>>,
    g: Seq<Seq<Tile>>,
    ev: Seq<GameEvent>,
    g2: Seq<Seq<Tile>>,
    ev2: Seq<GameEvent>,
    x: int,
    y: int,
    i: int,
)
    requires
        flood_progress(g0, g, ev, x, y, i),
        i < 8,
        discovered(g, g2, ev2, x + offset(i).0, y + offset(i).1),
    ensures
        flood_progress(g0, g2, ev + ev2, x, y, i + 1),
{
    let nx = x + offset(i).0;
    let ny = y + offset(i).1;
    lemma_reveals_trans(g0, g, g2);
    lemma_step_events(g0, g, ev, g2, ev2, x, y, nx, ny);
    let e = ev + ev2;
    assert(e[0] == ev[0]);
    assert forall|a: int, b: int|
        #[trigger] newly(g0, g2, a, b) && g0[b][a].content == TileContent::Empty && !(a == x && b == y)
        implies neighbors_settled(g2, a, b) by {
        lemma_reveals_at(g0, g, a, b);
        if newly(g0, g, a, b) {
            lemma_settled_stays(g, g2, a, b);
        } else {
            assert(newly(g, g2, a, b));
        }
    }
    assert forall|k: int| 0 <= k < i + 1 implies !untouched_safe(g2, x + #[trigger] offset(k).0, y + offset(k).1) by {
        lemma_reveals_at(g, g2, x + offset(k).0, y + offset(k).1);
    }
    lemma_has_game_over_add(ev, ev2);
    lemma_reveals_at(g0, g, nx, ny);
    let old_bombs = exists|k: int| 0 <= k < i && untouched_bomb(g0, x + #[trigger] offset(k).0, y + offset(k).1);
    let new_bombs = exists|k: int| 0 <= k < i + 1 && untouched_bomb(g0, x + #[trigger] offset(k).0, y + offset(k).1);
    let old_tiles = exists|a: int, b: int|
        #[trigger] newly(g0, g, a, b) && g0[b][a].content == TileContent::Empty && !(a == x && b == y)
            && bomb_next_to(g0, a, b);
    let new_tiles = exists|a: int, b: int|
        #[trigger] newly(g0, g2, a, b) && g0[b][a].content == TileContent::Empty && !(a == x && b == y)
            && bomb_next_to(g0, a, b);
    let sub_tiles = exists|a: int, b: int|
        #[trigger] newly(g, g2, a, b) && g[b][a].content == TileContent::Empty && bomb_next_to(g, a, b);
    assert(new_bombs <==> old_bombs || untouched_bomb(g0, nx, ny)) by {
        if new_bombs && !old_bombs {
            let k = choose|k: int| 0 <= k < i + 1 && untouched_bomb(g0, x + #[trigger] offset(k).0, y + offset(k).1);
            assert(k == i);
        }
    }
    assert(new_tiles <==> old_tiles || sub_tiles) by {
        if new_tiles {
            let (a, b) = choose|a: int, b: int|
                #[trigger] newly(g0, g2, a, b) && g0[b][a].content == TileContent::Empty && !(a == x && b == y)
                    && bomb_next_to(g0, a, b);
            lemma_reveals_at(g0, g, a, b);
            lemma_bomb_next_to_stays(g0, g, a, b);
            if !newly(g0, g, a, b) {
                assert(newly(g, g2, a, b));
            }
        }
        if old_tiles {
            let (a, b) = choose|a: int, b: int|
                #[trigger] newly(g0, g, a, b) && g0[b][a].content == TileContent::Empty && !(a == x && b == y)
                    && bomb_next_to(g0, a, b);
            assert(newly(g0, g2, a, b));
        }
        if sub_tiles {
            let (a, b) = choose|a: int, b: int|
                #[trigger] newly(g, g2, a, b) && g[b][a].content == TileContent::Empty && bomb_next_to(g, a, b);
            lemma_reveals_at(g0, g, a, b);
            lemma_bomb_next_to_stays(g0, g, a, b);
            assert(newly(g0, g2, a, b));
        }
    }
}

/// The start of the loop: the empty tile `(x, y)` was just discovered.
proof fn lemma_flood_start(g0: Seq<Seq<Tile>>, g: Seq<Seq<Tile>>, ev: Seq<GameEvent>, x: int, y: int)
    requires
        untouched_safe(g0, x, y),
        g0[y][x].content == TileContent::Empty,
        g == g0.update(y, g0[y].update(x, Tile { content: TileContent::Empty, state: TileState::Discovered(TileContent::Empty) })),
        ev.len() == 1,
        ev[0] == (GameEvent::TileStateUpdate {
            x: x as i32,
            y: y as i32,
            state: TileState::Discovered(TileContent::Empty),
        }),
    ensures
        flood_progress(g0, g, ev, x, y, 0),
{
    assert forall|a: int, b: int| #[trigger] newly(g0, g, a, b) implies a == x && b == y by {}
    assert(newly(g0, g, x, y));
    assert(update_at(ev[0], x, y));
    assert(!has_game_over(ev));
}

/// The end of the loop: all neighbours handled, the discovery is done.
proof fn lemma_flood_end(g0: Seq<Seq<Tile>>, g: Seq<Seq<Tile>>, ev: Seq<GameEvent>, x: int, y: int)
    requires
        flood_progress(g0, g, ev, x, y, 8),
    ensures
        discovered(g0, g, ev, x, y),
{
    assert forall|a: int, b: int|
        #[trigger] newly(g0, g, a, b) && g0[b][a].content == TileContent::Empty implies neighbors_settled(g, a, b) by {
    }
    let tiles = exists|a: int, b: int|
        #[trigger] newly(g0, g, a, b) && g0[b][a].content == TileContent::Empty && bomb_next_to(g0, a, b);
    let bombs = exists|k: int| 0 <= k < 8 && untouched_bomb(g0, x + #[trigger] offset(k).0, y + offset(k).1);
    let others = exists|a: int, b: int|
        #[trigger] newly(g0, g, a, b) && g0[b][a].content == TileContent::Empty && !(a == x && b == y)
            && bomb_next_to(g0, a, b);
    assert(tiles <==> bombs || others) by {
        if tiles {
            let (a, b) = choose|a: int, b: int|
                #[trigger] newly(g0, g, a, b) && g0[b][a].content == TileContent::Empty && bomb_next_to(g0, a, b);
            if a == x && b == y {
                assert(bomb_next_to(g0, x, y));
            }
        }
        if bombs {
            assert(bomb_next_to(g0, x, y));
        }
    }
}

/// One more neighbour discovered keeps the events told so far, followed by
/// those still to come, equal to the whole.
proof fn lemma_around_step(
    g: Seq<Seq<Tile>>,
    g2: Seq<Seq<Tile>>,
    sub: Seq<GameEvent>,
    e0: Seq<GameEvent>,
    whole: (Seq<Seq<Tile>>, Seq<GameEvent>),
    x: int,
    y: int,
    i: int,
)
    requires
        0 <= i < 8,
        e0.len() >= 1,
        (g2, sub) == discovery(g, x + offset(i).0, y + offset(i).1),
        untouched_count(g2) <= untouched_count(g),
        whole.0 == discovery_around(g, x, y, i).0,
        seq![e0[0]] + whole.1 == e0 + discovery_around(g, x, y, i).1,
    ensures
        whole.0 == discovery_around(g2, x, y, i + 1).0,
        seq![(e0 + sub)[0]] + whole.1 == (e0 + sub) + discovery_around(g2, x, y, i + 1).1,
{
    let rest = discovery_around(g2, x, y, i + 1);
    assert(discovery_around(g, x, y, i) == (rest.0, sub + rest.1));
    assert((e0 + sub)[0] == e0[0]);
    assert(e0 + (sub + rest.1) =~= (e0 + sub) + rest.1);
}

/// Discovers the tile `(x, y)` of `grid`, if it is untouched: a bomb ends
/// the game; a number is uncovered; an empty tile is uncovered and so is,
/// in turn, each tile around it. Returns what players are told.
pub fn discover(grid: &mut VecGrid<Tile>, x: i32, y: i32) -> (ev: Vec<GameEvent>)
    ensures
        discovered(old(grid).rows(), final(grid).rows(), ev@, x as int, y as int),
        start_told(old(grid).rows(), ev@, x as int, y as int),
        overs_told(old(grid).rows(), final(grid).rows(), ev@, x as int, y as int),
        (final(grid).rows(), ev@) == discovery(old(grid).rows(), x as int, y as int),
    decreases untouched_count(old(grid).rows()),
{
    let ghost g0 = grid.rows();
    proof {
        assert forall|a: int, b: int| #[trigger] cell_overs(g0, g0, a, b) == 0 by {}
        lemma_flood_overs_none(g0, g0);
    }
    let t = match grid.get(x, y) {
        Some(t) => *t,
        None => {
            return Vec::new();
        },
    };
    match t.state {
        TileState::Untouched => {},
        _ => {
            return Vec::new();
        },
    }
    match t.content {
        TileContent::Bomb => {
            let mut ev: Vec<GameEvent> = Vec::new();
            ev.push(GameEvent::GameOver {  });
            assert(ev@[0] is GameOver);
            assert(ev@.drop_last() =~= Seq::<GameEvent>::empty());
            assert(game_overs(Seq::<GameEvent>::empty()) == 0);
            assert(ev@ =~= seq![GameEvent::GameOver {  }]);
            ev
        },
        TileContent::Number(n) => {
            let state = TileState::Discovered(t.content);
            grid.set(x, y, Tile { content: t.content, state });
            let mut ev: Vec<GameEvent> = Vec::new();
            ev.push(GameEvent::TileStateUpdate { x, y, state });
            proof {
                let g1 = grid.rows();
                assert(g1 == shown_at(g0, x as int, y as int));
                assert(ev@ =~= seq![GameEvent::TileStateUpdate { x, y, state }]);
                assert forall|a: int, b: int| #[trigger] newly(g0, g1, a, b) implies a == x && b == y by {}
                assert(newly(g0, g1, x as int, y as int));
                assert(update_at(ev@[0], x as int, y as int));
                assert(!has_game_over(ev@));
                assert forall|a: int, b: int| #[trigger] cell_overs(g0, g1, a, b) == 0 by {
                    if newly(g0, g1, a, b) {
                        assert(a == x && b == y);
                    }
                }
                lemma_flood_overs_none(g0, g1);
                assert(ev@.drop_last() =~= Seq::<GameEvent>::empty());
                assert(game_overs(Seq::<GameEvent>::empty()) == 0);
            }
            ev
        },
        TileContent::Empty => {
            let state = TileState::Discovered(TileContent::Empty);
            grid.set(x, y, Tile { content: TileContent::Empty, state });
            let mut ev: Vec<GameEvent> = Vec::new();
            ev.push(GameEvent::TileStateUpdate { x, y, state });
            proof {
                lemma_flood_start(g0, grid.rows(), ev@, x as int, y as int);
                lemma_untouched_update(
                    g0,
                    x as int,
                    y as int,
                    Tile { content: TileContent::Empty, state },
                );
                let g1 = grid.rows();
                assert forall|a: int, b: int| !(a == x && b == y) implies #[trigger] cell_overs(g0, g1, a, b) == 0 by {
                    if newly(g0, g1, a, b) {
                        assert(g1[b][a] == g0[b][a]);
                    }
                }
                lemma_flood_overs_one(g0, g1, x as int, y as int);
                assert(newly(g0, g1, x as int, y as int));
                assert(ev@.drop_last() =~= Seq::<GameEvent>::empty());
                assert(game_overs(Seq::<GameEvent>::empty()) == 0);
                assert(game_overs(ev@) == 0);
                assert(cell_overs(g0, g1, x as int, y as int) == count_untouched_bombs(g0, x as int, y as int, 8));
                assert(g1 == shown_at(g0, x as int, y as int));
            }
            let ghost g1 = grid.rows();
            let ghost whole = discovery_around(g1, x as int, y as int, 0);
            assert(ev@ =~= seq![GameEvent::TileStateUpdate { x, y, state }]);
            let mut i: usize = 0;
            while i < 8
                invariant
                    0 <= x <= 255,
                    0 <= y <= 255,
                    i <= 8,
                    flood_progress(g0, grid.rows(), ev@, x as int, y as int, i as int),
                    untouched_count(grid.rows()) < untouched_count(g0),
                    g0 == old(grid).rows(),
                    ev@.len() >= 1,
                    ev@[0] == (GameEvent::TileStateUpdate { x, y, state: TileState::Discovered(TileContent::Empty) }),
                    game_overs(ev@) + count_untouched_bombs(g0, x as int, y as int, 8) == flood_overs(g0, grid.rows())
                        + count_untouched_bombs(g0, x as int, y as int, i as int),
                    whole.0 == discovery_around(grid.rows(), x as int, y as int, i as int).0,
                    seq![ev@[0]] + whole.1 == ev@ + discovery_around(grid.rows(), x as int, y as int, i as int).1,
                decreases 8 - i,
            {
                let (dx, dy) = neighbor(i);
                let ghost g = grid.rows();
                let mut sub = discover(grid, x + dx as i32, y + dy as i32);
                proof {
                    lemma_flood_step(g0, g, ev@, grid.rows(), sub@, x as int, y as int, i as int);
                    lemma_untouched_mono(g, grid.rows());
                    lemma_flood_overs_split(g0, g, grid.rows());
                    lemma_game_overs_add(ev@, sub@);
                    lemma_untouched_bomb_kept(g0, g, x + dx as int, y + dy as int);
                }
                let ghost e0 = ev@;
                proof {
                    lemma_around_step(g, grid.rows(), sub@, e0, whole, x as int, y as int, i as int);
                }
                ev.append(&mut sub);
                assert(ev@[0] == e0[0]);
                i = i + 1;
            }
            proof {
                lemma_flood_end(g0, grid.rows(), ev@, x as int, y as int);
                assert(discovery_around(grid.rows(), x as int, y as int, 8).1 =~= Seq::<GameEvent>::empty());
                assert(ev@ + Seq::<GameEvent>::empty() =~= ev@);
            }
            ev
        },
    }
}

} // verus!
