//! Properties that hold across moves of the game.

use vstd::prelude::*;

use super::discover::{
    bomb_next_to, discovered, same_shape, update_at, has_game_over, newly, reaches_bomb, reveals_only, untouched_bomb,
    untouched_safe,
};
use super::{flag_step, play_step, with_state, CursorPosition, GameAction, GameEvent};
use crate::grid::bombs::{after_bombs, base, hits, is_at, lemma_placed_index, placed};
use crate::grid::counts::{bombs_around, law_numbers_count_bombs, lemma_count_bombs_contents};
use crate::grid::populate::{candidates, dist, lemma_candidates, may_hold_bomb, valid_bombs, width_of, SafeZone};
use crate::grid::vec_grid::{blank_tile, filled};
use crate::grid::{adjacent, in_bounds, offset};
use crate::tile::{Tile, TileContent, TileState};

verus! {

/// Placing a flag on a tile that is not flagged, then taking it off,
/// leaves the game as it was.
pub proof fn law_flag_then_unflag(
    g0: Seq<Seq<Tile>>,
    p0: bool,
    c0: Map<Seq<char>, CursorPosition>,
    g1: Seq<Seq<Tile>>,
    p1: bool,
    c1: Map<Seq<char>, CursorPosition>,
    g2: Seq<Seq<Tile>>,
    p2: bool,
    c2: Map<Seq<char>, CursorPosition>,
    u1: Seq<char>,
    u2: Seq<char>,
    ev1: Seq<GameEvent>,
    ev2: Seq<GameEvent>,
    x: i32,
    y: i32,
)
    requires
        !(in_bounds(g0, x as int, y as int) && g0[y as int][x as int].state == TileState::Flagged),
        play_step(g0, p0, c0, u1, GameAction::PlaceFlag { x, y }, g1, p1, c1, ev1),
        play_step(g1, p1, c1, u2, GameAction::RemoveFlag { x, y }, g2, p2, c2, ev2),
    ensures
        g2 == g0,
        p2 == p0,
        c2 == c0,
{
    if in_bounds(g0, x as int, y as int) && g0[y as int][x as int].state == TileState::Untouched {
        assert(g1[y as int][x as int].state == TileState::Flagged);
        assert(g2 =~~= g0);
    }
}

/// Taking a flag off a tile, then placing it back, leaves the game as it
/// was, unless the tile was untouched and unflagged to begin with.
pub proof fn law_unflag_then_flag(
    g0: Seq<Seq<Tile>>,
    p0: bool,
    c0: Map<Seq<char>, CursorPosition>,
    g1: Seq<Seq<Tile>>,
    p1: bool,
    c1: Map<Seq<char>, CursorPosition>,
    g2: Seq<Seq<Tile>>,
    p2: bool,
    c2: Map<Seq<char>, CursorPosition>,
    u1: Seq<char>,
    u2: Seq<char>,
    ev1: Seq<GameEvent>,
    ev2: Seq<GameEvent>,
    x: i32,
    y: i32,
)
    requires
        !(in_bounds(g0, x as int, y as int) && g0[y as int][x as int].state == TileState::Untouched),
        play_step(g0, p0, c0, u1, GameAction::RemoveFlag { x, y }, g1, p1, c1, ev1),
        play_step(g1, p1, c1, u2, GameAction::PlaceFlag { x, y }, g2, p2, c2, ev2),
    ensures
        g2 == g0,
        p2 == p0,
        c2 == c0,
{
    if in_bounds(g0, x as int, y as int) && g0[y as int][x as int].state == TileState::Flagged {
        assert(g1[y as int][x as int].state == TileState::Untouched);
        assert(g2 =~~= g0);
    }
}

/// A discovered tile stays discovered, showing the same thing, whatever is
/// played.
pub proof fn law_discovered_stays(
    g0: Seq<Seq<Tile>>,
    p0: bool,
    c0: Map<Seq<char>, CursorPosition>,
    u: Seq<char>,
    action: GameAction,
    g1: Seq<Seq<Tile>>,
    p1: bool,
    c1: Map<Seq<char>, CursorPosition>,
    ev: Seq<GameEvent>,
    x: int,
    y: int,
)
    requires
        play_step(g0, p0, c0, u, action, g1, p1, c1, ev),
        in_bounds(g0, x, y),
        g0[y][x].state is Discovered,
    ensures
        in_bounds(g1, x, y),
        g1[y][x].state == g0[y][x].state,
{
    match action {
        GameAction::Discover { x: dx, y: dy } => {
            if p0 {
                assert(g1[y][x] == g0[y][x] || newly(g0, g1, x, y));
                assert(g0[y].len() == g1[y].len());
            } else {
                let bombs = choose|bombs: Seq<(u8, u8)>|
                    valid_bombs(SafeZone::Square, g0, bombs, dx as int, dy as int) && discovered(
                        after_bombs(g0, bombs),
                        g1,
                        ev,
                        dx as int,
                        dy as int,
                    );
                let gp = after_bombs(g0, bombs);
                assert(gp[y][x].state == g0[y][x].state);
                assert(g1[y][x] == gp[y][x] || newly(gp, g1, x, y));
                assert(gp[y].len() == g1[y].len());
            }
        },
        _ => {},
    }
}

proof fn lemma_no_adjacent_no_hits(bombs: Seq<(u8, u8)>, x: int, y: int)
    requires
        forall|i: int| 0 <= i < bombs.len() ==> !adjacent((#[trigger] bombs[i]).0 as int, bombs[i].1 as int, x, y),
    ensures
        hits(bombs, x, y) == 0,
    decreases bombs.len(),
{
    if bombs.len() > 0 {
        let d = bombs.drop_last();
        assert forall|i: int| 0 <= i < d.len() implies !adjacent((#[trigger] d[i]).0 as int, d[i].1 as int, x, y) by {
            assert(d[i] == bombs[i]);
        }
        lemma_no_adjacent_no_hits(d, x, y);
        assert(!adjacent(bombs[bombs.len() - 1].0 as int, bombs[bombs.len() - 1].1 as int, x, y));
    }
}

proof fn lemma_hits_of_placed_neighbor(bombs: Seq<(u8, u8)>, qx: int, qy: int, x: int, y: int)
    requires
        placed(bombs, qx, qy),
        adjacent(qx, qy, x, y),
        !placed(bombs, x, y),
    ensures
        hits(bombs, x, y) >= 1,
    decreases bombs.len(),
{
    let d = bombs.drop_last();
    if !is_at(bombs.last(), qx, qy) {
        lemma_hits_of_placed_neighbor(d, qx, qy, x, y);
    }
}

/// On a grid that starts blank, the bombs are exactly the placed tiles.
proof fn lemma_blank_after_bombs(w: nat, h: nat, bombs: Seq<(u8, u8)>, x: int, y: int)
    requires
        in_bounds(filled(w, h, blank_tile()), x, y),
    ensures
        ({
            let g = after_bombs(filled(w, h, blank_tile()), bombs);
            &&& in_bounds(g, x, y)
            &&& g[y][x].state == TileState::Untouched
            &&& (g[y][x].content == TileContent::Bomb <==> placed(bombs, x, y))
            &&& (g[y][x].content == TileContent::Empty <==> !placed(bombs, x, y) && hits(bombs, x, y) == 0)
        }),
{
}

/// On a blank grid given bombs for a start at `(sx, sy)`, the start is an
/// untouched empty tile.
proof fn lemma_start_clear(w: nat, h: nat, bombs: Seq<(u8, u8)>, sx: int, sy: int)
    requires
        w <= 255,
        h <= 255,
        in_bounds(filled(w, h, blank_tile()), sx, sy),
        valid_bombs(SafeZone::Square, filled(w, h, blank_tile()), bombs, sx, sy),
    ensures
        untouched_safe(after_bombs(filled(w, h, blank_tile()), bombs), sx, sy),
        after_bombs(filled(w, h, blank_tile()), bombs)[sy][sx].content == TileContent::Empty,
{
    let wd = if h > 0 { w as int } else { 0 };
    lemma_candidates(SafeZone::Square, wd, h as int, sx, sy);
    let c = candidates(SafeZone::Square, wd, h as int, sx, sy);
    assert forall|i: int| 0 <= i < bombs.len() implies !adjacent(
        (#[trigger] bombs[i]).0 as int,
        bombs[i].1 as int,
        sx,
        sy,
    ) && !is_at(bombs[i], sx, sy) by {
        assert(c.contains(bombs[i]));
        assert(may_hold_bomb(SafeZone::Square, bombs[i].0 as int, bombs[i].1 as int, sx, sy));
    }
    lemma_no_adjacent_no_hits(bombs, sx, sy);
    lemma_placed_index(bombs, sx, sy);
    lemma_blank_after_bombs(w, h, bombs, sx, sy);
}

/// On a blank grid with bombs placed, no empty tile is next to a bomb.
proof fn lemma_empty_not_next_to_bomb(w: nat, h: nat, bombs: Seq<(u8, u8)>, a: int, b: int)
    requires
        in_bounds(filled(w, h, blank_tile()), a, b),
        after_bombs(filled(w, h, blank_tile()), bombs)[b][a].content == TileContent::Empty,
    ensures
        !bomb_next_to(after_bombs(filled(w, h, blank_tile()), bombs), a, b),
{
    let gp = after_bombs(filled(w, h, blank_tile()), bombs);
    lemma_blank_after_bombs(w, h, bombs, a, b);
    if bomb_next_to(gp, a, b) {
        let k = choose|k: int| 0 <= k < 8 && untouched_bomb(gp, a + #[trigger] offset(k).0, b + offset(k).1);
        let qx = a + offset(k).0;
        let qy = b + offset(k).1;
        lemma_blank_after_bombs(w, h, bombs, qx, qy);
        lemma_hits_of_placed_neighbor(bombs, qx, qy, a, b);
    }
}

/// The first discovery of a game on a blank grid is safe: it never ends
/// the game, and the tile discovered is empty, so that the flood opens
/// the area around it.
#[verifier::spinoff_prover]
#[verifier::rlimit(60)]
pub proof fn law_first_discovery_safe(
    w: nat,
    h: nat,
    c0: Map<Seq<char>, CursorPosition>,
    u: Seq<char>,
    x: i32,
    y: i32,
    g1: Seq<Seq<Tile>>,
    p1: bool,
    c1: Map<Seq<char>, CursorPosition>,
    ev: Seq<GameEvent>,
)
    requires
        w <= 255,
        h <= 255,
        in_bounds(filled(w, h, blank_tile()), x as int, y as int),
        play_step(filled(w, h, blank_tile()), false, c0, u, GameAction::Discover { x, y }, g1, p1, c1, ev),
    ensures
        !has_game_over(ev),
        g1[y as int][x as int].state == TileState::Discovered(TileContent::Empty),
{
    let g0 = filled(w, h, blank_tile());
    let sx = x as int;
    let sy = y as int;
    let bombs = choose|bombs: Seq<(u8, u8)>|
        valid_bombs(SafeZone::Square, g0, bombs, sx, sy) && discovered(after_bombs(g0, bombs), g1, ev, sx, sy);
    let gp = after_bombs(g0, bombs);
    lemma_start_clear(w, h, bombs, sx, sy);
    assert(newly(gp, g1, sx, sy));
    assert(g1[sy][sx] == gp[sy][sx] || newly(gp, g1, sx, sy));
    assert(!reaches_bomb(gp, g1, sx, sy)) by {
        if exists|a: int, b: int|
            #[trigger] newly(gp, g1, a, b) && gp[b][a].content == TileContent::Empty && bomb_next_to(gp, a, b) {
            let (a, b) = choose|a: int, b: int|
                #[trigger] newly(gp, g1, a, b) && gp[b][a].content == TileContent::Empty && bomb_next_to(gp, a, b);
            lemma_empty_not_next_to_bomb(w, h, bombs, a, b);
        }
    }
}

} // verus!

verus! {

/// Every tile that is not a bomb tells how many of its eight neighbours
/// hold one: empty for none, else a number from 1 to 8.
pub open spec fn numbers_consistent(g: Seq<Seq<Tile>>) -> bool {
    forall|x: int, y: int|
        in_bounds(g, x, y) && #[trigger] g[y][x].content != TileContent::Bomb ==> base(g[y][x].content) == bombs_around(g, x, y)
            && (g[y][x].content matches TileContent::Number(k) ==> 1 <= k <= 8)
}

/// Revealing tiles leaves what every tile holds as it was, so the numbers
/// still count the bombs around them.
proof fn lemma_reveals_keep_numbers(g0: Seq<Seq<Tile>>, g1: Seq<Seq<Tile>>)
    requires
        reveals_only(g0, g1),
        numbers_consistent(g0),
    ensures
        numbers_consistent(g1),
{
    assert forall|a: int, b: int| 0 <= b < g0.len() && 0 <= a < g0[b].len() implies #[trigger] g0[b][a].content == g1[b][a].content by {
        assert(g1[b][a] == g0[b][a] || g1[b][a].content == g0[b][a].content);
    }
    assert forall|x: int, y: int| in_bounds(g1, x, y) && #[trigger] g1[y][x].content != TileContent::Bomb implies base(g1[y][x].content) == bombs_around(g1, x, y)
        && (g1[y][x].content matches TileContent::Number(k) ==> 1 <= k <= 8) by {
        assert(g0[y].len() == g1[y].len());
        assert(g0[y][x].content == g1[y][x].content);
        assert(in_bounds(g0, x, y));
        lemma_count_bombs_contents(g0, g1, x, y, 8);
    }
}

/// `g` is a rectangle of tiles that hold nothing yet: every row as long as
/// the first, no bomb and no count anywhere, whatever the tiles' states.
pub open spec fn blank_rectangle(g: Seq<Seq<Tile>>) -> bool {
    &&& forall|y: int| 0 <= y < g.len() ==> #[trigger] g[y].len() == width_of(g)
    &&& forall|x: int, y: int| 0 <= y < g.len() && 0 <= x < g[y].len() ==> #[trigger] g[y][x].content == TileContent::Empty
}

/// On a rectangle of at most 256 by 256 tiles that hold nothing yet, the
/// bombs placed where the safe zone `zone` allows leave every other tile
/// telling how many of its neighbours hold a bomb. With the square this is
/// what `VecGrid::populate` makes of such a grid; with the cross, what
/// `VecGridConfig::build` makes.
pub proof fn law_placed_bombs_are_counted(zone: SafeZone, g: Seq<Seq<Tile>>, bombs: Seq<(u8, u8)>, sx: int, sy: int)
    requires
        g.len() <= 256,
        width_of(g) <= 256,
        blank_rectangle(g),
        valid_bombs(zone, g, bombs, sx, sy),
    ensures
        numbers_consistent(after_bombs(g, bombs)),
{
    let gp = after_bombs(g, bombs);
    lemma_candidates(zone, width_of(g), g.len() as int, sx, sy);
    assert forall|j: int| 0 <= j < bombs.len() implies in_bounds(g, (#[trigger] bombs[j]).0 as int, bombs[j].1 as int) by {
        assert(candidates(zone, width_of(g), g.len() as int, sx, sy).contains(bombs[j]));
        assert(g[bombs[j].1 as int].len() == width_of(g));
    }
    assert forall|x: int, y: int| in_bounds(gp, x, y) && #[trigger] gp[y][x].content != TileContent::Bomb implies base(gp[y][x].content) == bombs_around(gp, x, y)
        && (gp[y][x].content matches TileContent::Number(k) ==> 1 <= k <= 8) by {
        law_numbers_count_bombs(g, bombs, x, y);
    }
}

/// A new grid of the library, once its bombs are placed where the safe
/// zone `zone` allows, has every other tile tell how many of its
/// neighbours hold a bomb: the grids that `VecGrid::from_config` and
/// `VecGridConfig::build` make.
pub proof fn law_new_grid_counts_bombs(zone: SafeZone, w: nat, h: nat, bombs: Seq<(u8, u8)>, sx: int, sy: int)
    requires
        w <= 256,
        h <= 256,
        valid_bombs(zone, filled(w, h, blank_tile()), bombs, sx, sy),
    ensures
        numbers_consistent(after_bombs(filled(w, h, blank_tile()), bombs)),
{
    let g = filled(w, h, blank_tile());
    assert(width_of(g) == (if h > 0 { w as int } else { 0 }));
    law_placed_bombs_are_counted(zone, g, bombs, sx, sy);
}

/// On the first discovery of a game on a rectangle of at most 256 by 256
/// tiles that hold nothing yet, the bombs are placed so that every other
/// tile tells how many of its neighbours hold a bomb.
pub proof fn law_first_discovery_counts_bombs(
    g0: Seq<Seq<Tile>>,
    c0: Map<Seq<char>, CursorPosition>,
    u: Seq<char>,
    action: GameAction,
    g1: Seq<Seq<Tile>>,
    p1: bool,
    c1: Map<Seq<char>, CursorPosition>,
    ev: Seq<GameEvent>,
)
    requires
        g0.len() <= 256,
        width_of(g0) <= 256,
        blank_rectangle(g0),
        action is Discover,
        play_step(g0, false, c0, u, action, g1, p1, c1, ev),
    ensures
        numbers_consistent(g1),
{
    let sx = action->Discover_x as int;
    let sy = action->Discover_y as int;
    let bombs = choose|bombs: Seq<(u8, u8)>|
        valid_bombs(SafeZone::Square, g0, bombs, sx, sy) && discovered(after_bombs(g0, bombs), g1, ev, sx, sy);
    let gp = after_bombs(g0, bombs);
    law_placed_bombs_are_counted(SafeZone::Square, g0, bombs, sx, sy);
    lemma_reveals_keep_numbers(gp, g1);
}

/// Once the bombs are placed, every move keeps each tile telling how many
/// of its neighbours hold a bomb.
pub proof fn law_moves_keep_numbers(
    g0: Seq<Seq<Tile>>,
    p0: bool,
    c0: Map<Seq<char>, CursorPosition>,
    u: Seq<char>,
    action: GameAction,
    g1: Seq<Seq<Tile>>,
    p1: bool,
    c1: Map<Seq<char>, CursorPosition>,
    ev: Seq<GameEvent>,
)
    requires
        p0 || !(action is Discover),
        numbers_consistent(g0),
        play_step(g0, p0, c0, u, action, g1, p1, c1, ev),
    ensures
        numbers_consistent(g1),
{
    match action {
        GameAction::Discover { .. } => {
            lemma_reveals_keep_numbers(g0, g1);
        },
        GameAction::PlaceFlag { x, y } => {
            if in_bounds(g0, x as int, y as int) && g0[y as int][x as int].state == TileState::Untouched {
                lemma_flag_keeps_numbers(g0, x as int, y as int, TileState::Flagged);
            }
        },
        GameAction::RemoveFlag { x, y } => {
            if in_bounds(g0, x as int, y as int) && g0[y as int][x as int].state == TileState::Flagged {
                lemma_flag_keeps_numbers(g0, x as int, y as int, TileState::Untouched);
            }
        },
        _ => {},
    }
}

/// Changing the state of one tile keeps the numbers counting the bombs.
proof fn lemma_flag_keeps_numbers(g0: Seq<Seq<Tile>>, x: int, y: int, to: TileState)
    requires
        in_bounds(g0, x, y),
        numbers_consistent(g0),
    ensures
        numbers_consistent(with_state(g0, x, y, to)),
{
    let g1 = with_state(g0, x, y, to);
    assert forall|a: int, b: int| 0 <= b < g0.len() && 0 <= a < g0[b].len() implies #[trigger] g0[b][a].content == g1[b][a].content by {
        if b == y && a == x {
        } else if b == y {
            assert(g1[b][a] == g0[b][a]);
        }
    }
    assert forall|b: int| 0 <= b < g0.len() implies #[trigger] g0[b].len() == g1[b].len() by {}
    assert forall|a: int, b: int| in_bounds(g1, a, b) && #[trigger] g1[b][a].content != TileContent::Bomb implies base(g1[b][a].content) == bombs_around(g1, a, b)
        && (g1[b][a].content matches TileContent::Number(k) ==> 1 <= k <= 8) by {
        assert(g0[b][a].content == g1[b][a].content);
        assert(in_bounds(g0, a, b));
        lemma_count_bombs_contents(g0, g1, a, b, 8);
    }
}

} // verus!

verus! {

/// No tile shows a bomb.
pub open spec fn no_bomb_shown(g: Seq<Seq<Tile>>) -> bool {
    forall|x: int, y: int| 0 <= y < g.len() && 0 <= x < g[y].len() ==> #[trigger] g[y][x].state != TileState::Discovered(TileContent::Bomb)
}

/// Placing bombs changes what tiles hold, never what they show.
proof fn lemma_bombs_keep_states(g0: Seq<Seq<Tile>>, bombs: Seq<(u8, u8)>)
    ensures
        after_bombs(g0, bombs).len() == g0.len(),
        forall|y: int| 0 <= y < g0.len() ==> #[trigger] after_bombs(g0, bombs)[y].len() == g0[y].len(),
        forall|x: int, y: int|
            0 <= y < g0.len() && 0 <= x < g0[y].len() ==> #[trigger] after_bombs(g0, bombs)[y][x].state == g0[y][x].state,
{
}

/// No move ever shows a bomb: discovering stops at bombs, and flags only
/// cover or uncover tiles.
pub proof fn law_no_bomb_ever_shown(
    g0: Seq<Seq<Tile>>,
    p0: bool,
    c0: Map<Seq<char>, CursorPosition>,
    u: Seq<char>,
    action: GameAction,
    g1: Seq<Seq<Tile>>,
    p1: bool,
    c1: Map<Seq<char>, CursorPosition>,
    ev: Seq<GameEvent>,
)
    requires
        no_bomb_shown(g0),
        play_step(g0, p0, c0, u, action, g1, p1, c1, ev),
    ensures
        no_bomb_shown(g1),
{
    match action {
        GameAction::Discover { x, y } => {
            let gp = if p0 {
                g0
            } else {
                let bombs = choose|bombs: Seq<(u8, u8)>|
                    valid_bombs(SafeZone::Square, g0, bombs, x as int, y as int) && discovered(
                        after_bombs(g0, bombs),
                        g1,
                        ev,
                        x as int,
                        y as int,
                    );
                lemma_bombs_keep_states(g0, bombs);
                after_bombs(g0, bombs)
            };
            assert(discovered(gp, g1, ev, x as int, y as int));
            assert forall|a: int, b: int| 0 <= b < g1.len() && 0 <= a < g1[b].len() implies #[trigger] g1[b][a].state
                != TileState::Discovered(TileContent::Bomb) by {
                assert(gp[b].len() == g1[b].len());
                assert(gp[b][a].state != TileState::Discovered(TileContent::Bomb));
            }
        },
        GameAction::PlaceFlag { x, y } => {
            assert forall|a: int, b: int| 0 <= b < g1.len() && 0 <= a < g1[b].len() implies #[trigger] g1[b][a].state
                != TileState::Discovered(TileContent::Bomb) by {
                if in_bounds(g0, x as int, y as int) && g0[y as int][x as int].state == TileState::Untouched && b == y {
                    assert(g1[b] == g0[b].update(x as int, Tile { content: g0[b][x as int].content, state: TileState::Flagged }));
                    if a != x {
                        assert(g1[b][a] == g0[b][a]);
                    }
                }
            }
        },
        GameAction::RemoveFlag { x, y } => {
            assert forall|a: int, b: int| 0 <= b < g1.len() && 0 <= a < g1[b].len() implies #[trigger] g1[b][a].state
                != TileState::Discovered(TileContent::Bomb) by {
                if in_bounds(g0, x as int, y as int) && g0[y as int][x as int].state == TileState::Flagged && b == y {
                    assert(g1[b] == g0[b].update(x as int, Tile { content: g0[b][x as int].content, state: TileState::Untouched }));
                    if a != x {
                        assert(g1[b][a] == g0[b][a]);
                    }
                }
            }
        },
        _ => {},
    }
}

/// Discovering never uncovers a flagged tile: it stays flagged.
pub proof fn law_flags_survive_discovery(
    g0: Seq<Seq<Tile>>,
    p0: bool,
    c0: Map<Seq<char>, CursorPosition>,
    u: Seq<char>,
    action: GameAction,
    g1: Seq<Seq<Tile>>,
    p1: bool,
    c1: Map<Seq<char>, CursorPosition>,
    ev: Seq<GameEvent>,
    fx: int,
    fy: int,
)
    requires
        action is Discover,
        play_step(g0, p0, c0, u, action, g1, p1, c1, ev),
        in_bounds(g0, fx, fy),
        g0[fy][fx].state == TileState::Flagged,
    ensures
        in_bounds(g1, fx, fy),
        g1[fy][fx].state == TileState::Flagged,
{
    let x = action->Discover_x as int;
    let y = action->Discover_y as int;
    let gp = if p0 {
        g0
    } else {
        let bombs = choose|bombs: Seq<(u8, u8)>|
            valid_bombs(SafeZone::Square, g0, bombs, x, y) && discovered(after_bombs(g0, bombs), g1, ev, x, y);
        lemma_bombs_keep_states(g0, bombs);
        after_bombs(g0, bombs)
    };
    assert(discovered(gp, g1, ev, x, y));
    assert(gp[fy].len() == g1[fy].len());
    assert(gp[fy][fx].state == TileState::Flagged);
    assert(g1[fy][fx] == gp[fy][fx] || newly(gp, g1, fx, fy));
}

} // verus!

verus! {

/// How the tile `(x, y)` may change in one move: it stays as it shows; or
/// an untouched tile is flagged by placing a flag on it, a flagged tile
/// is uncovered by removing its flag, or an untouched tile that is no bomb
/// is discovered, showing what it holds.
pub open spec fn tile_change(t0: Tile, t1: Tile, action: GameAction, x: int, y: int) -> bool {
    ||| t1.state == t0.state
    ||| t0.state == TileState::Untouched && t1.state == TileState::Flagged
        && action == (GameAction::PlaceFlag { x: x as i32, y: y as i32 })
    ||| t0.state == TileState::Flagged && t1.state == TileState::Untouched
        && action == (GameAction::RemoveFlag { x: x as i32, y: y as i32 })
    ||| t0.state == TileState::Untouched && action is Discover && t1.content != TileContent::Bomb
        && t1.state == TileState::Discovered(t1.content)
}

/// Every move keeps the shape of the grid and changes each tile only as
/// `tile_change` allows: a discovered tile is never left, and what tiles
/// hold changes only when the first discovery places the bombs.
pub proof fn law_tile_changes(
    g0: Seq<Seq<Tile>>,
    p0: bool,
    c0: Map<Seq<char>, CursorPosition>,
    u: Seq<char>,
    action: GameAction,
    g1: Seq<Seq<Tile>>,
    p1: bool,
    c1: Map<Seq<char>, CursorPosition>,
    ev: Seq<GameEvent>,
)
    requires
        play_step(g0, p0, c0, u, action, g1, p1, c1, ev),
    ensures
        g1.len() == g0.len(),
        forall|y: int| 0 <= y < g0.len() ==> #[trigger] g1[y].len() == g0[y].len(),
        forall|x: int, y: int|
            0 <= y < g0.len() && 0 <= x < g0[y].len() ==> tile_change(#[trigger] g0[y][x], g1[y][x], action, x, y),
        forall|x: int, y: int|
            0 <= y < g0.len() && 0 <= x < g0[y].len() && (#[trigger] g0[y][x]).state is Discovered ==> g1[y][x].state
                == g0[y][x].state,
        p0 || !(action is Discover) ==> forall|x: int, y: int|
            0 <= y < g0.len() && 0 <= x < g0[y].len() ==> (#[trigger] g1[y][x]).content == g0[y][x].content,
{
    match action {
        GameAction::Discover { x, y } => {
            let gp = if p0 {
                g0
            } else {
                let bombs = choose|bombs: Seq<(u8, u8)>|
                    valid_bombs(SafeZone::Square, g0, bombs, x as int, y as int) && discovered(
                        after_bombs(g0, bombs),
                        g1,
                        ev,
                        x as int,
                        y as int,
                    );
                lemma_bombs_keep_states(g0, bombs);
                after_bombs(g0, bombs)
            };
            assert(discovered(gp, g1, ev, x as int, y as int));
            assert forall|b: int| 0 <= b < g0.len() implies #[trigger] g1[b].len() == g0[b].len() by {
                assert(gp[b].len() == g1[b].len());
            }
            assert forall|a: int, b: int| 0 <= b < g0.len() && 0 <= a < g0[b].len() implies tile_change(
                #[trigger] g0[b][a],
                g1[b][a],
                action,
                a,
                b,
            ) && ((g0[b][a]).state is Discovered ==> g1[b][a].state == g0[b][a].state) by {
                assert(gp[b].len() == g1[b].len());
                assert(gp[b][a].state == g0[b][a].state);
                assert(g1[b][a] == gp[b][a] || newly(gp, g1, a, b));
            }
            if p0 {
                assert forall|a: int, b: int| 0 <= b < g0.len() && 0 <= a < g0[b].len() implies (
                #[trigger] g1[b][a]).content == g0[b][a].content by {
                    assert(g1[b][a] == gp[b][a] || newly(gp, g1, a, b));
                }
            }
        },
        GameAction::PlaceFlag { x, y } => {
            lemma_with_state_changes(g0, g1, x as int, y as int, TileState::Untouched, TileState::Flagged, action);
        },
        GameAction::RemoveFlag { x, y } => {
            lemma_with_state_changes(g0, g1, x as int, y as int, TileState::Flagged, TileState::Untouched, action);
        },
        _ => {},
    }
}

/// A flag step changes only the state of its tile, from `from` to `to`.
proof fn lemma_with_state_changes(
    g0: Seq<Seq<Tile>>,
    g1: Seq<Seq<Tile>>,
    x: int,
    y: int,
    from: TileState,
    to: TileState,
    action: GameAction,
)
    requires
        (in_bounds(g0, x, y) && g0[y][x].state == from) ==> g1 == with_state(g0, x, y, to),
        !(in_bounds(g0, x, y) && g0[y][x].state == from) ==> g1 == g0,
        from == TileState::Untouched && to == TileState::Flagged ==> action == (GameAction::PlaceFlag { x: x as i32, y: y as i32 }),
        from == TileState::Flagged && to == TileState::Untouched ==> action == (GameAction::RemoveFlag { x: x as i32, y: y as i32 }),
        (from == TileState::Untouched && to == TileState::Flagged) || (from == TileState::Flagged && to == TileState::Untouched),
    ensures
        g1.len() == g0.len(),
        forall|b: int| 0 <= b < g0.len() ==> #[trigger] g1[b].len() == g0[b].len(),
        forall|a: int, b: int|
            0 <= b < g0.len() && 0 <= a < g0[b].len() ==> tile_change(#[trigger] g0[b][a], g1[b][a], action, a, b),
        forall|a: int, b: int|
            0 <= b < g0.len() && 0 <= a < g0[b].len() && (#[trigger] g0[b][a]).state is Discovered ==> g1[b][a].state
                == g0[b][a].state,
        forall|a: int, b: int|
            0 <= b < g0.len() && 0 <= a < g0[b].len() ==> (#[trigger] g1[b][a]).content == g0[b][a].content,
{
    if in_bounds(g0, x, y) && g0[y][x].state == from {
        assert forall|b: int| 0 <= b < g0.len() implies #[trigger] g1[b].len() == g0[b].len() by {}
        assert forall|a: int, b: int| 0 <= b < g0.len() && 0 <= a < g0[b].len() implies (#[trigger] g1[b][a]).content
            == g0[b][a].content && tile_change(g0[b][a], g1[b][a], action, a, b) && ((g0[b][a]).state is Discovered
            ==> g1[b][a].state == g0[b][a].state) by {
            if b == y && a != x {
                assert(g1[b][a] == g0[b][a]);
            }
        }
    }
}

/// `ev` tells one update for each tile whose state differs from `g0` to
/// `g1`, carrying its new state, and none for any other tile.
pub open spec fn updates_changed_tiles(g0: Seq<Seq<Tile>>, g1: Seq<Seq<Tile>>, ev: Seq<GameEvent>) -> bool {
    &&& forall|i: int|
        0 <= i < ev.len() && (#[trigger] ev[i] is TileStateUpdate) ==> {
            &&& in_bounds(g0, ev[i]->x as int, ev[i]->y as int)
            &&& g0[ev[i]->y as int][ev[i]->x as int].state != g1[ev[i]->y as int][ev[i]->x as int].state
            &&& ev[i]->state == g1[ev[i]->y as int][ev[i]->x as int].state
        }
    &&& forall|i: int, j: int|
        0 <= i < ev.len() && 0 <= j < ev.len() && #[trigger] ev[i] is TileStateUpdate
            && #[trigger] ev[j] is TileStateUpdate && ev[i]->x == ev[j]->x && ev[i]->y == ev[j]->y ==> i == j
    &&& forall|x: int, y: int|
        in_bounds(g0, x, y) && #[trigger] g0[y][x].state != g1[y][x].state ==> exists|i: int|
            0 <= i < ev.len() && update_at(#[trigger] ev[i], x, y)
}

/// What a discovery tells updates exactly the tiles that it changes.
proof fn lemma_discovery_updates(g0: Seq<Seq<Tile>>, g1: Seq<Seq<Tile>>, ev: Seq<GameEvent>, sx: int, sy: int)
    requires
        discovered(g0, g1, ev, sx, sy),
    ensures
        updates_changed_tiles(g0, g1, ev),
{
    assert forall|i: int| 0 <= i < ev.len() && (#[trigger] ev[i] is TileStateUpdate) implies {
        &&& in_bounds(g0, ev[i]->x as int, ev[i]->y as int)
        &&& g0[ev[i]->y as int][ev[i]->x as int].state != g1[ev[i]->y as int][ev[i]->x as int].state
        &&& ev[i]->state == g1[ev[i]->y as int][ev[i]->x as int].state
    } by {
        let x = ev[i]->x as int;
        let y = ev[i]->y as int;
        assert(newly(g0, g1, x, y));
        assert(g1[y][x] == g0[y][x] || g1[y][x].state == TileState::Discovered(g0[y][x].content));
    }
    assert forall|x: int, y: int| in_bounds(g0, x, y) && #[trigger] g0[y][x].state != g1[y][x].state implies exists|i: int|
        0 <= i < ev.len() && update_at(#[trigger] ev[i], x, y) by {
        assert(g1[y][x] == g0[y][x] || newly(g0, g1, x, y));
    }
}

/// Every move tells one update for each tile whose state it changes,
/// carrying the tile's new state, and none for any other tile; the grid
/// keeps its shape.
pub proof fn law_one_update_per_changed_tile(
    g0: Seq<Seq<Tile>>,
    p0: bool,
    c0: Map<Seq<char>, CursorPosition>,
    u: Seq<char>,
    action: GameAction,
    g1: Seq<Seq<Tile>>,
    p1: bool,
    c1: Map<Seq<char>, CursorPosition>,
    ev: Seq<GameEvent>,
)
    requires
        play_step(g0, p0, c0, u, action, g1, p1, c1, ev),
    ensures
        same_shape(g0, g1),
        updates_changed_tiles(g0, g1, ev),
{
    match action {
        GameAction::Discover { x, y } => {
            if p0 {
                lemma_discovery_updates(g0, g1, ev, x as int, y as int);
            } else {
                let bombs = choose|bombs: Seq<(u8, u8)>|
                    valid_bombs(SafeZone::Square, g0, bombs, x as int, y as int) && discovered(
                        after_bombs(g0, bombs),
                        g1,
                        ev,
                        x as int,
                        y as int,
                    );
                let gp = after_bombs(g0, bombs);
                lemma_discovery_updates(gp, g1, ev, x as int, y as int);
                assert forall|a: int, b: int| 0 <= b < g0.len() && 0 <= a < g0[b].len() implies #[trigger] gp[b][a].state
                    == g0[b][a].state by {}
                assert(same_shape(g0, gp));
            }
        },
        GameAction::PlaceFlag { x, y } => {
            lemma_flag_updates(g0, g1, ev, x as int, y as int, TileState::Untouched, TileState::Flagged);
        },
        GameAction::RemoveFlag { x, y } => {
            lemma_flag_updates(g0, g1, ev, x as int, y as int, TileState::Flagged, TileState::Untouched);
        },
        _ => {},
    }
}

/// What turning a flag tells updates exactly the tile that it changes.
proof fn lemma_flag_updates(g0: Seq<Seq<Tile>>, g1: Seq<Seq<Tile>>, ev: Seq<GameEvent>, x: int, y: int, from: TileState, to: TileState)
    requires
        from != to,
        flag_step(g0, g1, ev, x, y, from, to),
    ensures
        same_shape(g0, g1),
        updates_changed_tiles(g0, g1, ev),
{
    if in_bounds(g0, x, y) && g0[y][x].state == from {
        assert(g1 == with_state(g0, x, y, to));
        assert forall|a: int, b: int| in_bounds(g0, a, b) && #[trigger] g0[b][a].state != g1[b][a].state implies exists|i: int|
            0 <= i < ev.len() && update_at(#[trigger] ev[i], a, b) by {
            if !(a == x && b == y) {
                if b == y {
                    assert(g1[b][a] == g0[b][a]);
                }
            }
            assert(update_at(ev[0], a, b));
        }
    }
}

} // verus!
