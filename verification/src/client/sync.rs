//! Keeping the client's board in step with the server's.

use vstd::prelude::*;

use crate::game::discover::{discovered, discovery_events, newly, reveals_only, update_at};
use crate::game::{flag_step, play_step, with_state, CursorPosition, GameAction, GameEvent};
use crate::grid::bombs::after_bombs;
use crate::grid::populate::{valid_bombs, SafeZone};
use crate::grid::vec_grid::{states_of, VecGrid};
use crate::grid::in_bounds;
use crate::messages::GenericServerMessage;
use crate::tile::{Tile, TileState};

verus! {

/// The client's board once the event `e` is applied to `c`.
pub open spec fn apply_event(c: Seq<Seq<TileState>>, e: GameEvent) -> Seq<Seq<TileState>> {
    match e {
        GameEvent::TileStateUpdate { x, y, state } => if in_bounds(c, x as int, y as int) {
            c.update(y as int, c[y as int].update(x as int, state))
        } else {
            c
        },
        GameEvent::GameStart { grid, .. } => grid.rows(),
        _ => c,
    }
}

/// The client's board once the events `ev` are applied to `c`, in order.
pub open spec fn apply_events(c: Seq<Seq<TileState>>, ev: Seq<GameEvent>) -> Seq<Seq<TileState>>
    decreases ev.len(),
{
    if ev.len() == 0 {
        c
    } else {
        apply_event(apply_events(c, ev.drop_last()), ev.last())
    }
}

/// The message can be applied: a tile update names a tile of the board.
pub open spec fn applicable(c: Seq<Seq<TileState>>, message: GenericServerMessage) -> bool {
    match message {
        GenericServerMessage::GameEvent(GameEvent::TileStateUpdate { x, y, .. }) => in_bounds(c, x as int, y as int),
        _ => true,
    }
}

/// Applies a message of the server to the client's board: a tile update
/// changes that tile, the start of a game replaces the whole board, and
/// the other events leave it as it is.
pub fn apply_server_message(grid: &mut VecGrid<TileState>, message: GenericServerMessage)
    requires
        applicable(old(grid).rows(), message),
    ensures
        match message {
            GenericServerMessage::GameEvent(e) => final(grid).rows() == apply_event(old(grid).rows(), e),
        },
{
    match message {
        GenericServerMessage::GameEvent(event) => match event {
            GameEvent::TileStateUpdate { x, y, state } => {
                grid.set(x, y, state);
            },
            GameEvent::GameStart { grid: new_grid, cursors: _ } => {
                *grid = new_grid;
            },
            GameEvent::GameOver {  } => {},
            GameEvent::CursorMoved(_, _) => {},
        },
    }
}

/// The board after the first `i` events of a discovery: the tiles updated
/// so far show their new state, the others their old one.
spec fn partial_states(g0: Seq<Seq<Tile>>, g1: Seq<Seq<Tile>>, ev: Seq<GameEvent>, i: int) -> Seq<Seq<TileState>> {
    Seq::new(
        g0.len(),
        |y: int|
            Seq::new(
                g0[y].len(),
                |x: int|
                    if exists|j: int| 0 <= j < i && update_at(#[trigger] ev[j], x, y) {
                        g1[y][x].state
                    } else {
                        g0[y][x].state
                    },
            ),
    )
}

proof fn lemma_apply_discovery(g0: Seq<Seq<Tile>>, g1: Seq<Seq<Tile>>, ev: Seq<GameEvent>, sx: int, sy: int, i: int)
    requires
        reveals_only(g0, g1),
        discovery_events(g0, g1, ev, sx, sy),
        0 <= i <= ev.len(),
    ensures
        apply_events(states_of(g0), ev.take(i)) == partial_states(g0, g1, ev, i),
    decreases i,
{
    if i == 0 {
        assert(ev.take(0) =~= Seq::<GameEvent>::empty());
        assert(states_of(g0) =~~= partial_states(g0, g1, ev, 0));
    } else {
        lemma_apply_discovery(g0, g1, ev, sx, sy, i - 1);
        assert(ev.take(i).drop_last() =~= ev.take(i - 1));
        let e = ev[i - 1];
        let prev = partial_states(g0, g1, ev, i - 1);
        let next = partial_states(g0, g1, ev, i);
        if e is GameOver {
            assert forall|y: int, x: int| 0 <= y < g0.len() && 0 <= x < g0[y].len() implies #[trigger] next[y][x] == prev[y][x] by {
                if exists|j: int| 0 <= j < i && update_at(#[trigger] ev[j], x, y) {
                    let j = choose|j: int| 0 <= j < i && update_at(#[trigger] ev[j], x, y);
                    assert(j != i - 1);
                }
            }
            assert(next =~~= prev);
        } else {
            let ex = e->x as int;
            let ey = e->y as int;
            assert(newly(g0, g1, ex, ey));
            assert(g0[ey].len() == g1[ey].len());
            assert(g1[ey][ex] == g0[ey][ex] || newly(g0, g1, ex, ey));
            assert(update_at(ev[i - 1], ex, ey));
            assert forall|y: int, x: int| 0 <= y < g0.len() && 0 <= x < g0[y].len() && !(x == ex && y == ey) implies #[trigger] next[y][x] == prev[y][x] by {
                if exists|j: int| 0 <= j < i && update_at(#[trigger] ev[j], x, y) {
                    let j = choose|j: int| 0 <= j < i && update_at(#[trigger] ev[j], x, y);
                    assert(j != i - 1);
                }
            }
            assert(next =~~= prev.update(ey, prev[ey].update(ex, e->state)));
        }
    }
}

/// A discovery's events bring a board that shows `g0` to one that shows `g1`.
proof fn lemma_apply_discovered(g0: Seq<Seq<Tile>>, g1: Seq<Seq<Tile>>, ev: Seq<GameEvent>, sx: int, sy: int)
    requires
        discovered(g0, g1, ev, sx, sy),
    ensures
        apply_events(states_of(g0), ev) == states_of(g1),
{
    lemma_apply_discovery(g0, g1, ev, sx, sy, ev.len() as int);
    assert(ev.take(ev.len() as int) =~= ev);
    let p = partial_states(g0, g1, ev, ev.len() as int);
    assert forall|y: int, x: int| 0 <= y < g0.len() && 0 <= x < g0[y].len() implies #[trigger] p[y][x] == states_of(g1)[y][x] by {
        assert(g0[y].len() == g1[y].len());
        assert(g1[y][x] == g0[y][x] || newly(g0, g1, x, y));
        if newly(g0, g1, x, y) {
            let j = choose|j: int| 0 <= j < ev.len() && update_at(#[trigger] ev[j], x, y);
            assert(update_at(ev[j], x, y));
        } else {
            if exists|j: int| 0 <= j < ev.len() && update_at(#[trigger] ev[j], x, y) {
                let j = choose|j: int| 0 <= j < ev.len() && update_at(#[trigger] ev[j], x, y);
                assert(!(ev[j] is GameOver));
            }
        }
    }
    assert(p =~~= states_of(g1));
}

/// Placing bombs changes no state.
proof fn lemma_states_after_bombs(g0: Seq<Seq<Tile>>, bombs: Seq<(u8, u8)>)
    ensures
        states_of(after_bombs(g0, bombs)) == states_of(g0),
{
    assert(states_of(after_bombs(g0, bombs)) =~~= states_of(g0));
}

proof fn lemma_apply_flag(
    g0: Seq<Seq<Tile>>,
    g1: Seq<Seq<Tile>>,
    ev: Seq<GameEvent>,
    x: int,
    y: int,
    from: TileState,
    to: TileState,
)
    requires
        flag_step(g0, g1, ev, x, y, from, to),
    ensures
        apply_events(states_of(g0), ev) == states_of(g1),
{
    if in_bounds(g0, x, y) && g0[y][x].state == from {
        assert(ev.drop_last() =~= Seq::<GameEvent>::empty());
        assert(apply_events(states_of(g0), ev.drop_last()) == states_of(g0));
        assert(ev.last() == ev[0]);
        assert(states_of(g0)[y].len() == g0[y].len());
        assert(states_of(with_state(g0, x, y, to)) =~~= states_of(g0).update(y, states_of(g0)[y].update(x, to)));
    }
}

/// A client whose board shows the server's grid, and which applies every
/// event of a move in order, shows the server's grid after the move.
pub proof fn law_client_mirrors_server(
    g0: Seq<Seq<Tile>>,
    p0: bool,
    c0: Map<Seq<char>, CursorPosition>,
    u: Seq<char>,
    action: GameAction,
    g1: Seq<Seq<Tile>>,
    p1: bool,
    c1: Map<Seq<char>, CursorPosition>,
    ev: Seq<GameEvent>,
)
    requires
        play_step(g0, p0, c0, u, action, g1, p1, c1, ev),
    ensures
        apply_events(states_of(g0), ev) == states_of(g1),
{
    match action {
        GameAction::Discover { x, y } => {
            if p0 {
                lemma_apply_discovered(g0, g1, ev, x as int, y as int);
                assert(apply_events(states_of(g0), ev) == states_of(g1));
            } else {
                let bombs = choose|bombs: Seq<(u8, u8)>|
                    valid_bombs(SafeZone::Square, g0, bombs, x as int, y as int) && discovered(
                        after_bombs(g0, bombs),
                        g1,
                        ev,
                        x as int,
                        y as int,
                    );
                lemma_apply_discovered(after_bombs(g0, bombs), g1, ev, x as int, y as int);
                lemma_states_after_bombs(g0, bombs);
                assert(apply_events(states_of(g0), ev) == states_of(g1));
            }
        },
        GameAction::PlaceFlag { x, y } => {
            lemma_apply_flag(g0, g1, ev, x as int, y as int, TileState::Untouched, TileState::Flagged);
        },
        GameAction::RemoveFlag { x, y } => {
            lemma_apply_flag(g0, g1, ev, x as int, y as int, TileState::Flagged, TileState::Untouched);
        },
        GameAction::RedrawRequest => {
            assert(ev.drop_last() =~= Seq::<GameEvent>::empty());
            assert(apply_events(states_of(g0), ev.drop_last()) == states_of(g0));
            assert(ev.last() == ev[0]);
            assert(apply_events(states_of(g0), ev) == states_of(g1));
        },
        GameAction::CursorMoved(_) => {
            assert(ev.drop_last() =~= Seq::<GameEvent>::empty());
            assert(apply_events(states_of(g0), ev.drop_last()) == states_of(g0));
            assert(ev.last() == ev[0]);
            assert(apply_events(states_of(g0), ev) == states_of(g1));
        },
    }
}

} // verus!
