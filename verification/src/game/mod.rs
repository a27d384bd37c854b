//! The game: what players can do, what they are told, and the rules that
//! turn the one into the other.

use vstd::prelude::*;

use crate::grid::bombs::after_bombs;
use crate::grid::populate::{fits_bombs, valid_bombs, SafeZone};
use crate::grid::vec_grid::{states_of, VecGrid};
use crate::grid::{in_bounds, tile_at, Grid};
use crate::tile::{Tile, TileState};
use cursors::{copy_cursors, cursor_map, lemma_cursor_map_copy, names_unique, set_cursor};
use discover::{discover, discovered, discovery, same_shape, start_told};
use overs::overs_told;

pub mod cursors;
pub mod discover;
pub mod events;
pub mod laws;
pub mod overs;

verus! {

/// Where a player's cursor is, in tiles.
#[derive(Debug, Clone, Copy, PartialEq, Eq, Structural)]
pub struct CursorPosition {
    pub x: i32,
    pub y: i32,
}

/// What a player can do.
#[derive(Debug, Clone, Copy, PartialEq, Eq, Structural)]
pub enum GameAction {
    /// Uncover a tile.
    Discover { x: i32, y: i32 },
    /// Put a flag on a tile.
    PlaceFlag { x: i32, y: i32 },
    /// Take a flag off a tile.
    RemoveFlag { x: i32, y: i32 },
    /// Ask for the whole board again.
    RedrawRequest,
    /// Tell the others where the cursor is.
    CursorMoved(CursorPosition),
}

/// An action together with the player who took it.
#[derive(Debug, Clone)]
pub struct GameInput {
    pub username: String,
    pub action: GameAction,
}

/// What players are told.
#[derive(Debug, Clone)]
pub enum GameEvent {
    /// The whole board as players see it, with every known cursor.
    GameStart { grid: VecGrid<TileState>, cursors: Vec<(String, CursorPosition)> },
    /// A tile now shows `state`.
    TileStateUpdate { x: i32, y: i32, state: TileState },
    /// A bomb was uncovered.
    GameOver {},
    /// A player's cursor moved.
    CursorMoved(String, CursorPosition),
}

/// `g` with the state of the tile `(x, y)` replaced by `state`.
pub open spec fn with_state(g: Seq<Seq<Tile>>, x: int, y: int, state: TileState) -> Seq<Seq<Tile>> {
    g.update(y, g[y].update(x, Tile { content: g[y][x].content, state }))
}

/// Turning the tile `(x, y)` from `from` to `to`, when it shows `from`:
/// `g1` is `g0` with that change and the change is told; otherwise
/// nothing changes and nothing is told.
pub open spec fn flag_step(
    g0: Seq<Seq<Tile>>,
    g1: Seq<Seq<Tile>>,
    ev: Seq<GameEvent>,
    x: int,
    y: int,
    from: TileState,
    to: TileState,
) -> bool {
    if in_bounds(g0, x, y) && g0[y][x].state == from {
        &&& g1 == with_state(g0, x, y, to)
        &&& ev.len() == 1
        &&& ev[0] == GameEvent::TileStateUpdate { x: x as i32, y: y as i32, state: to }
    } else {
        &&& g1 == g0
        &&& ev.len() == 0
    }
}

/// Discovering `(x, y)`, with the bombs placed first on the first discovery
/// of the game: `g1` and `ev` are what `discovery` gives on the grid with
/// its bombs, which also shows the properties of a discovery.
pub open spec fn discover_step(
    g0: Seq<Seq<Tile>>,
    populated: bool,
    g1: Seq<Seq<Tile>>,
    ev: Seq<GameEvent>,
    x: int,
    y: int,
) -> bool {
    if populated {
        &&& (g1, ev) == discovery(g0, x, y)
        &&& discovered(g0, g1, ev, x, y) && start_told(g0, ev, x, y) && overs_told(g0, g1, ev, x, y)
    } else {
        exists|bombs: Seq<(u8, u8)>|
            valid_bombs(SafeZone::Square, g0, bombs, x, y) && (g1, ev) == discovery(after_bombs(g0, bombs), x, y)
                && discovered(after_bombs(g0, bombs), g1, ev, x, y) && start_told(after_bombs(g0, bombs), ev, x, y)
                && overs_told(after_bombs(g0, bombs), g1, ev, x, y)
    }
}

/// One move of the game. The grid goes from `g0` to `g1`, the bombs are
/// placed or not (`p0`, `p1`), the cursors go from `c0` to `c1`, and `ev`
/// is told.
pub open spec fn play_step(
    g0: Seq<Seq<Tile>>,
    p0: bool,
    c0: Map<Seq<char>, CursorPosition>,
    username: Seq<char>,
    action: GameAction,
    g1: Seq<Seq<Tile>>,
    p1: bool,
    c1: Map<Seq<char>, CursorPosition>,
    ev: Seq<GameEvent>,
) -> bool {
    match action {
        GameAction::Discover { x, y } => {
            &&& p1
            &&& c1 == c0
            &&& discover_step(g0, p0, g1, ev, x as int, y as int)
        },
        GameAction::PlaceFlag { x, y } => {
            &&& p1 == p0
            &&& c1 == c0
            &&& flag_step(g0, g1, ev, x as int, y as int, TileState::Untouched, TileState::Flagged)
        },
        GameAction::RemoveFlag { x, y } => {
            &&& p1 == p0
            &&& c1 == c0
            &&& flag_step(g0, g1, ev, x as int, y as int, TileState::Flagged, TileState::Untouched)
        },
        GameAction::RedrawRequest => {
            &&& p1 == p0
            &&& c1 == c0
            &&& g1 == g0
            &&& ev.len() == 1
            &&& ev[0] is GameStart
            &&& ev[0]->grid.rows() == states_of(g0)
            &&& cursor_map(ev[0]->cursors@) == c0
        },
        GameAction::CursorMoved(pos) => {
            &&& p1 == p0
            &&& g1 == g0
            &&& c1 == c0.insert(username, pos)
            &&& ev.len() == 1
            &&& ev[0] matches GameEvent::CursorMoved(name, q) && name@ == username && q == pos
        },
    }
}

/// A game on a grid of tiles, with the cursors of its players and the
/// events that have not been handed out yet.
pub struct Game {
    grid: VecGrid<Tile>,
    populated: bool,
    cursors: Vec<(String, CursorPosition)>,
    events: Vec<GameEvent>,
}

impl Game {
    /// The tiles.
    pub closed spec fn rows(&self) -> Seq<Seq<Tile>> {
        self.grid.rows()
    }

    /// The bombs have been placed.
    pub closed spec fn populated(&self) -> bool {
        self.populated
    }

    /// The cursor of each player.
    pub closed spec fn cursors(&self) -> Map<Seq<char>, CursorPosition> {
        cursor_map(self.cursors@)
    }

    /// The events told and not handed out yet, oldest first.
    pub closed spec fn events(&self) -> Seq<GameEvent> {
        self.events@
    }

    /// What every game keeps.
    pub closed spec fn wf(&self) -> bool {
        names_unique(self.cursors@)
    }

    /// A game on `grid`, whose bombs are placed on the first discovery.
    pub fn new(grid: VecGrid<Tile>) -> (r: Self)
        ensures
            r.wf(),
            r.rows() == grid.rows(),
            !r.populated(),
            r.cursors() == Map::<Seq<char>, CursorPosition>::empty(),
            r.events() == Seq::<GameEvent>::empty(),
    {
        let r = Game { grid, populated: false, cursors: Vec::new(), events: Vec::new() };
        assert(r.cursors() == Map::<Seq<char>, CursorPosition>::empty());
        r
    }

    fn emit_event(&mut self, event: GameEvent)
        ensures
            final(self).events@ == old(self).events@.push(event),
            final(self).grid == old(self).grid,
            final(self).populated == old(self).populated,
            final(self).cursors == old(self).cursors,
    {
        self.events.push(event);
    }

    fn discover_tile(&mut self, x: i32, y: i32)
        ensures
            exists|ev: Seq<GameEvent>|
                (final(self).grid.rows(), ev) == discovery(old(self).grid.rows(), x as int, y as int)
                    && discovered(old(self).grid.rows(), final(self).grid.rows(), ev, x as int, y as int)
                    && start_told(old(self).grid.rows(), ev, x as int, y as int)
                    && overs_told(old(self).grid.rows(), final(self).grid.rows(), ev, x as int, y as int)
                    && final(self).events@ == old(self).events@ + ev,
            final(self).populated == old(self).populated,
            final(self).cursors == old(self).cursors,
    {
        let mut ev = discover(&mut self.grid, x, y);
        self.events.append(&mut ev);
    }

    /// Plays one move of `input.username` and records what players are told.
    /// The first discovery places the bombs, which the grid must have room
    /// for.
    pub fn play(&mut self, input: GameInput)
        requires
            old(self).wf(),
            input.action matches GameAction::Discover { x, y } ==> (!old(self).populated() ==> fits_bombs(
                SafeZone::Square,
                old(self).rows(),
                x as int,
                y as int,
            )),
        ensures
            final(self).wf(),
            exists|ev: Seq<GameEvent>|
                play_step(
                    old(self).rows(),
                    old(self).populated(),
                    old(self).cursors(),
                    input.username@,
                    input.action,
                    final(self).rows(),
                    final(self).populated(),
                    final(self).cursors(),
                    ev,
                ) && final(self).events() == old(self).events() + ev,
    {
        let GameInput { action, username } = input;
        let ghost e0 = self.events@;
        match action {
            GameAction::Discover { x, y } => {
                self.play_discover(x, y);
                proof {
                    let ev = choose|ev: Seq<GameEvent>|
                        discover_step(old(self).grid.rows(), old(self).populated, self.grid.rows(), ev, x as int, y as int)
                            && self.events@ == e0 + ev;
                    assert(play_step(old(self).rows(), old(self).populated(), old(self).cursors(), username@,
                        action, self.rows(), self.populated(), self.cursors(), ev));
                    assert(self.events() == old(self).events() + ev);
                }
            },
            GameAction::PlaceFlag { x, y } => {
                self.set_flag(x, y, TileState::Untouched, TileState::Flagged);
                proof {
                    let ev = choose|ev: Seq<GameEvent>|
                        flag_step(old(self).grid.rows(), self.grid.rows(), ev, x as int, y as int,
                            TileState::Untouched, TileState::Flagged) && self.events@ == e0 + ev;
                    assert(play_step(old(self).rows(), old(self).populated(), old(self).cursors(), username@,
                        action, self.rows(), self.populated(), self.cursors(), ev));
                    assert(self.events() == old(self).events() + ev);
                }
            },
            GameAction::RemoveFlag { x, y } => {
                self.set_flag(x, y, TileState::Flagged, TileState::Untouched);
                proof {
                    let ev = choose|ev: Seq<GameEvent>|
                        flag_step(old(self).grid.rows(), self.grid.rows(), ev, x as int, y as int,
                            TileState::Flagged, TileState::Untouched) && self.events@ == e0 + ev;
                    assert(play_step(old(self).rows(), old(self).populated(), old(self).cursors(), username@,
                        action, self.rows(), self.populated(), self.cursors(), ev));
                    assert(self.events() == old(self).events() + ev);
                }
            },
            GameAction::RedrawRequest => {
                let event = self.get_start_event();
                self.emit_event(event);
                proof {
                    let ev = seq![event];
                    assert(self.events@ == e0 + ev);
                    assert(play_step(old(self).rows(), old(self).populated(), old(self).cursors(), username@,
                        action, self.rows(), self.populated(), self.cursors(), ev));
                    assert(self.events() == old(self).events() + ev);
                }
            },
            GameAction::CursorMoved(pos) => {
                let ghost name = username@;
                set_cursor(&mut self.cursors, &username, pos);
                let event = GameEvent::CursorMoved(username, pos);
                self.emit_event(event);
                proof {
                    let ev = seq![event];
                    assert(self.events@ == e0 + ev);
                    assert(play_step(old(self).rows(), old(self).populated(), old(self).cursors(), name,
                        action, self.rows(), self.populated(), self.cursors(), ev));
                    assert(self.events() == old(self).events() + ev);
                }
            },
        }
    }

    fn play_discover(&mut self, x: i32, y: i32)
        requires
            old(self).wf(),
            !old(self).populated ==> fits_bombs(SafeZone::Square, old(self).grid.rows(), x as int, y as int),
        ensures
            final(self).wf(),
            final(self).populated,
            final(self).cursors == old(self).cursors,
            exists|ev: Seq<GameEvent>|
                discover_step(old(self).grid.rows(), old(self).populated, final(self).grid.rows(), ev, x as int, y as int)
                    && final(self).events@ == old(self).events@ + ev,
    {
        let ghost g0 = self.grid.rows();
        let ghost e0 = self.events@;
        if !self.populated {
            self.populated = true;
            self.grid.populate(x, y);
        }
        let ghost gp = self.grid.rows();
        self.discover_tile(x, y);
        proof {
            let ev = choose|ev: Seq<GameEvent>|
                (self.grid.rows(), ev) == discovery(gp, x as int, y as int)
                    && discovered(gp, self.grid.rows(), ev, x as int, y as int) && start_told(gp, ev, x as int, y as int)
                    && overs_told(gp, self.grid.rows(), ev, x as int, y as int) && self.events@ == e0 + ev;
            assert(discover_step(g0, old(self).populated, self.grid.rows(), ev, x as int, y as int));
        }
    }

    fn set_flag(&mut self, x: i32, y: i32, from: TileState, to: TileState)
        requires
            old(self).wf(),
        ensures
            final(self).wf(),
            final(self).populated == old(self).populated,
            final(self).cursors == old(self).cursors,
            exists|ev: Seq<GameEvent>|
                flag_step(old(self).grid.rows(), final(self).grid.rows(), ev, x as int, y as int, from, to)
                    && final(self).events@ == old(self).events@ + ev,
    {
        let ghost g0 = self.grid.rows();
        let ghost e0 = self.events@;
        let found = match self.grid.get(x, y) {
            Some(tile) => if tile.state == from { Some(*tile) } else { None },
            None => None,
        };
        if let Some(tile) = found {
            self.grid.set(x, y, Tile { content: tile.content, state: to });
            self.emit_event(GameEvent::TileStateUpdate { x, y, state: to });
            proof {
                let ev = seq![GameEvent::TileStateUpdate { x, y, state: to }];
                assert(self.events@ == e0 + ev);
                assert(self.grid.rows() == with_state(g0, x as int, y as int, to));
                assert(flag_step(g0, self.grid.rows(), ev, x as int, y as int, from, to));
                assert(same_shape(g0, self.grid.rows()));
            }
        } else {
            assert(self.events@ == e0 + Seq::<GameEvent>::empty());
        }
    }

    /// The whole board as players see it, with every known cursor.
    pub fn get_start_event(&self) -> (r: GameEvent)
        ensures
            r is GameStart,
            r->grid.rows() == states_of(self.rows()),
            cursor_map(r->cursors@) == self.cursors(),
    {
        let grid = self.grid.states();
        let cursors = copy_cursors(&self.cursors);
        proof {
            lemma_cursor_map_copy(cursors@, self.cursors@);
        }
        GameEvent::GameStart { grid, cursors }
    }

    /// Hands out the events told so far, oldest first, and forgets them.
    pub fn buffered_events(&mut self) -> (r: Vec<GameEvent>)
        ensures
            r@ == old(self).events(),
            final(self).events() == Seq::<GameEvent>::empty(),
            final(self).rows() == old(self).rows(),
            final(self).populated() == old(self).populated(),
            final(self).cursors() == old(self).cursors(),
            final(self).wf() == old(self).wf(),
    {
        let mut r: Vec<GameEvent> = Vec::new();
        std::mem::swap(&mut r, &mut self.events);
        r
    }
}

} // verus!
