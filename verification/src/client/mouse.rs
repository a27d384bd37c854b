//! What a click on the board asks the server to do.

use vstd::prelude::*;

use crate::game::GameAction;
use crate::grid::vec_grid::VecGrid;
use crate::grid::{iter_around, offset, tile_at, valid_neighbor, Grid};
use crate::tile::{TileContent, TileState};

verus! {

/// A click on the board, in tiles.
#[derive(Debug, Clone, Copy, PartialEq, Eq, Structural)]
pub struct MouseEvent {
    pub x: i32,
    pub y: i32,
    pub button: MouseButton,
}

/// Which button was pressed; `Double` is both at once.
#[derive(Debug, Clone, Copy, PartialEq, Eq, Structural)]
pub enum MouseButton {
    Left,
    Right,
    Middle,
    Double,
}

/// The `k`-th neighbour of `(x, y)` holds a tile of `grid` in `state`.
pub open spec fn neighbor_in_state(grid: &VecGrid<TileState>, x: int, y: int, k: int, state: TileState) -> bool {
    &&& valid_neighbor(grid, Some(x as u8), Some(y as u8), k)
    &&& tile_at(grid.rows(), x + offset(k).0, y + offset(k).1) == Some(state)
}

/// How many of the first `n` neighbours of `(x, y)` are flagged.
pub open spec fn flags_around(grid: &VecGrid<TileState>, x: int, y: int, n: int) -> nat
    decreases n,
{
    if n <= 0 {
        0
    } else {
        flags_around(grid, x, y, n - 1) + (if neighbor_in_state(grid, x, y, n - 1, TileState::Flagged) {
            1nat
        } else {
            0nat
        })
    }
}

/// The untouched tiles among the first `n` neighbours of `(x, y)`, in order.
pub open spec fn untouched_around(grid: &VecGrid<TileState>, x: int, y: int, n: int) -> Seq<(u8, u8)>
    decreases n,
{
    if n <= 0 {
        Seq::empty()
    } else {
        let rest = untouched_around(grid, x, y, n - 1);
        if neighbor_in_state(grid, x, y, n - 1, TileState::Untouched) {
            rest.push(((x + offset(n - 1).0) as u8, (y + offset(n - 1).1) as u8))
        } else {
            rest
        }
    }
}

/// Discovering each of `tiles`, in order.
pub open spec fn discover_all(tiles: Seq<(u8, u8)>) -> Seq<GameAction> {
    tiles.map_values(|p: (u8, u8)| GameAction::Discover { x: p.0 as i32, y: p.1 as i32 })
}

/// Clicking the number `count` at `(x, y)` with both buttons: when as many
/// flags as `count` lie around it, every untouched tile around it is
/// discovered; otherwise nothing is done.
pub open spec fn chord(grid: &VecGrid<TileState>, x: int, y: int, count: u8) -> Seq<GameAction> {
    if flags_around(grid, x, y, 8) == count {
        discover_all(untouched_around(grid, x, y, 8))
    } else {
        Seq::empty()
    }
}

proof fn lemma_around_skip(grid: &VecGrid<TileState>, x: int, y: int, a: int, b: int)
    requires
        0 <= a <= b <= 8,
        forall|k: int| a <= k < b ==> !#[trigger] valid_neighbor(grid, Some(x as u8), Some(y as u8), k),
    ensures
        flags_around(grid, x, y, b) == flags_around(grid, x, y, a),
        untouched_around(grid, x, y, b) == untouched_around(grid, x, y, a),
    decreases b - a,
{
    if a < b {
        lemma_around_skip(grid, x, y, a, b - 1);
    }
}

proof fn lemma_flags_bound(grid: &VecGrid<TileState>, x: int, y: int, n: int)
    requires
        0 <= n,
    ensures
        flags_around(grid, x, y, n) <= n,
    decreases n,
{
    if n > 0 {
        lemma_flags_bound(grid, x, y, n - 1);
    }
}

/// What a click with both buttons on the number `count` at `(x, y)` does.
pub fn chord_actions(grid: &VecGrid<TileState>, x: i32, y: i32, count: u8) -> (r: Vec<GameAction>)
    requires
        0 <= x <= 255,
        0 <= y <= 255,
    ensures
        r@ == chord(grid, x as int, y as int, count),
{
    let mut it = iter_around(grid, x, y);
    let mut flags: u8 = 0;
    let mut targets: Vec<(u8, u8)> = Vec::new();
    loop
        invariant
            it.grid() == grid,
            it.x() == Some(x as u8),
            it.y() == Some(y as u8),
            0 <= x <= 255,
            0 <= y <= 255,
            it.index() <= 8,
            flags == flags_around(grid, x as int, y as int, it.index() as int),
            targets@ == untouched_around(grid, x as int, y as int, it.index() as int),
        ensures
            flags == flags_around(grid, x as int, y as int, 8),
            targets@ == untouched_around(grid, x as int, y as int, 8),
        decreases 8 - it.index(),
    {
        let ghost start = it.index() as int;
        match it.next() {
            Some(item) => {
                let ghost j = it.index() - 1;
                proof {
                    lemma_around_skip(grid, x as int, y as int, start, j);
                    lemma_flags_bound(grid, x as int, y as int, j);
                }
                let ((nx, ny), state) = item;
                match state {
                    TileState::Untouched => {
                        targets.push((nx, ny));
                    },
                    TileState::Flagged => {
                        flags = flags + 1;
                    },
                    TileState::Discovered(_) => {},
                }
            },
            None => {
                proof {
                    lemma_around_skip(grid, x as int, y as int, start, 8);
                }
                break;
            },
        }
    }
    let mut r: Vec<GameAction> = Vec::new();
    if flags == count {
        let mut i: usize = 0;
        while i < targets.len()
            invariant
                i <= targets.len(),
                r@ == discover_all(targets@.take(i as int)),
            decreases targets.len() - i,
        {
            let (tx, ty) = targets[i];
            r.push(GameAction::Discover { x: tx as i32, y: ty as i32 });
            i = i + 1;
            assert(r@ =~= discover_all(targets@.take(i as int)));
        }
        assert(targets@.take(i as int) =~= targets@);
    }
    r
}

/// What a click on the board asks the server to do: the left button
/// discovers an untouched tile, the right button flags an untouched tile
/// or unflags a flagged one, and the middle button (or both at once) on a
/// number chords it; anything else does nothing.
pub open spec fn mouse_actions(grid: &VecGrid<TileState>, event: MouseEvent) -> Seq<GameAction> {
    let x = event.x;
    let y = event.y;
    match (tile_at(grid.rows(), x as int, y as int), event.button) {
        (Some(TileState::Untouched), MouseButton::Left) => seq![GameAction::Discover { x, y }],
        (Some(TileState::Untouched), MouseButton::Right) => seq![GameAction::PlaceFlag { x, y }],
        (Some(TileState::Flagged), MouseButton::Right) => seq![GameAction::RemoveFlag { x, y }],
        (Some(TileState::Discovered(TileContent::Number(n))), MouseButton::Double) => chord(grid, x as int, y as int, n),
        (Some(TileState::Discovered(TileContent::Number(n))), MouseButton::Middle) => chord(grid, x as int, y as int, n),
        _ => Seq::empty(),
    }
}

/// The actions that a click on the board asks the server for, in order.
pub fn handle_mouse_event(event: MouseEvent, grid: &VecGrid<TileState>) -> (r: Vec<GameAction>)
    ensures
        r@ == mouse_actions(grid, event),
{
    let MouseEvent { x, y, button } = event;
    let tile = match grid.get(x, y) {
        Some(t) => *t,
        None => {
            return Vec::new();
        },
    };
    let mut r: Vec<GameAction> = Vec::new();
    match (tile, button) {
        (TileState::Untouched, MouseButton::Left) => {
            r.push(GameAction::Discover { x, y });
        },
        (TileState::Untouched, MouseButton::Right) => {
            r.push(GameAction::PlaceFlag { x, y });
        },
        (TileState::Flagged, MouseButton::Right) => {
            r.push(GameAction::RemoveFlag { x, y });
        },
        (TileState::Discovered(TileContent::Number(n)), MouseButton::Double)
        | (TileState::Discovered(TileContent::Number(n)), MouseButton::Middle) => {
            r = chord_actions(grid, x, y, n);
        },
        _ => {},
    }
    assert(r@ =~= mouse_actions(grid, event));
    r
}

/// What a click of `button` (0 left, 2 right) at `(x, y)` asks for on the
/// canvas board: a click repeated quickly on the same tile chords a number
/// and does nothing else; otherwise the left button discovers the tile and
/// the right one flags an untouched tile or unflags a flagged one.
pub open spec fn click_actions_spec(
    grid: &VecGrid<TileState>,
    x: i32,
    y: i32,
    button: i16,
    repeated: bool,
) -> Seq<GameAction> {
    match tile_at(grid.rows(), x as int, y as int) {
        Some(state) => if repeated {
            match state {
                TileState::Discovered(TileContent::Number(n)) => chord(grid, x as int, y as int, n),
                _ => Seq::empty(),
            }
        } else if button == 0 {
            seq![GameAction::Discover { x, y }]
        } else if button == 2 {
            match state {
                TileState::Untouched => seq![GameAction::PlaceFlag { x, y }],
                TileState::Flagged => seq![GameAction::RemoveFlag { x, y }],
                TileState::Discovered(_) => Seq::empty(),
            }
        } else {
            Seq::empty()
        },
        None => Seq::empty(),
    }
}

/// The actions a click on the canvas board asks for; `repeated` tells that
/// the same tile was clicked just before.
pub fn click_actions(grid: &VecGrid<TileState>, x: i32, y: i32, button: i16, repeated: bool) -> (r: Vec<GameAction>)
    ensures
        r@ == click_actions_spec(grid, x, y, button, repeated),
{
    let state = match grid.get(x, y) {
        Some(t) => *t,
        None => {
            return Vec::new();
        },
    };
    let mut r: Vec<GameAction> = Vec::new();
    if repeated {
        if let TileState::Discovered(TileContent::Number(n)) = state {
            r = chord_actions(grid, x, y, n);
        }
    } else if button == 0 {
        r.push(GameAction::Discover { x, y });
    } else if button == 2 {
        match state {
            TileState::Untouched => r.push(GameAction::PlaceFlag { x, y }),
            TileState::Flagged => r.push(GameAction::RemoveFlag { x, y }),
            TileState::Discovered(_) => {},
        }
    }
    assert(r@ =~= click_actions_spec(grid, x, y, button, repeated));
    r
}

/// The neighbour `k` of `(x, y)` holds a tile of `grid` in `state`.
proof fn lemma_neighbor_in_state(grid: &VecGrid<TileState>, x: int, y: int, k: int, state: TileState)
    requires
        0 <= x <= 255,
        0 <= y <= 255,
    ensures
        neighbor_in_state(grid, x, y, k, state) <==> tile_at(grid.rows(), x + offset(k).0, y + offset(k).1) == Some(state),
{
}

/// The recursive count of flags is the number of flagged neighbours.
proof fn lemma_flags_count(grid: &VecGrid<TileState>, x: int, y: int, n: int)
    requires
        0 <= x <= 255,
        0 <= y <= 255,
        0 <= n <= 8,
    ensures
        Set::new(|k: int| 0 <= k < n && tile_at(grid.rows(), x + offset(k).0, y + offset(k).1) == Some(TileState::Flagged)).finite(),
        flags_around(grid, x, y, n) == Set::new(
            |k: int| 0 <= k < n && tile_at(grid.rows(), x + offset(k).0, y + offset(k).1) == Some(TileState::Flagged),
        ).len(),
    decreases n,
{
    broadcast use vstd::set::group_set_axioms;

    let s = Set::new(|k: int| 0 <= k < n && tile_at(grid.rows(), x + offset(k).0, y + offset(k).1) == Some(TileState::Flagged));
    if n == 0 {
        assert(s =~= Set::<int>::empty());
    } else {
        lemma_flags_count(grid, x, y, n - 1);
        lemma_neighbor_in_state(grid, x, y, n - 1, TileState::Flagged);
        let t = Set::new(
            |k: int| 0 <= k < n - 1 && tile_at(grid.rows(), x + offset(k).0, y + offset(k).1) == Some(TileState::Flagged),
        );
        if tile_at(grid.rows(), x + offset(n - 1).0, y + offset(n - 1).1) == Some(TileState::Flagged) {
            assert(s =~= t.insert(n - 1));
            assert(!t.contains(n - 1));
        } else {
            assert(s =~= t);
        }
    }
}

/// As many untouched tiles are gathered as there are untouched neighbours.
proof fn lemma_untouched_count(grid: &VecGrid<TileState>, x: int, y: int, n: int)
    requires
        0 <= x <= 255,
        0 <= y <= 255,
        0 <= n <= 8,
    ensures
        Set::new(|k: int| 0 <= k < n && tile_at(grid.rows(), x + offset(k).0, y + offset(k).1) == Some(TileState::Untouched)).finite(),
        untouched_around(grid, x, y, n).len() == Set::new(
            |k: int| 0 <= k < n && tile_at(grid.rows(), x + offset(k).0, y + offset(k).1) == Some(TileState::Untouched),
        ).len(),
    decreases n,
{
    broadcast use vstd::set::group_set_axioms;

    let s = Set::new(|k: int| 0 <= k < n && tile_at(grid.rows(), x + offset(k).0, y + offset(k).1) == Some(TileState::Untouched));
    if n == 0 {
        assert(s =~= Set::<int>::empty());
    } else {
        lemma_untouched_count(grid, x, y, n - 1);
        lemma_neighbor_in_state(grid, x, y, n - 1, TileState::Untouched);
        let t = Set::new(
            |k: int| 0 <= k < n - 1 && tile_at(grid.rows(), x + offset(k).0, y + offset(k).1) == Some(TileState::Untouched),
        );
        if tile_at(grid.rows(), x + offset(n - 1).0, y + offset(n - 1).1) == Some(TileState::Untouched) {
            assert(s =~= t.insert(n - 1));
            assert(!t.contains(n - 1));
        } else {
            assert(s =~= t);
        }
    }
}

/// `p` is an untouched one of the first `n` neighbours of `(x, y)`.
spec fn is_untouched_neighbor(grid: &VecGrid<TileState>, x: int, y: int, n: int, p: (u8, u8)) -> bool {
    exists|k: int|
        0 <= k < n && tile_at(grid.rows(), x + offset(k).0, y + offset(k).1) == Some(TileState::Untouched) && p == (
            (x + offset(k).0) as u8,
            (y + offset(k).1) as u8,
        )
}

/// The untouched tiles gathered around `(x, y)` are its untouched
/// neighbours, each of them.
proof fn lemma_untouched_members(grid: &VecGrid<TileState>, x: int, y: int, n: int)
    requires
        0 <= x <= 255,
        0 <= y <= 255,
        0 <= n <= 8,
    ensures
        forall|i: int| 0 <= i < untouched_around(grid, x, y, n).len() ==> #[trigger] is_untouched_neighbor(grid, x, y, n, untouched_around(grid, x, y, n)[i]),
        forall|k: int| 0 <= k < n && tile_at(grid.rows(), x + #[trigger] offset(k).0, y + offset(k).1) == Some(TileState::Untouched)
            ==> exists|i: int| 0 <= i < untouched_around(grid, x, y, n).len() && untouched_around(grid, x, y, n)[i] == (
                (x + offset(k).0) as u8,
                (y + offset(k).1) as u8,
            ),
    decreases n,
{
    if n > 0 {
        lemma_untouched_members(grid, x, y, n - 1);
        lemma_neighbor_in_state(grid, x, y, n - 1, TileState::Untouched);
        let rest = untouched_around(grid, x, y, n - 1);
        let all = untouched_around(grid, x, y, n);
        assert forall|i: int| 0 <= i < all.len() implies #[trigger] is_untouched_neighbor(grid, x, y, n, all[i]) by {
            if i < rest.len() {
                assert(all[i] == rest[i]);
                assert(is_untouched_neighbor(grid, x, y, n - 1, rest[i]));
                let k = choose|k: int|
                    0 <= k < n - 1 && tile_at(grid.rows(), x + offset(k).0, y + offset(k).1) == Some(TileState::Untouched)
                        && rest[i] == ((x + offset(k).0) as u8, (y + offset(k).1) as u8);
                assert(0 <= k < n);
            } else {
                assert(all[i] == ((x + offset(n - 1).0) as u8, (y + offset(n - 1).1) as u8));
            }
        }
        assert forall|k: int| 0 <= k < n && tile_at(grid.rows(), x + #[trigger] offset(k).0, y + offset(k).1) == Some(TileState::Untouched)
            implies exists|i: int| 0 <= i < all.len() && all[i] == ((x + offset(k).0) as u8, (y + offset(k).1) as u8) by {
            if k < n - 1 {
                let i = choose|i: int| 0 <= i < rest.len() && rest[i] == ((x + offset(k).0) as u8, (y + offset(k).1) as u8);
                assert(all[i] == rest[i]);
            } else {
                assert(all[rest.len() as int] == ((x + offset(k).0) as u8, (y + offset(k).1) as u8));
            }
        }
    }
}

/// Chording the number `count` at `(x, y)`: when exactly `count` of its
/// neighbours on the board are flagged, every untouched neighbour is
/// discovered, once each; otherwise nothing is done. Whatever is done
/// discovers an untouched neighbour.
pub proof fn law_chord_discovers_untouched_neighbors(grid: &VecGrid<TileState>, x: int, y: int, count: u8)
    requires
        0 <= x <= 255,
        0 <= y <= 255,
    ensures
        ({
            let flagged = Set::new(
                |k: int| 0 <= k < 8 && tile_at(grid.rows(), x + offset(k).0, y + offset(k).1) == Some(TileState::Flagged),
            );
            &&& flagged.finite()
            &&& flagged.len() != count ==> chord(grid, x, y, count) == Seq::<GameAction>::empty()
            &&& flagged.len() == count ==> chord(grid, x, y, count).len() == Set::new(
                |k: int| 0 <= k < 8 && tile_at(grid.rows(), x + offset(k).0, y + offset(k).1) == Some(TileState::Untouched),
            ).len()
            &&& flagged.len() == count ==> forall|k: int|
                0 <= k < 8 && tile_at(grid.rows(), x + #[trigger] offset(k).0, y + offset(k).1) == Some(TileState::Untouched)
                    ==> exists|i: int| 0 <= i < chord(grid, x, y, count).len() && chord(grid, x, y, count)[i] == (
                        GameAction::Discover { x: (x + offset(k).0) as i32, y: (y + offset(k).1) as i32 })
        }),
        forall|i: int| 0 <= i < chord(grid, x, y, count).len() ==> exists|k: int|
            0 <= k < 8 && tile_at(grid.rows(), x + offset(k).0, y + offset(k).1) == Some(TileState::Untouched)
                && #[trigger] chord(grid, x, y, count)[i] == (GameAction::Discover {
                    x: (x + offset(k).0) as i32,
                    y: (y + offset(k).1) as i32,
                }),
{
    lemma_flags_count(grid, x, y, 8);
    lemma_untouched_members(grid, x, y, 8);
    lemma_untouched_count(grid, x, y, 8);
    let t = untouched_around(grid, x, y, 8);
    let c = chord(grid, x, y, count);
    if flags_around(grid, x, y, 8) == count {
        assert forall|k: int|
            0 <= k < 8 && tile_at(grid.rows(), x + #[trigger] offset(k).0, y + offset(k).1) == Some(TileState::Untouched)
                implies exists|i: int| 0 <= i < c.len() && c[i] == (
                GameAction::Discover { x: (x + offset(k).0) as i32, y: (y + offset(k).1) as i32 }) by {
            let i = choose|i: int| 0 <= i < t.len() && t[i] == ((x + offset(k).0) as u8, (y + offset(k).1) as u8);
            assert(c[i] == GameAction::Discover { x: t[i].0 as i32, y: t[i].1 as i32 });
        }
        assert forall|i: int| 0 <= i < c.len() implies exists|k: int|
            0 <= k < 8 && tile_at(grid.rows(), x + offset(k).0, y + offset(k).1) == Some(TileState::Untouched)
                && #[trigger] c[i] == (GameAction::Discover { x: (x + offset(k).0) as i32, y: (y + offset(k).1) as i32 }) by {
            assert(c[i] == GameAction::Discover { x: t[i].0 as i32, y: t[i].1 as i32 });
            assert(is_untouched_neighbor(grid, x, y, 8, t[i]));
            let k = choose|k: int|
                0 <= k < 8 && tile_at(grid.rows(), x + offset(k).0, y + offset(k).1) == Some(TileState::Untouched)
                    && t[i] == ((x + offset(k).0) as u8, (y + offset(k).1) as u8);
            assert(c[i] == (GameAction::Discover { x: (x + offset(k).0) as i32, y: (y + offset(k).1) as i32 }));
        }
    }
}

/// The tile that an action on the board is about, if any.
pub open spec fn action_tile(a: GameAction) -> Option<(int, int)> {
    match a {
        GameAction::Discover { x, y } => Some((x as int, y as int)),
        GameAction::PlaceFlag { x, y } => Some((x as int, y as int)),
        GameAction::RemoveFlag { x, y } => Some((x as int, y as int)),
        _ => None,
    }
}

/// A click acts on the board only: off the board it asks for nothing. The
/// left button asks to discover exactly the untouched tile clicked; the
/// right button asks to flag exactly the untouched tile clicked, or to
/// unflag exactly the flagged tile clicked; the middle button, or both at
/// once, on a number chords that number there. Every action asked for
/// is about a tile of the board in the state that the action needs: a
/// discovery or a flag on an untouched tile, an unflagging on a flagged
/// one.
pub proof fn law_click_acts_on_the_clicked_tile(grid: &VecGrid<TileState>, e: MouseEvent)
    ensures
        tile_at(grid.rows(), e.x as int, e.y as int) is None ==> mouse_actions(grid, e).len() == 0,
        tile_at(grid.rows(), e.x as int, e.y as int) == Some(TileState::Untouched) && e.button is Left
            ==> mouse_actions(grid, e) == seq![(GameAction::Discover { x: e.x, y: e.y })],
        tile_at(grid.rows(), e.x as int, e.y as int) == Some(TileState::Untouched) && e.button is Right
            ==> mouse_actions(grid, e) == seq![(GameAction::PlaceFlag { x: e.x, y: e.y })],
        tile_at(grid.rows(), e.x as int, e.y as int) == Some(TileState::Flagged) && e.button is Right
            ==> mouse_actions(grid, e) == seq![(GameAction::RemoveFlag { x: e.x, y: e.y })],
        e.button is Left || e.button is Right ==> forall|i: int|
            0 <= i < mouse_actions(grid, e).len() ==> action_tile(#[trigger] mouse_actions(grid, e)[i]) == Some(
                (e.x as int, e.y as int),
            ),
        forall|i: int| 0 <= i < mouse_actions(grid, e).len() ==> {
            &&& action_tile(#[trigger] mouse_actions(grid, e)[i]) matches Some(p)
            &&& tile_at(grid.rows(), p.0, p.1) == Some(
                (if mouse_actions(grid, e)[i] is RemoveFlag { TileState::Flagged } else { TileState::Untouched }),
            )
        },
        (e.button is Middle || e.button is Double) && !(tile_at(grid.rows(), e.x as int, e.y as int) matches Some(
            TileState::Discovered(TileContent::Number(_)),
        )) ==> mouse_actions(grid, e).len() == 0,
        forall|n: u8|
            (e.button is Middle || e.button is Double) && tile_at(grid.rows(), e.x as int, e.y as int) == Some(
                TileState::Discovered(TileContent::Number(n)),
            ) ==> mouse_actions(grid, e) == chord(grid, e.x as int, e.y as int, n),
{
    let a = mouse_actions(grid, e);
    if let Some(TileState::Discovered(TileContent::Number(n))) = tile_at(grid.rows(), e.x as int, e.y as int) {
        if e.button is Middle || e.button is Double {
            law_chord_discovers_untouched_neighbors(grid, e.x as int, e.y as int, n);
            assert forall|i: int| 0 <= i < a.len() implies {
                &&& action_tile(#[trigger] a[i]) matches Some(p)
                &&& tile_at(grid.rows(), p.0, p.1) == Some(
                    if a[i] is RemoveFlag { TileState::Flagged } else { TileState::Untouched },
                )
            } by {
                let k = choose|k: int|
                    0 <= k < 8 && tile_at(grid.rows(), e.x + offset(k).0, e.y + offset(k).1) == Some(TileState::Untouched)
                        && #[trigger] chord(grid, e.x as int, e.y as int, n)[i] == (GameAction::Discover {
                            x: (e.x + offset(k).0) as i32,
                            y: (e.y + offset(k).1) as i32,
                        });
            }
        }
    }
}

/// What a click on the canvas board asks for: off the board, nothing; a
/// first click of the left button discovers exactly the tile clicked; a
/// first click of the right button flags exactly the untouched tile
/// clicked, unflags exactly the flagged one, and leaves a discovered one
/// alone; a click repeated on the same tile does what a click of both
/// buttons there does.
pub proof fn law_canvas_click_acts_on_the_clicked_tile(
    grid: &VecGrid<TileState>,
    x: i32,
    y: i32,
    button: i16,
    repeated: bool,
)
    ensures
        tile_at(grid.rows(), x as int, y as int) is None ==> click_actions_spec(grid, x, y, button, repeated).len() == 0,
        tile_at(grid.rows(), x as int, y as int) is Some && !repeated && button == 0 ==> click_actions_spec(
            grid,
            x,
            y,
            button,
            repeated,
        ) == seq![(GameAction::Discover { x, y })],
        tile_at(grid.rows(), x as int, y as int) == Some(TileState::Untouched) && !repeated && button == 2
            ==> click_actions_spec(grid, x, y, button, repeated) == seq![(GameAction::PlaceFlag { x, y })],
        tile_at(grid.rows(), x as int, y as int) == Some(TileState::Flagged) && !repeated && button == 2
            ==> click_actions_spec(grid, x, y, button, repeated) == seq![(GameAction::RemoveFlag { x, y })],
        tile_at(grid.rows(), x as int, y as int) matches Some(TileState::Discovered(_)) && !repeated && button == 2
            ==> click_actions_spec(grid, x, y, button, repeated).len() == 0,
        !repeated && button != 0 && button != 2 ==> click_actions_spec(grid, x, y, button, repeated).len() == 0,
        !repeated ==> forall|i: int|
            0 <= i < click_actions_spec(grid, x, y, button, repeated).len() ==> action_tile(
                #[trigger] click_actions_spec(grid, x, y, button, repeated)[i],
            ) == Some((x as int, y as int)),
        repeated ==> click_actions_spec(grid, x, y, button, repeated) == mouse_actions(
            grid,
            (MouseEvent { x, y, button: MouseButton::Double }),
        ),
        !repeated && button == 0 && tile_at(grid.rows(), x as int, y as int) == Some(TileState::Untouched)
            ==> click_actions_spec(grid, x, y, button, repeated) == mouse_actions(
            grid,
            (MouseEvent { x, y, button: MouseButton::Left }),
        ),
{
}

} // verus!
